//! Properties of the library that span several of its functions.
use vstd::prelude::*;
use crate::model::{actionable, Identity, ProcessView};
use crate::path::{clean_view, cleaned_parts, dot, dot_dot, fold_parts, join_parts, path_contains, rooted, target_matches};
use crate::text::{char_whitespace, pieces, pieces_from, words, words_from};
use crate::ranking::query_terms;
use crate::search::{
    abbreviation, any_field_matches, best_score, chunk_end, chunks_match, exact_at, field_view, first_match_end, is_separator,
    query_matches, query_score, reaches, term_matches, term_score, FieldView, TermView,
};
use crate::ranking::RowView;
use crate::state::{
    clamp, confirm_enter_spec, confirm_spec, detail_of, filter_details_spec, first_where, identities,
    key_spec, kill_base, kill_choice, lemma_first_where_found, open_review_spec, pick_ancestor_spec,
    position_of, prepare_kill_spec, refilter_spec, selected_targets, target_of, rows_choice, screen_choice, table_choice, pick_process_spec, replace_spec, review_move_spec, target_ids,
    AppView, EffectView, KeyCode, KeyEvent, Screen,
};

verus! {

/// Every path lies within itself.
pub proof fn law_path_contains_itself(p: Seq<u8>)
    ensures
        path_contains(p, p),
{
    let n = crate::path::cleaned_parts(p);
    assert(n.subrange(0, n.len() as int) =~= n);
}

/// A directory target matches exactly the paths it contains, whatever identities are known.
pub proof fn law_directory_target_matches_contents(
    t: Seq<u8>,
    identity: Option<(u64, u64)>,
    path: Seq<u8>,
    meta: Option<(u64, u64)>,
)
    ensures
        target_matches(t, true, identity, path, meta) == path_contains(t, path),
{
}

/// The details always show a process with the recorded birth identity: a process whose
/// PID was reused by another lifetime is never shown in its place.
pub proof fn law_detail_is_same_birth(s: AppView)
    ensures
        detail_of(s) matches Some(p) ==> s.detail_id == Some(p.identity),
{
    match s.detail_id {
        Some(id) => {
            lemma_first_where_found(s.processes, |p: ProcessView| p.identity == id);
        },
        None => {},
    }
}

/// A new scan keeps exactly the selected birth identities that still exist.
pub proof fn law_scan_keeps_live_selection(s: AppView, ps: Seq<ProcessView>, warnings: Seq<Seq<char>>)
    ensures
        replace_spec(s, ps, warnings).selected == s.selected.intersect(identities(ps)),
{
    reveal(replace_spec);
    reveal(refilter_spec);
    reveal(filter_details_spec);
}

/// After the table is recomputed its cursor is on a row, or at the top of an empty table.
pub proof fn law_table_cursor_in_range(s: AppView)
    ensures
        refilter_spec(s).cursor < refilter_spec(s).rows.len() || (refilter_spec(s).cursor == 0
            && refilter_spec(s).rows.len() == 0),
{
    reveal(refilter_spec);
}

/// Termination is requested only from the review, once its confirmation is focused on a
/// terminal large enough to show the targets, and exactly for the reviewed identities with
/// the reviewed force.
pub proof fn law_termination_only_as_reviewed(s: AppView, key: KeyEvent)
    ensures
        key_spec(s, key).1 matches EffectView::Kill(ids, force) ==> {
            &&& s.screen == Screen::Confirm
            &&& !s.editing
            &&& key.code == KeyCode::Enter
            &&& s.confirm
            &&& s.width >= 38 && s.height >= 12
            &&& ids == target_ids(s.pending)
            &&& force == s.force
        },
{
    reveal(key_spec);
    reveal(confirm_spec);
    reveal(confirm_enter_spec);
    reveal(crate::state::help_spec);
    reveal(crate::state::tree_spec);
    reveal(crate::state::main_spec);
}

/// The termination review is never left with a request after it was cancelled: leaving it
/// drops every pending target.
pub proof fn law_leaving_review_drops_targets(s: AppView, code: KeyCode)
    requires
        code == KeyCode::Esc || code == KeyCode::Char('q') || code == KeyCode::Char('n'),
    ensures
        confirm_spec(s, code).0.pending.len() == 0,
        confirm_spec(s, code).0.screen == Screen::Main,
        confirm_spec(s, code).1 == EffectView::Nothing,
{
    reveal(confirm_spec);
    reveal(review_move_spec);
}

/// With an ancestry focused, a termination key only ever proposes the focused node, and
/// only when its birth identity was observed and it is not a system process.
pub proof fn law_ancestor_targets_are_actionable(s: AppView, code: KeyCode)
    requires
        s.tree is Some,
        !s.stopping,
    ensures
        prepare_kill_spec(s, code).pending.len() <= 1,
        forall|i: int| 0 <= i < prepare_kill_spec(s, code).pending.len()
            ==> actionable(#[trigger] prepare_kill_spec(s, code).pending[i].identity),
{
    reveal(prepare_kill_spec);
    reveal(kill_base);
    reveal(kill_choice);
    reveal(pick_ancestor_spec);
    reveal(open_review_spec);
}

/// Containment is transitive: what lies below a path that lies below another lies below
/// that other too.
pub proof fn law_containment_is_transitive(a: Seq<u8>, b: Seq<u8>, c: Seq<u8>)
    requires
        path_contains(a, b),
        path_contains(b, c),
    ensures
        path_contains(a, c),
{
    let na = cleaned_parts(a);
    let nb = cleaned_parts(b);
    let nc = cleaned_parts(c);
    if rooted(a) == rooted(b) && na.is_prefix_of(nb) && rooted(b) == rooted(c) && nb.is_prefix_of(nc) {
        assert(na.is_prefix_of(nc)) by {
            assert forall|i: int| 0 <= i < na.len() implies na[i] == nc[i] by {
                assert(na[i] == nb[i]);
            }
        }
    }
}

/// Every termination review opens with Cancel focused and scrolled to the top, and only
/// with a target to review.
pub proof fn law_review_opens_on_cancel(s: AppView, code: KeyCode)
    requires
        !s.stopping,
        s.screen != Screen::Confirm,
    ensures
        !prepare_kill_spec(s, code).confirm,
        prepare_kill_spec(s, code).scroll == 0,
        prepare_kill_spec(s, code).screen == Screen::Confirm ==> prepare_kill_spec(s, code).pending.len() > 0,
{
    reveal(prepare_kill_spec);
    reveal(kill_base);
    reveal(kill_choice);
    reveal(pick_ancestor_spec);
    reveal(open_review_spec);
    reveal(screen_choice);
    reveal(table_choice);
    reveal(rows_choice);
    reveal(pick_process_spec);
}

/// No piece contains the separator.
proof fn lemma_pieces_free<T>(s: Seq<T>, sep: T, cur: Seq<T>)
    requires
        !cur.contains(sep),
    ensures
        forall|i: int| 0 <= i < pieces_from(s, sep, cur).len() ==> !(#[trigger] pieces_from(s, sep, cur)[i]).contains(sep),
    decreases s.len(),
{
    let all = pieces_from(s, sep, cur);
    if s.len() == 0 {
        assert(all =~= seq![cur]);
        assert forall|i: int| 0 <= i < all.len() implies !(#[trigger] all[i]).contains(sep) by {
            assert(all[i] == cur);
        }
    } else if s[0] == sep {
        lemma_pieces_free(s.drop_first(), sep, Seq::empty());
        let rest = pieces_from(s.drop_first(), sep, Seq::empty());
        assert(all =~= seq![cur] + rest);
        assert forall|i: int| 0 <= i < all.len() implies !(#[trigger] all[i]).contains(sep) by {
            if i > 0 {
                assert(all[i] == rest[i - 1]);
            } else {
                assert(all[i] == cur);
            }
        }
    } else {
        assert(!cur.push(s[0]).contains(sep)) by {
            if cur.push(s[0]).contains(sep) {
                let j = choose|j: int| 0 <= j < cur.push(s[0]).len() && cur.push(s[0])[j] == sep;
                if j < cur.len() {
                    assert(cur[j] == sep);
                }
            }
        }
        lemma_pieces_free(s.drop_first(), sep, cur.push(s[0]));
        let rest = pieces_from(s.drop_first(), sep, cur.push(s[0]));
        assert(all == rest);
        assert forall|i: int| 0 <= i < all.len() implies !(#[trigger] all[i]).contains(sep) by {
            assert(all[i] == rest[i]);
        }
    }
}

/// Splitting after a separator continues with a fresh piece.
proof fn lemma_pieces_split<T>(a: Seq<T>, sep: T, rest: Seq<T>, cur: Seq<T>)
    ensures
        pieces_from(a + seq![sep] + rest, sep, cur) == pieces_from(a, sep, cur) + pieces_from(rest, sep, Seq::empty()),
    decreases a.len(),
{
    let whole = a + seq![sep] + rest;
    if a.len() == 0 {
        assert(whole =~= seq![sep] + rest);
        assert(whole.drop_first() =~= rest);
    } else {
        assert(whole.drop_first() =~= a.drop_first() + seq![sep] + rest);
        assert(whole[0] == a[0]);
        if a[0] == sep {
            lemma_pieces_split(a.drop_first(), sep, rest, Seq::empty());
            assert(pieces_from(whole, sep, cur) =~= pieces_from(a, sep, cur) + pieces_from(rest, sep, Seq::empty()));
        } else {
            lemma_pieces_split(a.drop_first(), sep, rest, cur.push(a[0]));
        }
    }
}

/// A piece without separators stays whole.
proof fn lemma_pieces_single<T>(b: Seq<T>, sep: T, cur: Seq<T>)
    requires
        !b.contains(sep),
    ensures
        pieces_from(b, sep, cur) == seq![cur + b],
    decreases b.len(),
{
    if b.len() == 0 {
        assert(cur + b =~= cur);
    } else {
        assert(b[0] != sep) by {
            assert(b[0] == b[0]);
        }
        assert(!b.drop_first().contains(sep)) by {
            if b.drop_first().contains(sep) {
                let j = choose|j: int| 0 <= j < b.drop_first().len() && b.drop_first()[j] == sep;
                assert(b[j + 1] == sep);
            }
        }
        lemma_pieces_single(b.drop_first(), sep, cur.push(b[0]));
        assert(cur.push(b[0]) + b.drop_first() =~= cur + b);
    }
}

/// A named component: not empty, `.` or `..`, and without `/`.
spec fn named(x: Seq<u8>) -> bool {
    x.len() > 0 && x != dot() && x != dot_dot() && !x.contains(47u8)
}

/// Joined named components split back into the same components.
proof fn lemma_pieces_of_join(ps: Seq<Seq<u8>>)
    requires
        ps.len() > 0,
        forall|i: int| 0 <= i < ps.len() ==> named(#[trigger] ps[i]),
    ensures
        pieces(join_parts(ps), 47u8) == ps,
    decreases ps.len(),
{
    if ps.len() == 1 {
        lemma_pieces_single(ps[0], 47u8, Seq::empty());
        assert(Seq::<u8>::empty() + ps[0] =~= ps[0]);
        assert(ps =~= seq![ps[0]]);
    } else {
        let front = ps.drop_last();
        assert forall|i: int| 0 <= i < front.len() implies named(#[trigger] front[i]) by {
            assert(front[i] == ps[i]);
        }
        lemma_pieces_of_join(front);
        assert(named(ps[ps.len() - 1]));
        lemma_pieces_split(join_parts(front), 47u8, ps.last(), Seq::empty());
        lemma_pieces_single(ps.last(), 47u8, Seq::empty());
        assert(Seq::<u8>::empty() + ps.last() =~= ps.last());
        assert(ps =~= front + seq![ps.last()]);
    }
}

/// Folding named components, after empty pieces, gives them back.
proof fn lemma_fold_named(lead: Seq<Seq<u8>>, ps: Seq<Seq<u8>>)
    requires
        forall|i: int| 0 <= i < lead.len() ==> (#[trigger] lead[i]).len() == 0,
        forall|i: int| 0 <= i < ps.len() ==> named(#[trigger] ps[i]),
    ensures
        fold_parts(lead + ps) == ps,
    decreases lead.len() + ps.len(),
{
    if ps.len() == 0 {
        assert(lead + ps =~= lead);
        if lead.len() > 0 {
            lemma_fold_named(lead.drop_last(), ps);
            assert(lead.drop_last() + ps =~= lead.drop_last());
        }
    } else {
        let front = ps.drop_last();
        assert forall|i: int| 0 <= i < front.len() implies named(#[trigger] front[i]) by {
            assert(front[i] == ps[i]);
        }
        lemma_fold_named(lead, front);
        assert((lead + ps).drop_last() =~= lead + front);
        assert((lead + ps).last() == ps.last());
        assert(named(ps[ps.len() - 1]));
        assert(front.push(ps.last()) =~= ps);
    }
}

/// Folding keeps only named components taken from the pieces.
proof fn lemma_fold_is_named(ps: Seq<Seq<u8>>)
    requires
        forall|i: int| 0 <= i < ps.len() ==> !(#[trigger] ps[i]).contains(47u8),
    ensures
        forall|i: int| 0 <= i < fold_parts(ps).len() ==> named(#[trigger] fold_parts(ps)[i]),
    decreases ps.len(),
{
    if ps.len() > 0 {
        let front = ps.drop_last();
        assert forall|i: int| 0 <= i < front.len() implies !(#[trigger] front[i]).contains(47u8) by {
            assert(front[i] == ps[i]);
        }
        lemma_fold_is_named(front);
        let acc = fold_parts(front);
        let x = ps.last();
        assert(!ps[ps.len() - 1].contains(47u8));
        let all = fold_parts(ps);
        assert forall|i: int| 0 <= i < all.len() implies named(#[trigger] all[i]) by {
            if x.len() == 0 || x == dot() {
                assert(all[i] == acc[i]);
            } else if x == dot_dot() {
                assert(all[i] == acc[i]);
            } else {
                if i < acc.len() {
                    assert(all[i] == acc[i]);
                } else {
                    assert(all[i] == x);
                }
            }
        }
    }
}

/// Joined components start with the first component.
proof fn lemma_join_first(ps: Seq<Seq<u8>>)
    requires
        ps.len() > 0,
        ps[0].len() > 0,
    ensures
        join_parts(ps).len() > 0,
        join_parts(ps)[0] == ps[0][0],
    decreases ps.len(),
{
    if ps.len() > 1 {
        lemma_join_first(ps.drop_last());
    }
}

/// Cleaning is idempotent: a cleaned path is already clean.
pub proof fn law_clean_is_idempotent(p: Seq<u8>)
    ensures
        clean_view(clean_view(p)) == clean_view(p),
{
    let parts = cleaned_parts(p);
    lemma_pieces_free(p, 47u8, Seq::empty());
    lemma_fold_is_named(pieces(p, 47u8));
    let c = clean_view(p);
    let lead: Seq<Seq<u8>> = if rooted(p) { seq![Seq::<u8>::empty()] } else { Seq::empty() };
    if parts.len() > 0 {
        assert(named(parts[0]));
        lemma_join_first(parts);
        assert(!parts[0].contains(47u8));
        assert(parts[0][0] != 47u8) by {
            if parts[0][0] == 47u8 {
                assert(parts[0].contains(47u8));
            }
        }
        lemma_pieces_of_join(parts);
        if rooted(p) {
            assert(c =~= Seq::<u8>::empty() + seq![47u8] + join_parts(parts));
            lemma_pieces_split(Seq::<u8>::empty(), 47u8, join_parts(parts), Seq::empty());
            assert(pieces_from(Seq::<u8>::empty(), 47u8, Seq::<u8>::empty()) =~= seq![Seq::<u8>::empty()]);
            assert(rooted(c));
        } else {
            assert(c =~= join_parts(parts));
            assert(!rooted(c));
            assert(lead + parts =~= parts);
        }
        assert(pieces(c, 47u8) =~= lead + parts);
    } else {
        if rooted(p) {
            assert(c =~= seq![47u8]);
            assert(c.drop_first() =~= Seq::<u8>::empty());
            assert(c[0] == 47u8);
            assert(pieces_from(c.drop_first(), 47u8, Seq::<u8>::empty()) == seq![Seq::<u8>::empty()]);
            assert(pieces(c, 47u8) =~= seq![Seq::<u8>::empty(), Seq::<u8>::empty()]);
        } else {
            assert(c =~= Seq::<u8>::empty());
            assert(pieces(c, 47u8) =~= seq![Seq::<u8>::empty()]);
        }
    }
    assert forall|i: int| 0 <= i < parts.len() implies named(#[trigger] parts[i]) by {}
    if parts.len() > 0 {
        lemma_fold_named(lead, parts);
    } else {
        let ps = pieces(c, 47u8);
        lemma_fold_named(ps, Seq::empty());
        assert(ps + Seq::<Seq<u8>>::empty() =~= ps);
    }
    assert(cleaned_parts(c) == parts);
    assert(rooted(c) == rooted(p));
}

/// A termination review of a selection includes every selected process of the snapshot,
/// also those the current query hides, and nothing else.
pub proof fn law_review_includes_hidden_selection(s: AppView, code: KeyCode)
    requires
        !s.stopping,
        s.tree is None,
        s.screen == Screen::Main,
        s.selected != Set::<Identity>::empty(),
    ensures
        prepare_kill_spec(s, code).pending == selected_targets(s.processes, s.selected),
        forall|k: int| 0 <= k < s.processes.len() && s.selected.contains(#[trigger] s.processes[k].identity)
            ==> target_ids(prepare_kill_spec(s, code).pending).contains(s.processes[k].identity),
        forall|j: int| 0 <= j < prepare_kill_spec(s, code).pending.len()
            ==> s.selected.contains(#[trigger] prepare_kill_spec(s, code).pending[j].identity),
{
    reveal(prepare_kill_spec);
    reveal(kill_base);
    reveal(kill_choice);
    reveal(open_review_spec);
    reveal(screen_choice);
    reveal(table_choice);
    reveal(selected_targets);
    let pred = |p: ProcessView| s.selected.contains(p.identity);
    let kept = s.processes.filter(pred);
    let pending = prepare_kill_spec(s, code).pending;
    assert(pending == kept.map_values(|p: ProcessView| target_of(p)));
    assert forall|k: int| 0 <= k < s.processes.len() && s.selected.contains(#[trigger] s.processes[k].identity)
        implies target_ids(pending).contains(s.processes[k].identity) by {
        s.processes.lemma_filter_contains(pred, k);
        let j = choose|j: int| 0 <= j < kept.len() && kept[j] == s.processes[k];
        assert(target_ids(pending)[j] == s.processes[k].identity);
    }
    assert forall|j: int| 0 <= j < pending.len() implies s.selected.contains(#[trigger] pending[j].identity) by {
        s.processes.lemma_filter_pred(pred, j);
        assert(pending[j] == target_of(kept[j]));
    }
}

/// Cleaning leaves only named components: none is empty, `.` or `..`, and none holds `/`.
pub proof fn law_clean_leaves_no_dot_components(p: Seq<u8>)
    ensures
        forall|k: int| 0 <= k < cleaned_parts(p).len() ==> {
            let x = #[trigger] cleaned_parts(p)[k];
            &&& x.len() > 0
            &&& x != dot()
            &&& x != dot_dot()
            &&& !x.contains(47u8)
        },
{
    lemma_pieces_free(p, 47u8, Seq::empty());
    lemma_fold_is_named(pieces(p, 47u8));
}

/// Terms of a query combine by conjunction: the terms of two queries together match
/// exactly when each query's terms match, possibly in different fields.
pub proof fn law_terms_combine(a: Seq<TermView>, b: Seq<TermView>, fields: Seq<FieldView>)
    ensures
        query_matches(a + b, fields) == (query_matches(a, fields) && query_matches(b, fields)),
{
    if query_matches(a, fields) && query_matches(b, fields) {
        assert forall|i: int| 0 <= i < (a + b).len() implies any_field_matches(#[trigger] (a + b)[i], fields) by {
            if i < a.len() {
                assert((a + b)[i] == a[i]);
            } else {
                assert((a + b)[i] == b[i - a.len()]);
            }
        }
    }
    if query_matches(a + b, fields) {
        assert forall|i: int| 0 <= i < a.len() implies any_field_matches(#[trigger] a[i], fields) by {
            assert((a + b)[i] == a[i]);
        }
        assert forall|i: int| 0 <= i < b.len() implies any_field_matches(#[trigger] b[i], fields) by {
            assert((a + b)[a.len() + i] == b[i]);
        }
    }
}

/// The rank of a query is the sum of the ranks of its terms taken as separate queries.
pub proof fn law_scores_add(a: Seq<TermView>, b: Seq<TermView>, fields: Seq<FieldView>)
    ensures
        query_score(a + b, fields) == query_score(a, fields) + query_score(b, fields),
    decreases b.len(),
{
    if b.len() == 0 {
        assert(a + b =~= a);
    } else {
        law_scores_add(a, b.drop_last(), fields);
        assert((a + b).drop_last() =~= a + b.drop_last());
        assert((a + b).last() == b.last());
    }
}

proof fn lemma_best_score_bounded(t: TermView, fields: Seq<FieldView>)
    ensures
        best_score(t, fields) <= 200,
        fields.len() == 0 ==> best_score(t, fields) == 0,
    decreases fields.len(),
{
    if fields.len() > 0 {
        lemma_best_score_bounded(t, fields.drop_last());
    }
}

/// Each term ranks at most 200 (an exact name), so a query of `n` terms ranks at most
/// `200 * n`; without fields it ranks zero.
pub proof fn law_score_bounds(terms: Seq<TermView>, fields: Seq<FieldView>)
    ensures
        query_score(terms, fields) <= 200 * terms.len(),
        query_score(terms, Seq::empty()) == 0,
    decreases terms.len(),
{
    if terms.len() > 0 {
        law_score_bounds(terms.drop_last(), fields);
        lemma_best_score_bounded(terms.last(), fields);
        lemma_best_score_bounded(terms.last(), Seq::empty());
    }
}

/// The best rank over fields is at least the rank of each of them.
proof fn lemma_best_at_least(t: TermView, fields: Seq<FieldView>, k: int)
    requires
        0 <= k < fields.len(),
    ensures
        best_score(t, fields) >= term_score(t, fields[k]),
    decreases fields.len(),
{
    if k < fields.len() - 1 {
        lemma_best_at_least(t, fields.drop_last(), k);
        assert(fields.drop_last()[k] == fields[k]);
    }
}

/// Every term of a matching query ranks at least 30 (an abbreviation or wildcard match), so
/// a matching query of `n` terms ranks at least `30 * n`.
pub proof fn law_matching_terms_score(terms: Seq<TermView>, fields: Seq<FieldView>)
    requires
        query_matches(terms, fields),
    ensures
        query_score(terms, fields) >= 30 * terms.len(),
    decreases terms.len(),
{
    if terms.len() > 0 {
        let front = terms.drop_last();
        assert forall|i: int| 0 <= i < front.len() implies any_field_matches(#[trigger] front[i], fields) by {
            assert(front[i] == terms[i]);
        }
        law_matching_terms_score(front, fields);
        let t = terms.last();
        assert(any_field_matches(terms[terms.len() - 1], fields));
        let k = choose|k: int| 0 <= k < fields.len() && term_matches(t, #[trigger] fields[k]);
        lemma_best_at_least(t, fields, k);
    }
}

/// Two fields with the same text, lowercase text, folded characters and word starts.
spec fn same_text(f1: FieldView, f2: FieldView) -> bool {
    &&& f1.lower == f2.lower
    &&& f1.chars == f2.chars
    &&& f1.folded == f2.folded
    &&& f1.boundaries == f2.boundaries
}

proof fn lemma_abbreviation_same(f1: FieldView, f2: FieldView, q: Seq<char>, start: int, i: int, j: int)
    requires
        same_text(f1, f2),
    ensures
        abbreviation(f1, q, start, i, j) == abbreviation(f2, q, start, i, j),
    decreases i, 2 * (j - start) + 1,
{
    if i < 0 || i >= q.len() || j < start || j >= f1.chars.len() || is_separator(f1.chars[j]) || f1.folded[j] != q[i] {
    } else if i == 0 {
    } else {
        if j > start {
            lemma_abbreviation_same(f1, f2, q, start, i - 1, j - 1);
        }
        lemma_reaches_same(f1, f2, q, start, i - 1, j);
    }
}

proof fn lemma_reaches_same(f1: FieldView, f2: FieldView, q: Seq<char>, start: int, i: int, j: int)
    requires
        same_text(f1, f2),
    ensures
        reaches(f1, q, start, i, j) == reaches(f2, q, start, i, j),
    decreases i, 2 * (j - start),
{
    if j <= start || j > f1.chars.len() || is_separator(f1.chars[j - 1]) {
    } else {
        lemma_reaches_same(f1, f2, q, start, i, j - 1);
        lemma_abbreviation_same(f1, f2, q, start, i, j - 1);
    }
}

proof fn lemma_first_end_same(f1: FieldView, f2: FieldView, q: Seq<char>, start: int, e: int)
    requires
        same_text(f1, f2),
    ensures
        first_match_end(f1, q, start, e) == first_match_end(f2, q, start, e),
    decreases f1.chars.len() + 1 - e,
{
    if e <= f1.chars.len() {
        lemma_abbreviation_same(f1, f2, q, start, q.len() - 1, e - 1);
        assert(exact_at(f1, q, start, e - q.len()) == exact_at(f2, q, start, e - q.len()));
        lemma_first_end_same(f1, f2, q, start, e + 1);
    }
}

proof fn lemma_chunks_same(f1: FieldView, f2: FieldView, chunks: Seq<Seq<char>>, k: int, start: int)
    requires
        same_text(f1, f2),
    ensures
        chunks_match(f1, chunks, k, start) == chunks_match(f2, chunks, k, start),
    decreases chunks.len() - k,
{
    if k < chunks.len() {
        if chunks[k].len() > 0 {
            lemma_first_end_same(f1, f2, chunks[k], start, start + 1);
        }
        match chunk_end(f1, chunks[k], start) {
            Some(e) => lemma_chunks_same(f1, f2, chunks, k + 1, e),
            None => {},
        }
    }
}

/// A name field ranks twice what the same text ranks as a plain field.
pub proof fn law_names_rank_double(t: TermView, text: Seq<char>)
    ensures
        term_score(t, field_view(text, true)) == 2 * term_score(t, field_view(text, false)),
{
    let a = field_view(text, true);
    let b = field_view(text, false);
    assert(same_text(a, b));
    lemma_chunks_same(a, b, t.chunks, 0, 0);
    assert(term_matches(t, a) == term_matches(t, b));
}

/// Reading a word without whitespace extends the word under construction.
proof fn lemma_words_through(a: Seq<char>, rest: Seq<char>, cur: Seq<char>)
    requires
        forall|i: int| 0 <= i < a.len() ==> !char_whitespace(#[trigger] a[i]),
    ensures
        words_from(a + rest, cur) == words_from(rest, cur + a),
    decreases a.len(),
{
    if a.len() == 0 {
        assert(a + rest =~= rest);
        assert(cur + a =~= cur);
    } else {
        assert((a + rest)[0] == a[0]);
        assert((a + rest).drop_first() =~= a.drop_first() + rest);
        lemma_words_through(a.drop_first(), rest, cur.push(a[0]));
        assert(cur.push(a[0]) + a.drop_first() =~= cur + a);
    }
}

/// A word without whitespace is its own only word.
proof fn lemma_one_word(a: Seq<char>)
    requires
        a.len() > 0,
        forall|i: int| 0 <= i < a.len() ==> !char_whitespace(#[trigger] a[i]),
    ensures
        words(a) == seq![a],
{
    lemma_words_through(a, Seq::empty(), Seq::empty());
    assert(a + Seq::<char>::empty() =~= a);
    assert(Seq::<char>::empty() + a =~= a);
}

/// A query of two words separated by whitespace matches exactly when each word alone
/// matches, possibly in different fields, and ranks the sum of their ranks.
pub proof fn law_two_word_query(a: Seq<char>, b: Seq<char>, w: char, fields: Seq<FieldView>)
    requires
        a.len() > 0,
        b.len() > 0,
        forall|i: int| 0 <= i < a.len() ==> !char_whitespace(#[trigger] a[i]),
        forall|i: int| 0 <= i < b.len() ==> !char_whitespace(#[trigger] b[i]),
        char_whitespace(w),
    ensures
        query_matches(query_terms(a + seq![w] + b), fields) == (query_matches(query_terms(a), fields)
            && query_matches(query_terms(b), fields)),
        query_score(query_terms(a + seq![w] + b), fields) == query_score(query_terms(a), fields) + query_score(
            query_terms(b),
            fields,
        ),
{
    let text = a + seq![w] + b;
    lemma_words_through(a, seq![w] + b, Seq::empty());
    assert(text =~= a + (seq![w] + b));
    assert(Seq::<char>::empty() + a =~= a);
    let tail = seq![w] + b;
    assert(tail[0] == w);
    assert(tail.drop_first() =~= b);
    lemma_one_word(b);
    lemma_one_word(a);
    assert(words_from(tail, a) =~= seq![a] + words_from(b, Seq::empty()));
    assert(words(text) =~= seq![a, b]);
    let ta = query_terms(a);
    let tb = query_terms(b);
    assert(query_terms(text) =~= ta + tb);
    law_terms_combine(ta, tb, fields);
    law_scores_add(ta, tb, fields);
}

/// A query ranks a name field twice what it ranks the same text as a plain field.
pub proof fn law_name_field_doubles_query(terms: Seq<TermView>, text: Seq<char>)
    ensures
        query_score(terms, seq![field_view(text, true)]) == 2 * query_score(terms, seq![field_view(text, false)]),
    decreases terms.len(),
{
    if terms.len() > 0 {
        law_name_field_doubles_query(terms.drop_last(), text);
        let t = terms.last();
        law_names_rank_double(t, text);
        let one = seq![field_view(text, true)];
        let two = seq![field_view(text, false)];
        assert(one.drop_last() =~= Seq::<FieldView>::empty());
        assert(two.drop_last() =~= Seq::<FieldView>::empty());
        lemma_best_score_bounded(t, Seq::<FieldView>::empty());
        assert(one.last() == field_view(text, true));
        assert(two.last() == field_view(text, false));
        assert(best_score(t, one.drop_last()) == 0);
        assert(best_score(t, two.drop_last()) == 0);
        assert(best_score(t, one) == term_score(t, field_view(text, true)));
        assert(best_score(t, two) == term_score(t, field_view(text, false)));
    }
}

/// Cleaning examples: `/a/./b/../c` is `/a/c`, `a/../../b` is `b`, and `/..` is `/`.
pub proof fn law_clean_examples()
    ensures
        clean_view(seq![47u8, 97, 47, 46, 47, 98, 47, 46, 46, 47, 99]) == seq![47u8, 97, 47, 99],
        clean_view(seq![97u8, 47, 46, 46, 47, 46, 46, 47, 98]) == seq![98u8],
        clean_view(seq![47u8, 46, 46]) == seq![47u8],
{
    reveal_with_fuel(pieces_from, 12);
    reveal_with_fuel(fold_parts, 6);
    reveal_with_fuel(join_parts, 3);
    let p1 = seq![47u8, 97, 47, 46, 47, 98, 47, 46, 46, 47, 99];
    assert(seq![46u8].push(46u8) =~= seq![46u8, 46]);
    assert(Seq::<u8>::empty().push(46u8) =~= seq![46u8]);
    assert(Seq::<u8>::empty().push(97u8) =~= seq![97u8]);
    assert(Seq::<u8>::empty().push(98u8) =~= seq![98u8]);
    assert(Seq::<u8>::empty().push(99u8) =~= seq![99u8]);
    assert(seq![46u8] =~= dot());
    assert(seq![46u8, 46] =~= dot_dot());
    assert(pieces_from(Seq::<u8>::empty(), 47u8, seq![99u8]) =~= seq![seq![99u8]]);
    assert(seq![99u8].drop_first() =~= Seq::<u8>::empty());
    assert(pieces_from(seq![99u8], 47u8, Seq::<u8>::empty()) =~= seq![seq![99u8]]);
    assert(seq![47u8, 99].drop_first() =~= seq![99u8]);
    assert(pieces_from(seq![47u8, 99], 47u8, seq![46u8, 46]) =~= seq![seq![46u8, 46], seq![99u8]]);
    assert(seq![46u8, 47, 99].drop_first() =~= seq![47u8, 99]);
    assert(pieces_from(seq![46u8, 47, 99], 47u8, seq![46u8]) =~= seq![seq![46u8, 46], seq![99u8]]);
    assert(seq![46u8, 46, 47, 99].drop_first() =~= seq![46u8, 47, 99]);
    assert(pieces_from(seq![46u8, 46, 47, 99], 47u8, Seq::<u8>::empty()) =~= seq![seq![46u8, 46], seq![99u8]]);
    assert(seq![47u8, 46, 46, 47, 99].drop_first() =~= seq![46u8, 46, 47, 99]);
    assert(pieces_from(seq![47u8, 46, 46, 47, 99], 47u8, seq![98u8]) =~= seq![seq![98u8], seq![46u8, 46], seq![99u8]]);
    assert(seq![98u8, 47, 46, 46, 47, 99].drop_first() =~= seq![47u8, 46, 46, 47, 99]);
    assert(pieces_from(seq![98u8, 47, 46, 46, 47, 99], 47u8, Seq::<u8>::empty()) =~= seq![seq![98u8], seq![46u8, 46], seq![99u8]]);
    assert(seq![47u8, 98, 47, 46, 46, 47, 99].drop_first() =~= seq![98u8, 47, 46, 46, 47, 99]);
    assert(pieces_from(seq![47u8, 98, 47, 46, 46, 47, 99], 47u8, seq![46u8]) =~= seq![seq![46u8], seq![98u8], seq![46u8, 46], seq![99u8]]);
    assert(seq![46u8, 47, 98, 47, 46, 46, 47, 99].drop_first() =~= seq![47u8, 98, 47, 46, 46, 47, 99]);
    assert(pieces_from(seq![46u8, 47, 98, 47, 46, 46, 47, 99], 47u8, Seq::<u8>::empty()) =~= seq![seq![46u8], seq![98u8], seq![46u8, 46], seq![99u8]]);
    assert(seq![47u8, 46, 47, 98, 47, 46, 46, 47, 99].drop_first() =~= seq![46u8, 47, 98, 47, 46, 46, 47, 99]);
    assert(pieces_from(seq![47u8, 46, 47, 98, 47, 46, 46, 47, 99], 47u8, seq![97u8]) =~= seq![seq![97u8], seq![46u8], seq![98u8], seq![46u8, 46], seq![99u8]]);
    assert(seq![97u8, 47, 46, 47, 98, 47, 46, 46, 47, 99].drop_first() =~= seq![47u8, 46, 47, 98, 47, 46, 46, 47, 99]);
    assert(pieces_from(seq![97u8, 47, 46, 47, 98, 47, 46, 46, 47, 99], 47u8, Seq::<u8>::empty()) =~= seq![seq![97u8], seq![46u8], seq![98u8], seq![46u8, 46], seq![99u8]]);
    assert(seq![47u8, 97, 47, 46, 47, 98, 47, 46, 46, 47, 99].drop_first() =~= seq![97u8, 47, 46, 47, 98, 47, 46, 46, 47, 99]);
    assert(pieces_from(seq![47u8, 97, 47, 46, 47, 98, 47, 46, 46, 47, 99], 47u8, Seq::<u8>::empty()) =~= seq![Seq::<u8>::empty(), seq![97u8], seq![46u8], seq![98u8], seq![46u8, 46], seq![99u8]]);
    assert(pieces(p1, 47u8) =~= seq![Seq::<u8>::empty(), seq![97u8], seq![46u8], seq![98u8], seq![46u8, 46], seq![99u8]]);
    assert(seq![Seq::<u8>::empty()].drop_last() =~= Seq::<Seq<u8>>::empty());
    assert(fold_parts(seq![Seq::<u8>::empty()]) =~= Seq::<Seq<u8>>::empty());
    assert(seq![Seq::<u8>::empty(), seq![97u8]].drop_last() =~= seq![Seq::<u8>::empty()]);
    assert(fold_parts(seq![Seq::<u8>::empty(), seq![97u8]]) =~= seq![seq![97u8]]);
    assert(seq![Seq::<u8>::empty(), seq![97u8], seq![46u8]].drop_last() =~= seq![Seq::<u8>::empty(), seq![97u8]]);
    assert(fold_parts(seq![Seq::<u8>::empty(), seq![97u8], seq![46u8]]) =~= seq![seq![97u8]]);
    assert(seq![Seq::<u8>::empty(), seq![97u8], seq![46u8], seq![98u8]].drop_last() =~= seq![Seq::<u8>::empty(), seq![97u8], seq![46u8]]);
    assert(fold_parts(seq![Seq::<u8>::empty(), seq![97u8], seq![46u8], seq![98u8]]) =~= seq![seq![97u8], seq![98u8]]);
    assert(seq![Seq::<u8>::empty(), seq![97u8], seq![46u8], seq![98u8], seq![46u8, 46]].drop_last() =~= seq![Seq::<u8>::empty(), seq![97u8], seq![46u8], seq![98u8]]);
    assert(fold_parts(seq![Seq::<u8>::empty(), seq![97u8], seq![46u8], seq![98u8], seq![46u8, 46]]) =~= seq![seq![97u8]]);
    assert(seq![Seq::<u8>::empty(), seq![97u8], seq![46u8], seq![98u8], seq![46u8, 46], seq![99u8]].drop_last() =~= seq![Seq::<u8>::empty(), seq![97u8], seq![46u8], seq![98u8], seq![46u8, 46]]);
    assert(fold_parts(seq![Seq::<u8>::empty(), seq![97u8], seq![46u8], seq![98u8], seq![46u8, 46], seq![99u8]]) =~= seq![seq![97u8], seq![99u8]]);
    assert(cleaned_parts(p1) =~= seq![seq![97u8], seq![99u8]]);
    assert(clean_view(p1) =~= seq![47u8, 97, 47, 99]);
    let p2 = seq![97u8, 47, 46, 46, 47, 46, 46, 47, 98];
    assert(pieces(p2, 47u8) =~= seq![seq![97u8], seq![46u8, 46], seq![46u8, 46], seq![98u8]]);
    assert(cleaned_parts(p2) =~= seq![seq![98u8]]);
    assert(clean_view(p2) =~= seq![98u8]);
    let p3 = seq![47u8, 46, 46];
    assert(pieces(p3, 47u8) =~= seq![Seq::<u8>::empty(), seq![46u8, 46]]);
    assert(cleaned_parts(p3) =~= Seq::<Seq<u8>>::empty());
    assert(clean_view(p3) =~= seq![47u8]);
}

/// Ordering by rank, PID, memory or CPU (then by PID) is a strict weak order.
proof fn lemma_metric_order(ps: Seq<ProcessView>, sort: crate::ranking::Sort)
    requires
        sort != crate::ranking::Sort::Name,
    ensures
        crate::ranking::weak_order(crate::ranking::row_order_fn(ps, sort)),
{
    let f = crate::ranking::row_order_fn(ps, sort);
    assert forall|a: RowView, b: RowView| #[trigger] f(a, b) implies !f(b, a) by {}
    assert forall|a: RowView, b: RowView, c: RowView| #![trigger f(a, b), f(b, c)] !f(a, b) && !f(b, c) implies !f(a, c) by {}
}

/// Sorting by CPU puts the most CPU first: in the sorted table, of two rows whose processes
/// have a CPU share, the earlier one never has less.
pub proof fn law_cpu_sort_most_first(ps: Seq<ProcessView>, rows: Seq<RowView>)
    ensures
        ({
            let out = crate::ranking::stable_sort(rows, crate::ranking::row_order_fn(ps, crate::ranking::Sort::Cpu));
            forall|i: int, j: int| 0 <= i < j < out.len() && (#[trigger] ps[out[i].process as int]).cpu is Some
                && (#[trigger] ps[out[j].process as int]).cpu is Some
                ==> ps[out[i].process as int].cpu->0 >= ps[out[j].process as int].cpu->0
        }),
{
    let f = crate::ranking::row_order_fn(ps, crate::ranking::Sort::Cpu);
    lemma_metric_order(ps, crate::ranking::Sort::Cpu);
    crate::ranking::lemma_stable_sort_sorted(rows, f);
    let out = crate::ranking::stable_sort(rows, f);
    assert forall|i: int, j: int| 0 <= i < j < out.len() && (#[trigger] ps[out[i].process as int]).cpu is Some
        && (#[trigger] ps[out[j].process as int]).cpu is Some
        implies ps[out[i].process as int].cpu->0 >= ps[out[j].process as int].cpu->0 by {
        assert(!f(out[i], out[j]));
    }
}

/// Sorting by memory puts the most memory first: in the sorted table, of two rows whose
/// processes have a resident size, the earlier one never has less.
pub proof fn law_memory_sort_most_first(ps: Seq<ProcessView>, rows: Seq<RowView>)
    ensures
        ({
            let out = crate::ranking::stable_sort(rows, crate::ranking::row_order_fn(ps, crate::ranking::Sort::Memory));
            forall|i: int, j: int| 0 <= i < j < out.len() && (#[trigger] ps[out[i].process as int]).memory is Some
                && (#[trigger] ps[out[j].process as int]).memory is Some
                ==> ps[out[i].process as int].memory->0 >= ps[out[j].process as int].memory->0
        }),
{
    let f = crate::ranking::row_order_fn(ps, crate::ranking::Sort::Memory);
    lemma_metric_order(ps, crate::ranking::Sort::Memory);
    crate::ranking::lemma_stable_sort_sorted(rows, f);
    let out = crate::ranking::stable_sort(rows, f);
    assert forall|i: int, j: int| 0 <= i < j < out.len() && (#[trigger] ps[out[i].process as int]).memory is Some
        && (#[trigger] ps[out[j].process as int]).memory is Some
        implies ps[out[i].process as int].memory->0 >= ps[out[j].process as int].memory->0 by {
        assert(!f(out[i], out[j]));
    }
}

/// Sorting by relevance puts the best query rank first.
pub proof fn law_relevance_sort_best_first(ps: Seq<ProcessView>, rows: Seq<RowView>)
    ensures
        ({
            let out = crate::ranking::stable_sort(rows, crate::ranking::row_order_fn(ps, crate::ranking::Sort::Relevance));
            forall|i: int, j: int| 0 <= i < j < out.len() ==> (#[trigger] out[i]).score >= (#[trigger] out[j]).score
        }),
{
    let f = crate::ranking::row_order_fn(ps, crate::ranking::Sort::Relevance);
    lemma_metric_order(ps, crate::ranking::Sort::Relevance);
    crate::ranking::lemma_stable_sort_sorted(rows, f);
    let out = crate::ranking::stable_sort(rows, f);
    assert forall|i: int, j: int| 0 <= i < j < out.len() implies (#[trigger] out[i]).score >= (#[trigger] out[j]).score by {
        assert(!f(out[i], out[j]));
    }
}

/// Sorting by PID puts the lowest PID first.
pub proof fn law_pid_sort_ascending(ps: Seq<ProcessView>, rows: Seq<RowView>)
    ensures
        ({
            let out = crate::ranking::stable_sort(rows, crate::ranking::row_order_fn(ps, crate::ranking::Sort::Pid));
            forall|i: int, j: int| 0 <= i < j < out.len() ==> (#[trigger] ps[out[i].process as int]).identity.pid
                <= (#[trigger] ps[out[j].process as int]).identity.pid
        }),
{
    let f = crate::ranking::row_order_fn(ps, crate::ranking::Sort::Pid);
    lemma_metric_order(ps, crate::ranking::Sort::Pid);
    crate::ranking::lemma_stable_sort_sorted(rows, f);
    let out = crate::ranking::stable_sort(rows, f);
    assert forall|i: int, j: int| 0 <= i < j < out.len() implies (#[trigger] ps[out[i].process as int]).identity.pid
        <= (#[trigger] ps[out[j].process as int]).identity.pid by {
        assert(!f(out[i], out[j]));
    }
}

/// A lock line of fdinfo, `lock: N: KIND MODE ACCESS PID DEV START END`, for a held FLOCK,
/// POSIX or OFDLCK lock taken for READ or WRITE, adds exactly one description
/// `KIND MODE ACCESS bytes START–END`; any other line adds none.
pub proof fn law_held_lock_lines(lines: Seq<Seq<char>>)
    requires
        lines.len() > 0,
    ensures
        ({
            let f = crate::text::words(lines.last());
            let held = f.len() == 9 && f[0] == "lock:"@ && (f[2] == "FLOCK"@ || f[2] == "POSIX"@ || f[2] == "OFDLCK"@)
                && (f[4] == "READ"@ || f[4] == "WRITE"@);
            &&& held ==> crate::linux::lock_descriptions(lines) == crate::linux::lock_descriptions(lines.drop_last()).push(
                f[2] + " "@ + f[3] + " "@ + f[4] + " bytes "@ + f[7] + "–"@ + f[8],
            )
            &&& !held ==> crate::linux::lock_descriptions(lines) == crate::linux::lock_descriptions(lines.drop_last())
        }),
{
    let f = crate::text::words(lines.last());
    assert(seq![f[2] + " "@ + f[3] + " "@ + f[4] + " bytes "@ + f[7] + "–"@ + f[8]] =~= Seq::<Seq<char>>::empty().push(
        f[2] + " "@ + f[3] + " "@ + f[4] + " bytes "@ + f[7] + "–"@ + f[8],
    ));
    assert(crate::linux::lock_descriptions(lines.drop_last()) + Seq::<Seq<char>>::empty() =~= crate::linux::lock_descriptions(
        lines.drop_last(),
    ));
    assert(crate::linux::lock_descriptions(lines.drop_last()) + seq![f[2] + " "@ + f[3] + " "@ + f[4] + " bytes "@ + f[7]
        + "–"@ + f[8]] =~= crate::linux::lock_descriptions(lines.drop_last()).push(
        f[2] + " "@ + f[3] + " "@ + f[4] + " bytes "@ + f[7] + "–"@ + f[8],
    ));
}

/// A socket is a port exactly when it is a TCP listener or a UDP socket with a local port:
/// the port has the socket's protocol, local address and local port; port 0 is never one.
pub proof fn law_local_bindings(socket: crate::sockets::ProtocolSocketInfo)
    ensures
        match socket {
            crate::sockets::ProtocolSocketInfo::Tcp(t) => crate::sockets::binding_of(socket) == if t.state
                == crate::sockets::TcpState::Listen && t.local_port > 0 {
                Some(crate::ports::Port { protocol: crate::ports::Protocol::Tcp, address: t.local_addr, number: t.local_port })
            } else {
                None
            },
            crate::sockets::ProtocolSocketInfo::Udp(u) => crate::sockets::binding_of(socket) == if u.local_port > 0 {
                Some(crate::ports::Port { protocol: crate::ports::Protocol::Udp, address: u.local_addr, number: u.local_port })
            } else {
                None
            },
        },
        crate::sockets::binding_of(socket) matches Some(p) ==> p.number > 0,
{
}

/// Word starts in a field: the first character, a character after a non-alphanumeric one,
/// a non-alphanumeric character, an uppercase letter after a lowercase one (`Json|Web`), and
/// an uppercase letter followed by a lowercase one (`XML|Parser`) all start words.
pub proof fn law_word_starts(
    chars: Seq<char>,
    lower: Seq<char>,
    folded: Seq<char>,
    alnum: Seq<bool>,
    upper: Seq<bool>,
    lowercase: Seq<bool>,
    name: bool,
    i: int,
)
    requires
        alnum.len() == chars.len(),
        upper.len() == chars.len(),
        lowercase.len() == chars.len(),
        0 <= i < chars.len(),
    ensures
        ({
            let b = crate::search::classes_view(chars, lower, folded, alnum, upper, lowercase, name).boundaries;
            &&& b.len() == chars.len()
            &&& i == 0 ==> b[i]
            &&& !alnum[i] ==> b[i]
            &&& i > 0 && !alnum[i - 1] ==> b[i]
            &&& i > 0 && upper[i] && lowercase[i - 1] ==> b[i]
            &&& i + 1 < chars.len() && upper[i] && lowercase[i + 1] ==> b[i]
            &&& i > 0 && alnum[i - 1] && alnum[i] && !upper[i] ==> !b[i]
        }),
{
}

/// Paging moves the cursor of the list in front by a page, back for PageUp and forward for
/// PageDown, within the list.
pub proof fn law_paging(s: AppView)
    ensures
        ({
            let details = s.screen == Screen::Details;
            let len: int = if details { s.usage_rows.len() as int } else { s.rows.len() as int };
            let cur: int = if details { s.usage_cursor as int } else { s.cursor as int };
            let up = crate::state::nav_target(s, KeyCode::PageUp) as int;
            let down = crate::state::nav_target(s, KeyCode::PageDown) as int;
            let back: int = if cur >= s.page { cur - s.page } else { 0 };
            let ahead: int = if cur + s.page <= usize::MAX { cur + s.page } else { usize::MAX as int };
            &&& len == 0 ==> up == 0 && down == 0
            &&& len > 0 ==> up == (if back < len - 1 { back } else { len - 1 })
            &&& len > 0 ==> down == (if ahead < len - 1 { ahead } else { len - 1 })
            &&& cur < len ==> up <= cur && down >= cur
        }),
{
    reveal(crate::state::nav_target);
}

/// Sorting by name puts names in ascending order, ignoring case: of two rows in the sorted
/// table, the earlier one's lowercase name never sorts after the later one's.
pub proof fn law_name_sort_ascending(ps: Seq<ProcessView>, rows: Seq<RowView>)
    ensures
        ({
            let out = crate::ranking::stable_sort(rows, crate::ranking::row_order_fn(ps, crate::ranking::Sort::Name));
            let names = crate::ranking::lowered_names(ps);
            forall|i: int, j: int| 0 <= i < j < out.len() ==> crate::ranking::order_text(
                names[(#[trigger] out[i]).process as int],
                names[(#[trigger] out[j]).process as int],
            ) <= 0
        }),
{
    let f = crate::ranking::row_order_fn(ps, crate::ranking::Sort::Name);
    crate::ranking::lemma_name_order(ps);
    crate::ranking::lemma_stable_sort_sorted(rows, f);
    let out = crate::ranking::stable_sort(rows, f);
    assert forall|i: int, j: int| 0 <= i < j < out.len() implies crate::ranking::order_text(
        crate::ranking::lowered_names(ps)[(#[trigger] out[i]).process as int],
        crate::ranking::lowered_names(ps)[(#[trigger] out[j]).process as int],
    ) <= 0 by {
        assert(!f(out[i], out[j]));
    }
}

/// A link target that ends with ` (deleted)` names the path before that marker, and the
/// marker comes back when it is appended again; a target without it is no candidate.
pub proof fn law_deleted_marker(path: Seq<u8>)
    ensures
        crate::linux::deleted_candidate_view(path) matches Some(p) ==> p + " (deleted)"@.map_values(|c: char| c as u8)
            == path && p.len() + 10 == path.len(),
        crate::linux::deleted_candidate_view(path) is None ==> !crate::text::ends_with(path, " (deleted)"@.map_values(|c: char| c as u8)),
{
    reveal_strlit(" (deleted)");
    let m = " (deleted)"@.map_values(|c: char| c as u8);
    assert(m.len() == 10);
    if crate::text::ends_with(path, m) {
        let p = path.take(path.len() - 10);
        assert(p + m =~= path);
    }
}

/// The access of an open descriptor: an `O_PATH` descriptor is only a reference; otherwise
/// the two access-mode bits say read (0), write (1) or both (2).
pub proof fn law_descriptor_access_modes(flags: u32, o_path: u32)
    ensures
        (flags & o_path) != 0 ==> crate::linux::flags_access(flags, o_path) == crate::model::Access::Reference,
        (flags & o_path) == 0 ==> crate::linux::flags_access(flags, o_path) == (if flags % 4 == 0 {
            crate::model::Access::Read
        } else if flags % 4 == 1 {
            crate::model::Access::Write
        } else if flags % 4 == 2 {
            crate::model::Access::ReadWrite
        } else {
            crate::model::Access::Unknown
        }),
{
    assert(flags & 3 == flags % 4) by (bit_vector);
}

/// The access of a mapping from its `rwxp` permission field: executable when `x` is set;
/// else read and write, read, or write as `r` and `w` are set; else only mapped.
pub proof fn law_mapping_access(perm: Seq<u8>)
    requires
        perm.len() == 4,
        perm[0] == 114 || perm[0] == 45,
        perm[1] == 119 || perm[1] == 45,
        perm[2] == 120 || perm[2] == 45,
        perm[3] == 112 || perm[3] == 115,
    ensures
        crate::linux::perm_access(perm) == (if perm[2] == 120 {
            crate::model::Access::Execute
        } else if perm[0] == 114 && perm[1] == 119 {
            crate::model::Access::ReadWrite
        } else if perm[0] == 114 {
            crate::model::Access::Read
        } else if perm[1] == 119 {
            crate::model::Access::Write
        } else {
            crate::model::Access::Mapped
        }),
{
    if perm[2] == 120 {
        assert(perm.contains(120u8));
    } else {
        assert(!perm.contains(120u8));
    }
}

/// Line moves of the list in front: Up one back, Down one ahead, Home to the first entry
/// and End to the last, always within the list.
pub proof fn law_line_moves(s: AppView)
    requires
        s.rows.len() <= usize::MAX,
        s.usage_rows.len() <= usize::MAX,
    ensures
        ({
            let details = s.screen == Screen::Details;
            let len: int = if details { s.usage_rows.len() as int } else { s.rows.len() as int };
            let cur: int = if details { s.usage_cursor as int } else { s.cursor as int };
            let up = crate::state::nav_target(s, KeyCode::Up) as int;
            let down = crate::state::nav_target(s, KeyCode::Down) as int;
            let home = crate::state::nav_target(s, KeyCode::Home) as int;
            let end = crate::state::nav_target(s, KeyCode::End) as int;
            &&& home == 0
            &&& len == 0 ==> up == 0 && down == 0 && end == 0
            &&& len > 0 ==> end == len - 1
            &&& 0 < cur < len ==> up == cur - 1
            &&& cur == 0 ==> up == 0
            &&& cur + 1 < len ==> down == cur + 1
            &&& len > 0 && cur + 1 >= len ==> down == len - 1
        }),
{
    reveal(crate::state::nav_target);
}

/// A term without wildcards that occurs in a field's lowercase text matches it and ranks at
/// least 60 there (twice that for a name field); a term equal to the whole text ranks 100.
pub proof fn law_substring_terms_match(t: TermView, f: FieldView)
    requires
        t.chunks.len() == 1,
        crate::text::contains_seq(f.lower, t.text),
    ensures
        term_matches(t, f),
        term_score(t, f) >= (if f.name { 120nat } else { 60nat }),
        f.lower == t.text ==> term_score(t, f) == (if f.name { 200nat } else { 100nat }),
{
}

/// A port query with port numbers matches only a binding on exactly those numbers, and
/// never when it was invalid.
pub proof fn law_port_numbers_are_exact(q: crate::ports::PortQueryView, port: crate::ports::Port, fields: Seq<FieldView>)
    ensures
        crate::ports::port_query_matches(q, port, fields) ==> q.valid && forall|i: int| 0 <= i < q.ports.len() ==> #[trigger] q.ports[i]
            == port.number,
        crate::ports::port_query_matches(q, port, fields) ==> query_matches(q.text, fields),
{
}

} // verus!
