//! What the terminal screens show, apart from drawing: the shortcut footer, the split of the
//! screen into regions, which rows of a long list are visible, and short summaries.
use vstd::prelude::*;
use crate::model::{safe, safe_char, Access, Process, UsageView};
use crate::ranking::Sort;
use crate::state::{join_with, ActionTarget, Screen, TargetView};
use crate::text::decimal;
use crate::text::{chars_of, to_string};
use unicode_width::UnicodeWidthStr;

verus! {

/// Display width in terminal columns of a string, as `UnicodeWidthStr::width` measures it.
pub uninterp spec fn text_width(s: Seq<char>) -> usize;

/// Calls `UnicodeWidthStr::width` on the string made of `s`.
#[verifier::external_body]
fn display_width(s: &[char]) -> (r: usize)
    ensures
        r == text_width(s@),
{
    s.iter().collect::<String>().as_str().width()
}

/// Display width in columns of a character, as `UnicodeWidthChar::width` reports it;
/// `None` for control characters.
pub uninterp spec fn char_width(c: char) -> Option<usize>;

/// Calls `UnicodeWidthChar::width`.
#[verifier::external_body]
fn width_of(c: char) -> (r: Option<usize>)
    ensures
        r == char_width(c),
{
    unicode_width::UnicodeWidthChar::width(c)
}

/// Columns taken by characters, a control character taking none.
pub open spec fn columns(cs: Seq<char>) -> nat
    decreases cs.len(),
{
    if cs.len() == 0 {
        0
    } else {
        columns(cs.drop_last()) + match char_width(cs.last()) {
            Some(w) => w as nat,
            None => 0,
        }
    }
}

/// Where the text cursor stands in a search field whose inside is `inner` columns wide:
/// after the two columns of the prompt and the columns of the characters before it, but
/// on the field's last column at most.
pub open spec fn cursor_offset_view(text: Seq<char>, cursor: nat, inner: nat) -> nat {
    least((columns(text.take(least(cursor as int, text.len() as int))) + 2) as int, inner - 1) as nat
}

/// Columns taken by characters of the given widths, a control character taking none.
pub open spec fn width_sum(ws: Seq<Option<usize>>) -> nat
    decreases ws.len(),
{
    if ws.len() == 0 {
        0
    } else {
        width_sum(ws.drop_last()) + match ws.last() {
            Some(w) => w as nat,
            None => 0,
        }
    }
}

/// The cursor position after characters of the given widths, in a field whose inside is
/// `inner` columns wide: two prompt columns, then the characters, at most the last column.
pub fn offset_after(widths: &Vec<Option<usize>>, inner: u16) -> (r: u16)
    requires
        inner > 2,
    ensures
        r as int == least((width_sum(widths@) + 2) as int, inner - 1),
{
    let limit: usize = inner as usize;
    let mut total: usize = 0;
    let mut i: usize = 0;
    while i < widths.len()
        invariant
            i <= widths@.len(),
            limit == inner as nat,
            total <= limit,
            total == least(width_sum(widths@.take(i as int)) as int, limit as int),
        decreases widths@.len() - i,
    {
        assert(widths@.take(i as int + 1).drop_last() =~= widths@.take(i as int));
        assert(widths@.take(i as int + 1).last() == widths@[i as int]);
        let w: usize = match widths[i] {
            Some(w) => w,
            None => 0,
        };
        if w >= limit - total {
            total = limit;
        } else {
            total = total + w;
        }
        i = i + 1;
    }
    assert(widths@.take(widths@.len() as int) =~= widths@);
    let at = total + 2;
    if at <= limit - 1 { at as u16 } else { (limit - 1) as u16 }
}

/// The widths of characters, in order.
pub open spec fn widths_of(cs: Seq<char>) -> Seq<Option<usize>> {
    cs.map_values(|c: char| char_width(c))
}

proof fn lemma_columns_widths(cs: Seq<char>)
    ensures
        columns(cs) == width_sum(widths_of(cs)),
    decreases cs.len(),
{
    if cs.len() > 0 {
        lemma_columns_widths(cs.drop_last());
        assert(widths_of(cs).drop_last() =~= widths_of(cs.drop_last()));
    }
}

/// Where the text cursor stands in a search field.
pub fn cursor_offset(text: &str, cursor: usize, inner: u16) -> (r: u16)
    requires
        inner > 2,
    ensures
        r as nat == cursor_offset_view(text@, cursor as nat, inner as nat),
{
    let chars = chars_of(text);
    let end = if cursor <= chars.len() { cursor } else { chars.len() };
    let mut widths: Vec<Option<usize>> = Vec::new();
    let mut i: usize = 0;
    while i < end
        invariant
            end <= chars@.len(),
            i <= end,
            widths@ == widths_of(chars@.take(i as int)),
        decreases end - i,
    {
        widths.push(width_of(chars[i]));
        assert(widths_of(chars@.take(i as int + 1)) =~= widths_of(chars@.take(i as int)).push(char_width(chars@[i as int])));
        i = i + 1;
    }
    assert(text@.take(least(cursor as int, text@.len() as int)) == chars@.take(end as int));
    proof {
        lemma_columns_widths(chars@.take(end as int));
    }
    offset_after(&widths, inner)
}

/// How a line of text is styled.
#[derive(Clone, Copy, Debug, PartialEq, Eq, Structural)]
pub enum Tone {
    /// Default colours.
    Plain,
    /// The accent colour, bold.
    Accent,
    /// Dimmed.
    Muted,
    /// The warning colour.
    Alert,
    /// The warning colour, bold.
    Heading,
    /// The two buttons of the termination review.
    Buttons,
}

/// A line of text with its style.
#[derive(Debug)]
pub struct Styled {
    pub tone: Tone,
    pub text: String,
}

/// The abstract content of a styled line.
pub struct StyledView {
    pub tone: Tone,
    pub text: Seq<char>,
}

impl View for Styled {
    type V = StyledView;

    open spec fn view(&self) -> StyledView {
        StyledView { tone: self.tone, text: self.text@ }
    }
}

/// The views of styled lines.
pub open spec fn lines_view(ls: Seq<Styled>) -> Seq<StyledView> {
    ls.map_values(|l: Styled| l@)
}

/// A line of `n` horizontal rule characters.
pub open spec fn rule(n: nat) -> Seq<char> {
    Seq::new(n, |i: int| '─')
}

/// Separator between shortcut phrases.
pub open spec fn hint_sep() -> Seq<char> {
    " · "@
}

/// The row being filled with one more phrase, after a separator unless the row is empty.
pub open spec fn joined(row: Seq<char>, hint: Seq<char>) -> Seq<char> {
    row + (if row.len() == 0 { Seq::<char>::empty() } else { hint_sep() }) + hint
}

/// One step of wrapping when the row grown by the phrase measures `measured` columns: a
/// phrase that would make a non-empty row wider than `width` starts a new row.
pub open spec fn place_view(state: (Seq<Seq<char>>, Seq<char>), hint: Seq<char>, measured: nat, width: nat) -> (Seq<Seq<char>>, Seq<char>) {
    if measured > width && state.1.len() > 0 {
        (state.0.push(state.1), hint)
    } else {
        (state.0, joined(state.1, hint))
    }
}

/// One step of wrapping: the finished rows and the row being filled, after one more phrase.
pub open spec fn wrap_step(state: (Seq<Seq<char>>, Seq<char>), hint: Seq<char>, width: nat) -> (Seq<Seq<char>>, Seq<char>) {
    place_view(state, hint, text_width(joined(state.1, hint)) as nat, width)
}

/// The row grown by one more phrase.
pub fn joined_row(row: &Vec<char>, hint: &Vec<char>) -> (r: Vec<char>)
    ensures
        r@ == joined(row@, hint@),
{
    let sep = chars_of(" · ");
    let mut candidate: Vec<char> = row.clone();
    if row.len() > 0 {
        let mut k: usize = 0;
        while k < sep.len()
            invariant
                k <= sep@.len(),
                candidate@ == row@ + sep@.take(k as int),
            decreases sep@.len() - k,
        {
            candidate.push(sep[k]);
            assert(sep@.take(k as int + 1) =~= sep@.take(k as int).push(sep@[k as int]));
            k = k + 1;
        }
        assert(sep@.take(sep@.len() as int) =~= sep@);
    } else {
        assert(candidate@ =~= row@ + Seq::<char>::empty());
    }
    let ghost front = candidate@;
    let mut k: usize = 0;
    while k < hint.len()
        invariant
            k <= hint@.len(),
            candidate@ == front + hint@.take(k as int),
        decreases hint@.len() - k,
    {
        candidate.push(hint[k]);
        assert(hint@.take(k as int + 1) =~= hint@.take(k as int).push(hint@[k as int]));
        k = k + 1;
    }
    assert(hint@.take(hint@.len() as int) =~= hint@);
    candidate
}

/// Place one more phrase, given the width the grown row measures.
pub fn place_hint(rows: &mut Vec<String>, row: &mut Vec<char>, hint: Vec<char>, measured: usize, width: u16)
    ensures
        (final(rows)@.map_values(|s: String| s@), final(row)@) == place_view(
            (old(rows)@.map_values(|s: String| s@), old(row)@),
            hint@,
            measured as nat,
            width as nat,
        ),
{
    if measured > width as usize && row.len() > 0 {
        let ghost before = rows@.map_values(|s: String| s@);
        rows.push(to_string(row.as_slice()));
        assert(rows@.map_values(|s: String| s@) =~= before.push(old(row)@));
        *row = hint;
    } else {
        let grown = joined_row(row, &hint);
        *row = grown;
    }
}

/// The state of wrapping after all of `hints`.
pub open spec fn wrap_state(hints: Seq<Seq<char>>, width: nat) -> (Seq<Seq<char>>, Seq<char>)
    decreases hints.len(),
{
    if hints.len() == 0 {
        (Seq::empty(), Seq::empty())
    } else {
        wrap_step(wrap_state(hints.drop_last(), width), hints.last(), width)
    }
}

/// Shortcut phrases wrapped into rows of at most `width` columns, whole phrases only.
pub open spec fn wrap_view(hints: Seq<Seq<char>>, width: nat) -> Seq<Seq<char>> {
    let state = wrap_state(hints, width);
    if state.1.len() == 0 {
        state.0
    } else {
        state.0.push(state.1)
    }
}

/// Wrap shortcut phrases into rows, joined by ` · ` and no wider than `width` unless a
/// phrase alone is wider.
pub fn wrap_hints(hints: &Vec<&'static str>, width: u16) -> (r: Vec<String>)
    ensures
        r@.map_values(|s: String| s@) == wrap_view(hints@.map_values(|h: &'static str| h@), width as nat),
{
    let ghost hs = hints@.map_values(|h: &'static str| h@);
    let mut rows: Vec<String> = Vec::new();
    let mut row: Vec<char> = Vec::new();
    let mut i: usize = 0;
    while i < hints.len()
        invariant
            i <= hints@.len(),
            hs == hints@.map_values(|h: &'static str| h@),
            (rows@.map_values(|s: String| s@), row@) == wrap_state(hs.take(i as int), width as nat),
        decreases hints@.len() - i,
    {
        let hint = chars_of(hints[i]);
        assert(hs.take(i as int + 1).drop_last() =~= hs.take(i as int));
        assert(hs.take(i as int + 1).last() == hint@);
        let candidate = joined_row(&row, &hint);
        let measured = display_width(&candidate);
        place_hint(&mut rows, &mut row, hint, measured, width);
        i = i + 1;
    }
    assert(hs.take(hints@.len() as int) =~= hs);
    if row.len() > 0 {
        let ghost before = rows@.map_values(|s: String| s@);
        rows.push(to_string(&row));
        assert(rows@.map_values(|s: String| s@) =~= before.push(row@));
    }
    rows
}

/// Rows that wrapping gives either fit the width or hold a single phrase.
proof fn lemma_wrap_state_fits(hs: Seq<Seq<char>>, width: nat)
    ensures
        forall|k: int| 0 <= k < wrap_state(hs, width).0.len() ==> text_width(#[trigger] wrap_state(hs, width).0[k]) <= width || hs.contains(wrap_state(hs, width).0[k]),
        wrap_state(hs, width).1.len() > 0 ==> text_width(wrap_state(hs, width).1) <= width || hs.contains(wrap_state(hs, width).1),
    decreases hs.len(),
{
    if hs.len() > 0 {
        let prev = hs.drop_last();
        lemma_wrap_state_fits(prev, width);
        let st = wrap_state(prev, width);
        let h = hs.last();
        assert(hs.contains(h)) by {
            assert(hs[hs.len() - 1] == h);
        }
        assert forall|r: Seq<char>| prev.contains(r) implies hs.contains(r) by {
            let j = choose|j: int| 0 <= j < prev.len() && prev[j] == r;
            assert(hs[j] == r);
        }
        if st.1.len() == 0 {
            assert(st.1 + Seq::<char>::empty() + h =~= h);
        }
    }
}

/// Rows of wrapped phrases either fit the width or hold one phrase that alone is wider.
pub proof fn law_wrapped_rows_fit(hs: Seq<Seq<char>>, width: nat)
    ensures
        forall|k: int| 0 <= k < wrap_view(hs, width).len() ==> text_width(#[trigger] wrap_view(hs, width)[k]) <= width || hs.contains(wrap_view(hs, width)[k]),
{
    lemma_wrap_state_fits(hs, width);
}

/// While no phrase is empty, the row being filled is empty only before the first phrase.
proof fn lemma_wrap_state_joins(hs: Seq<Seq<char>>, width: nat)
    requires
        forall|k: int| 0 <= k < hs.len() ==> (#[trigger] hs[k]).len() > 0,
    ensures
        (wrap_state(hs, width).1.len() == 0) == (hs.len() == 0),
        hs.len() == 0 ==> wrap_state(hs, width).0.len() == 0,
        join_with(wrap_view(hs, width), hint_sep()) == join_with(hs, hint_sep()),
    decreases hs.len(),
{
    if hs.len() > 0 {
        let prev = hs.drop_last();
        lemma_wrap_state_joins(prev, width);
        let st = wrap_state(prev, width);
        let h = hs.last();
        let rows = st.0;
        let row = st.1;
        let sep = hint_sep();
        assert(h == hs[hs.len() - 1]);
        if row.len() == 0 {
            assert(row + Seq::<char>::empty() + h =~= h);
            assert(wrap_view(hs, width) =~= seq![h]);
            assert(prev.len() == 0);
            assert(hs =~= seq![h]);
        } else if text_width(row + sep + h) > width {
            let done = rows.push(row);
            assert(wrap_view(hs, width) =~= done.push(h));
            assert(done.push(h).drop_last() =~= done);
            assert(wrap_view(prev, width) =~= done);
        } else {
            let grown = row + sep + h;
            assert(wrap_view(hs, width) =~= rows.push(grown));
            assert(wrap_view(prev, width) =~= rows.push(row));
            assert(rows.push(grown).drop_last() =~= rows);
            assert(rows.push(row).drop_last() =~= rows);
            if rows.len() == 0 {
                assert(join_with(rows.push(row), sep) == row);
                assert(join_with(rows.push(grown), sep) == grown);
            } else {
                assert(join_with(rows.push(grown), sep) =~= join_with(rows, sep) + sep + row + sep + h);
            }
        }
    }
}

/// Wrapping keeps every phrase, whole and in order: joined again with ` · `, the rows give the
/// phrases joined with ` · `, as long as no phrase is empty.
pub proof fn law_wrapping_keeps_phrases(hs: Seq<Seq<char>>, width: nat)
    requires
        forall|k: int| 0 <= k < hs.len() ==> (#[trigger] hs[k]).len() > 0,
    ensures
        join_with(wrap_view(hs, width), hint_sep()) == join_with(hs, hint_sep()),
{
    lemma_wrap_state_joins(hs, width);
}


/// The shortcut phrases the footer offers on a screen, shorter lists below 60 columns.
pub open spec fn footer_hints_view(screen: Screen, tree_open: bool, width: nat) -> Seq<Seq<char>> {
    if width < 60 && screen == Screen::Main && !tree_open {
        seq!["1/2 tabs"@, "/ search"@, "Enter inspect"@, "k stop"@, "x force"@, "? help"@, "R GitHub"@, "D Donate"@, "q quit"@]
    } else if width < 60 && screen == Screen::Details {
        seq!["↑↓ select"@, "/ search"@, "l locks"@, "r refresh"@, "R GitHub"@, "D Donate"@, "Esc back"@]
    } else {
        match screen {
            Screen::Confirm => seq!["Tab / ←→ choose"@, "Enter confirm"@, "Esc cancel"@],
            Screen::Details => seq![
                "/ search"@, "l locks only"@, "↑↓ select"@, "←→ path"@, "r refresh"@, "a auto"@, "k stop"@,
                "x force"@, "R GitHub"@, "D Donate"@, "Esc back"@
            ],
            Screen::Help => seq!["↑↓ scroll"@, "R GitHub"@, "D Donate"@, "Esc back"@],
            Screen::Main => if tree_open {
                seq!["↑↓ process"@, "k stop target"@, "x force kill target"@, "Tab/← back"@]
            } else {
                seq![
                    "1/2 tabs"@, "/ search"@, "↑↓ move"@, "Enter inspect"@, "Space select"@, "Ctrl+A all"@,
                    "Tab/→ tree"@, "i panel"@, "m/c RAM/CPU"@, "a auto"@, "r refresh"@, "k stop"@, "x force"@,
                    "? help"@, "R GitHub"@, "D Donate"@, "q quit"@
                ]
            },
        }
    }
}

/// The phrases of a list, in order.
fn phrases(list: &[&'static str]) -> (r: Vec<&'static str>)
    ensures
        r@ == list@,
{
    let mut out: Vec<&'static str> = Vec::new();
    let mut i: usize = 0;
    while i < list.len()
        invariant
            i <= list@.len(),
            out@ == list@.take(i as int),
        decreases list@.len() - i,
    {
        out.push(list[i]);
        assert(list@.take(i as int + 1) =~= list@.take(i as int).push(list@[i as int]));
        i = i + 1;
    }
    assert(list@.take(list@.len() as int) =~= list@);
    out
}

/// The shortcut phrases the footer offers.
pub fn footer_hints(screen: Screen, tree_open: bool, width: u16) -> (r: Vec<&'static str>)
    ensures
        r@.map_values(|h: &'static str| h@) == footer_hints_view(screen, tree_open, width as nat),
{
    let r = if width < 60 && screen == Screen::Main && !tree_open {
        phrases(&["1/2 tabs", "/ search", "Enter inspect", "k stop", "x force", "? help", "R GitHub", "D Donate", "q quit"])
    } else if width < 60 && screen == Screen::Details {
        phrases(&["↑↓ select", "/ search", "l locks", "r refresh", "R GitHub", "D Donate", "Esc back"])
    } else {
        match screen {
            Screen::Confirm => phrases(&["Tab / ←→ choose", "Enter confirm", "Esc cancel"]),
            Screen::Details => phrases(&[
                "/ search", "l locks only", "↑↓ select", "←→ path", "r refresh", "a auto", "k stop",
                "x force", "R GitHub", "D Donate", "Esc back",
            ]),
            Screen::Help => phrases(&["↑↓ scroll", "R GitHub", "D Donate", "Esc back"]),
            Screen::Main => if tree_open {
                phrases(&["↑↓ process", "k stop target", "x force kill target", "Tab/← back"])
            } else {
                phrases(&[
                    "1/2 tabs", "/ search", "↑↓ move", "Enter inspect", "Space select", "Ctrl+A all",
                    "Tab/→ tree", "i panel", "m/c RAM/CPU", "a auto", "r refresh", "k stop", "x force",
                    "? help", "R GitHub", "D Donate", "q quit",
                ])
            },
        }
    };
    assert(r@.map_values(|h: &'static str| h@) =~= footer_hints_view(screen, tree_open, width as nat));
    r
}


/// The Cancel button of the review, with a pointer when it is focused.
pub open spec fn cancel_button(confirm: bool) -> Seq<char> {
    (if confirm { " "@ } else { "▶"@ }) + " Cancel "@
}

/// The confirming button of the review: "Force kill" or "Terminate", with a pointer when it
/// is focused.
pub open spec fn confirm_button(confirm: bool, force: bool) -> Seq<char> {
    (if confirm { "▶"@ } else { " "@ }) + " "@ + (if force { "Force kill"@ } else { "Terminate"@ }) + " "@
}

/// The review's buttons as one line: Cancel, a gap of three, then the confirming button.
pub open spec fn buttons_view(confirm: bool, force: bool) -> Seq<char> {
    cancel_button(confirm) + "   "@ + confirm_button(confirm, force)
}

/// The review's two buttons: Cancel, focused unless the confirmation is, and the confirming
/// button, "Force kill" when the review asks for force, else "Terminate".
pub fn confirmation_buttons(confirm: bool, force: bool) -> (r: (String, String))
    ensures
        r.0@ == cancel_button(confirm),
        r.1@ == confirm_button(confirm, force),
{
    let mut cancel = String::from_str(if confirm { " " } else { "▶" });
    cancel.append(" Cancel ");
    let mut ok = String::from_str(if confirm { "▶" } else { " " });
    ok.append(" ");
    ok.append(if force { "Force kill" } else { "Terminate" });
    ok.append(" ");
    (cancel, ok)
}

/// The line under the phrases on the process table without ancestry.
pub open spec fn table_tip() -> Seq<char> {
    "Enter inspect · Space select · m RAM / c CPU / n name / p PID"@
}

/// The footer while a query is edited.
pub open spec fn editing_tip() -> Seq<char> {
    "Enter apply · Esc cancel · ↑↓ browse"@
}

/// The footer: the status (or a tip on the process table), a note when the scan reported
/// warnings, a rule, the review's buttons, then the wrapped shortcut phrases; while a query
/// is edited, only how to finish editing.
pub open spec fn footer_view(
    width: nat,
    screen: Screen,
    tree_open: bool,
    editing: bool,
    status: Seq<char>,
    error: bool,
    warned: bool,
    confirm: bool,
    force: bool,
) -> Seq<StyledView> {
    if editing {
        seq![StyledView { tone: Tone::Accent, text: editing_tip() }]
    } else {
        let head = if status.len() > 0 {
            seq![StyledView { tone: if error { Tone::Alert } else { Tone::Muted }, text: status.map_values(|c: char| safe_char(c)) }]
        } else if screen == Screen::Main && !tree_open {
            seq![StyledView { tone: Tone::Muted, text: table_tip() }]
        } else {
            Seq::empty()
        };
        let note = if warned && screen != Screen::Help {
            seq![StyledView { tone: Tone::Muted, text: "Results may be incomplete · ? details"@ }]
        } else {
            Seq::empty()
        };
        let buttons = if screen == Screen::Confirm {
            seq![StyledView { tone: Tone::Buttons, text: buttons_view(confirm, force) }]
        } else {
            Seq::empty()
        };
        head + note + seq![StyledView { tone: Tone::Muted, text: rule(width) }] + buttons + wrap_view(
            footer_hints_view(screen, tree_open, width),
            width,
        ).map_values(|r: Seq<char>| StyledView { tone: Tone::Accent, text: r })
    }
}

/// A rule of `n` characters.
pub(crate) fn rule_of(n: u16) -> (r: String)
    ensures
        r@ == rule(n as nat),
{
    let mut out: Vec<char> = Vec::new();
    let mut i: u16 = 0;
    while i < n
        invariant
            i <= n,
            out@ == rule(i as nat),
        decreases n - i,
    {
        out.push('─');
        assert(out@ =~= rule(i as nat + 1));
        i = i + 1;
    }
    to_string(&out)
}

/// A styled line.
pub(crate) fn styled(tone: Tone, text: &str) -> (r: Styled)
    ensures
        r@ == (StyledView { tone, text: text@ }),
{
    Styled { tone, text: String::from_str(text) }
}


/// `a - b`, or zero.
pub open spec fn minus(a: int, b: int) -> nat {
    if a >= b { (a - b) as nat } else { 0 }
}

/// The smaller of two numbers.
pub open spec fn least(a: int, b: int) -> int {
    if a <= b { a } else { b }
}

/// The larger of two numbers.
pub open spec fn most(a: int, b: int) -> int {
    if a >= b { a } else { b }
}

/// The first visible row of a list of `len` rows seen `count` at a time: the cursor is kept
/// on the last visible row once it passes it, and the window never runs past the end.
pub open spec fn window_start_view(cursor: nat, len: nat, count: nat) -> nat {
    least(minus(cursor as int, count - 1) as int, minus(len as int, count as int) as int) as nat
}

/// The first visible row of a list of `len` rows seen `count` at a time.
pub fn window_start(cursor: usize, len: usize, count: usize) -> (r: usize)
    requires
        count >= 1,
    ensures
        r == window_start_view(cursor as nat, len as nat, count as nat),
{
    let a = cursor.saturating_sub(count - 1);
    let b = len.saturating_sub(count);
    if a <= b { a } else { b }
}

/// The visible window holds the cursor, whenever the cursor is on a row.
pub proof fn law_window_shows_cursor(cursor: nat, len: nat, count: nat)
    requires
        count >= 1,
        cursor < len,
    ensures
        window_start_view(cursor, len, count) <= cursor < window_start_view(cursor, len, count) + count,
{
}

/// The left margin and the usable width of a terminal `full` columns wide.
pub open spec fn margin_view(full: nat) -> (nat, nat) {
    let margin: nat = if full >= 10 { 2 } else { 0 };
    (margin, minus(full as int, 2 * margin as int))
}

/// The left margin and the usable width of a terminal `full` columns wide.
pub fn margin(full: u16) -> (r: (u16, u16))
    ensures
        (r.0 as nat, r.1 as nat) == margin_view(full as nat),
{
    let m: u16 = if full >= 10 { 2 } else { 0 };
    (m, full.saturating_sub(m * 2))
}

/// Below this size the interface shows only a short summary.
pub open spec fn too_small_view(width: nat, height: nat) -> bool {
    height < 12 || width < 20
}

/// Whether an area is too small for the full interface.
pub fn too_small(width: u16, height: u16) -> (r: bool)
    ensures
        r == too_small_view(width as nat, height as nat),
{
    height < 12 || width < 20
}

/// How the process table screen is divided: footer height, height of the body under the
/// seven header lines, rows per page, width of the side panel and of the table.
#[derive(Clone, Copy, Debug, PartialEq, Eq)]
pub struct MainLayout {
    pub footer: u16,
    pub body: u16,
    pub page: usize,
    pub panel: u16,
    pub table: u16,
}

/// The division of the process table screen: the footer takes its lines but leaves nine;
/// the side panel shows with the ancestry (the whole width below 116 columns) or, unless
/// hidden, on a screen of at least 116 by 22, a third of the width up to 46 columns; the table
/// takes the rest after a gap of three.
pub open spec fn main_layout_view(width: nat, height: nat, footer_len: nat, tree_open: bool, hide_inspector: bool) -> MainLayout {
    let footer = least(footer_len as int, minus(height as int, 9) as int) as nat;
    let body = minus(height as int, (7 + footer) as int);
    let show = tree_open || (!hide_inspector && width >= 116 && height >= 22);
    let panel: nat = if show {
        if tree_open && width < 116 { width } else { least(46, width as int / 3) as nat }
    } else {
        0
    };
    let table: nat = if panel == width {
        0
    } else {
        minus(width as int, if panel > 0 { (panel + 3) as int } else { 0 })
    };
    MainLayout {
        footer: footer as u16,
        body: body as u16,
        page: most(minus(body as int, 1) as int, 1) as usize,
        panel: panel as u16,
        table: table as u16,
    }
}

/// The division of the process table screen.
pub fn main_layout(width: u16, height: u16, footer_len: usize, tree_open: bool, hide_inspector: bool) -> (r: MainLayout)
    ensures
        r == main_layout_view(width as nat, height as nat, footer_len as nat, tree_open, hide_inspector),
{
    let room = height.saturating_sub(9);
    let footer: u16 = if footer_len < room as usize { footer_len as u16 } else { room };
    let body = height.saturating_sub(7 + footer);
    let below = body.saturating_sub(1);
    let page: usize = if below >= 1 { below as usize } else { 1 };
    let show = tree_open || (!hide_inspector && width >= 116 && height >= 22);
    let panel: u16 = if show {
        if tree_open && width < 116 {
            width
        } else if 46 <= width / 3 {
            46
        } else {
            width / 3
        }
    } else {
        0
    };
    let table: u16 = if panel == width {
        0
    } else {
        width.saturating_sub(if panel > 0 { panel + 3 } else { 0 })
    };
    MainLayout { footer, body, page, panel, table }
}

/// The table and the side panel, with the gap between them, fit the width, and the header,
/// body and footer fit the height of a screen at least seven lines high.
pub proof fn law_main_layout_fits(width: nat, height: nat, footer_len: nat, tree_open: bool, hide_inspector: bool)
    requires
        width <= u16::MAX,
        height <= u16::MAX,
    ensures
        ({
            let l = main_layout_view(width, height, footer_len, tree_open, hide_inspector);
            &&& l.panel + l.table + (if l.panel > 0 && l.table > 0 { 3int } else { 0 }) <= width
            &&& height >= 7 ==> 7 + l.body + l.footer <= height
            &&& l.page >= 1
        }),
{
}

/// How the details screen is divided: header height, compact header, footer height, height
/// of the usage table, rows per page, and whether the table has all its columns.
#[derive(Clone, Copy, Debug, PartialEq, Eq)]
pub struct DetailsLayout {
    pub head: u16,
    pub compact: bool,
    pub footer: u16,
    pub body: u16,
    pub page: usize,
    pub wide: bool,
}

/// The division of the details screen: a compact header of three lines below 24 lines, else
/// six; the footer leaves nine lines; the usage table takes what the header, search field,
/// two summary lines and the path preview leave; two of its lines are borders and header.
pub open spec fn details_layout_view(width: nat, height: nat, footer_len: nat) -> DetailsLayout {
    let compact = height < 24;
    let head: nat = if compact { 3 } else { 6 };
    let footer = least(footer_len as int, minus(height as int, 9) as int) as nat;
    let body = minus(height as int, (head + 8 + footer) as int);
    DetailsLayout {
        head: head as u16,
        compact,
        footer: footer as u16,
        body: body as u16,
        page: most(minus(body as int, 2) as int, 1) as usize,
        wide: width >= 65,
    }
}

/// The division of the details screen.
pub fn details_layout(width: u16, height: u16, footer_len: usize) -> (r: DetailsLayout)
    ensures
        r == details_layout_view(width as nat, height as nat, footer_len as nat),
{
    let compact = height < 24;
    let head: u16 = if compact { 3 } else { 6 };
    let room = height.saturating_sub(9);
    let footer: u16 = if footer_len < room as usize { footer_len as u16 } else { room };
    let taken: u32 = head as u32 + 8 + footer as u32;
    let body: u16 = if taken <= height as u32 { (height as u32 - taken) as u16 } else { 0 };
    let below = body.saturating_sub(2);
    let page: usize = if below >= 1 { below as usize } else { 1 };
    DetailsLayout { head, compact, footer, body, page, wide: width >= 65 }
}

/// How a dialog is divided: footer height, height of the scrolled text, and lines per page.
#[derive(Clone, Copy, Debug, PartialEq, Eq)]
pub struct DialogLayout {
    pub footer: u16,
    pub body: u16,
    pub page: usize,
}

/// The division of a dialog: the footer, then the text under a title and a blank line.
pub open spec fn dialog_layout_view(height: nat, footer_len: nat) -> DialogLayout {
    let footer = least(footer_len as int, height as int) as nat;
    let body = minus(height as int, (footer + 2) as int);
    DialogLayout { footer: footer as u16, body: body as u16, page: most(body as int, 1) as usize }
}

/// The division of a dialog.
pub fn dialog_layout(height: u16, footer_len: usize) -> (r: DialogLayout)
    ensures
        r == dialog_layout_view(height as nat, footer_len as nat),
{
    let footer: u16 = if footer_len < height as usize { footer_len as u16 } else { height };
    let body: u16 = if footer as u32 + 2 <= height as u32 { height - footer - 2 } else { 0 };
    let page: usize = if body >= 1 { body as usize } else { 1 };
    DialogLayout { footer, body, page }
}

/// The nodes of an ancestry that the side panel lists: from the first that keeps the cursor
/// in view, `count - 1` of them, and always the last one, the process itself.
pub open spec fn ancestry_rows_view(cursor: nat, len: nat, count: nat) -> Seq<usize> {
    let start = minus(cursor as int, minus(count as int, 2) as int);
    let shown = least(minus(len as int, start as int) as int, count - 1) as nat;
    let listed = Seq::new(shown, |i: int| (start + i) as usize);
    if start <= len - 1 && len - 1 < start + shown {
        listed
    } else {
        listed.push((len - 1) as usize)
    }
}

/// The nodes of an ancestry that the side panel lists.
pub fn ancestry_rows(cursor: usize, len: usize, count: usize) -> (r: Vec<usize>)
    requires
        len >= 1,
        count >= 1,
    ensures
        r@ == ancestry_rows_view(cursor as nat, len as nat, count as nat),
{
    let start = cursor.saturating_sub(count.saturating_sub(2));
    let room = len.saturating_sub(start);
    let shown = if room <= count - 1 { room } else { count - 1 };
    let ghost want = Seq::new(shown as nat, |i: int| (start + i) as usize);
    let mut out: Vec<usize> = Vec::new();
    let mut i: usize = 0;
    while i < shown
        invariant
            i <= shown,
            shown <= room,
            start + room <= usize::MAX,
            want == Seq::new(shown as nat, |i: int| (start + i) as usize),
            out@ == want.take(i as int),
        decreases shown - i,
    {
        out.push(start + i);
        assert(out@ =~= want.take(i as int + 1));
        i = i + 1;
    }
    assert(want.take(shown as int) =~= want);
    if !(start <= len - 1 && len - 1 < start + shown) {
        out.push(len - 1);
    }
    out
}

/// The side panel always lists the process itself, and the ancestry cursor when it is on a
/// node; the nodes it lists are in order and exist.
pub proof fn law_ancestry_rows_show_cursor(cursor: nat, len: nat, count: nat)
    requires
        len >= 1,
        count >= 2,
        len <= usize::MAX,
    ensures
        ({
            let r = ancestry_rows_view(cursor, len, count);
            &&& r.contains((len - 1) as usize)
            &&& cursor < len ==> r.contains(cursor as usize)
            &&& forall|i: int| 0 <= i < r.len() ==> r[i] < len
            &&& forall|i: int, j: int| 0 <= i < j < r.len() ==> r[i] < r[j]
        }),
{
    let r = ancestry_rows_view(cursor, len, count);
    let start = minus(cursor as int, minus(count as int, 2) as int);
    let shown = least(minus(len as int, start as int) as int, count - 1) as nat;
    let listed = Seq::new(shown, |i: int| (start + i) as usize);
    if start <= len - 1 && len - 1 < start + shown {
        assert(r[len - 1 - start] == (len - 1) as usize);
    } else {
        assert(r[r.len() - 1] == (len - 1) as usize);
    }
    if cursor < len {
        assert(r[cursor - start] == cursor as usize);
    }
}

/// Where the preview of a long path starts: the chosen page of `width` characters, but not
/// past the page that holds the last character.
pub open spec fn preview_start_view(path_page: nat, len: nat, width: nat) -> nat {
    let page_width = most(width as int, 1) as nat;
    (least(path_page as int, minus(len as int, 1) as int / page_width as int) * page_width) as nat
}

/// Where the preview of a long path starts.
pub fn preview_start(path_page: usize, len: usize, width: u16) -> (r: usize)
    ensures
        r == preview_start_view(path_page as nat, len as nat, width as nat),
        len > 0 ==> r < len,
{
    let page_width: usize = if width >= 1 { width as usize } else { 1 };
    let last_page = len.saturating_sub(1) / page_width;
    let page = if path_page <= last_page { path_page } else { last_page };
    assert(page * page_width <= last_page * page_width) by (nonlinear_arith)
        requires page <= last_page, page_width >= 1;
    assert(last_page * page_width <= len.saturating_sub(1)) by (nonlinear_arith)
        requires last_page == len.saturating_sub(1) / page_width, page_width >= 1;
    page * page_width
}


/// The access that summarizes some usages of a process: read and write together, write,
/// read, else that of the first usage (unknown when there is none).
pub open spec fn process_access_view(accesses: Seq<Access>) -> Access {
    let read = exists|i: int| 0 <= i < accesses.len() && (accesses[i] == Access::Read || accesses[i] == Access::ReadWrite);
    let write = exists|i: int| 0 <= i < accesses.len() && (accesses[i] == Access::Write || accesses[i] == Access::ReadWrite);
    if read && write {
        Access::ReadWrite
    } else if write {
        Access::Write
    } else if read {
        Access::Read
    } else if accesses.len() == 0 {
        Access::Unknown
    } else {
        accesses[0]
    }
}

/// The accesses of the usages at `indices`.
pub open spec fn accesses_at(usages: Seq<UsageView>, indices: Seq<usize>) -> Seq<Access> {
    indices.map_values(|i: usize| usages[i as int].access)
}

/// The access that summarizes the usages of `process` at `indices`.
pub fn process_access(process: &Process, indices: &[usize]) -> (r: Access)
    requires
        forall|k: int| 0 <= k < indices@.len() ==> (#[trigger] indices@[k]) < process.usages@.len(),
    ensures
        r == process_access_view(accesses_at(process@.usages, indices@)),
{
    let ghost a = accesses_at(process@.usages, indices@);
    let mut read = false;
    let mut write = false;
    let mut i: usize = 0;
    while i < indices.len()
        invariant
            i <= indices@.len(),
            a == accesses_at(process@.usages, indices@),
            forall|k: int| 0 <= k < indices@.len() ==> (#[trigger] indices@[k]) < process.usages@.len(),
            read == exists|k: int| 0 <= k < i && (a[k] == Access::Read || a[k] == Access::ReadWrite),
            write == exists|k: int| 0 <= k < i && (a[k] == Access::Write || a[k] == Access::ReadWrite),
        decreases indices@.len() - i,
    {
        let access = process.usages[indices[i]].access;
        assert(a[i as int] == access);
        match access {
            Access::Read => {
                read = true;
            },
            Access::Write => {
                write = true;
            },
            Access::ReadWrite => {
                read = true;
                write = true;
            },
            _ => {},
        }
        i = i + 1;
    }
    if read && write {
        Access::ReadWrite
    } else if write {
        Access::Write
    } else if read {
        Access::Read
    } else if indices.len() == 0 {
        Access::Unknown
    } else {
        assert(a[0] == process@.usages[indices@[0] as int].access);
        process.usages[indices[0]].access
    }
}

/// How many different byte strings there are among `items`.
pub fn distinct_count(items: &Vec<Vec<u8>>) -> (r: usize)
    ensures
        r == items@.map_values(|v: Vec<u8>| v@).to_set().len(),
{
    let ghost all = items@.map_values(|v: Vec<u8>| v@);
    let mut seen: Vec<Vec<u8>> = Vec::new();
    let mut i: usize = 0;
    while i < items.len()
        invariant
            i <= items@.len(),
            all == items@.map_values(|v: Vec<u8>| v@),
            seen@.map_values(|v: Vec<u8>| v@).no_duplicates(),
            seen@.map_values(|v: Vec<u8>| v@).to_set() == all.take(i as int).to_set(),
            seen@.len() <= i,
        decreases items@.len() - i,
    {
        let ghost sv = seen@.map_values(|v: Vec<u8>| v@);
        let mut found = false;
        let mut j: usize = 0;
        while j < seen.len()
            invariant
                j <= seen@.len(),
                sv == seen@.map_values(|v: Vec<u8>| v@),
                i < items@.len(),
                found == exists|k: int| 0 <= k < j && sv[k] == items@[i as int]@,
            decreases seen@.len() - j,
        {
            if seen[j].len() == items[i].len() && crate::text::bytes_occur_at(&seen[j], &items[i], 0) {
                assert(seen@[j as int]@.subrange(0, items@[i as int]@.len() as int) =~= seen@[j as int]@);
                assert(sv[j as int] == items@[i as int]@);
                found = true;
            } else {
                assert(sv[j as int] != items@[i as int]@ || seen@[j as int]@.len() == items@[i as int]@.len());
                if seen[j].len() == items[i].len() {
                    assert(seen@[j as int]@.subrange(0, items@[i as int]@.len() as int) =~= seen@[j as int]@);
                }
            }
            j = j + 1;
        }
        assert(all.take(i as int + 1) =~= all.take(i as int).push(all[i as int]));
        proof {
            all.take(i as int).lemma_push_to_set_commute(all[i as int]);
        }
        if found {
            assert(sv.to_set().contains(all[i as int]));
            assert(sv.to_set().insert(all[i as int]) =~= sv.to_set());
        } else {
            seen.push(crate::model::copy_bytes(&items[i]));
            let ghost nv = seen@.map_values(|v: Vec<u8>| v@);
            assert(nv =~= sv.push(all[i as int]));
            proof {
                sv.lemma_push_to_set_commute(all[i as int]);
            }
            assert forall|a: int, b: int| 0 <= a < b < nv.len() implies nv[a] != nv[b] by {
                if b == sv.len() {
                    assert(nv[a] == sv[a]);
                }
            }
        }
        i = i + 1;
    }
    assert(all.take(items@.len() as int) =~= all);
    proof {
        seen@.map_values(|v: Vec<u8>| v@).unique_seq_to_set();
    }
    seen.len()
}

/// The name of an order, as the table's summary line gives it; by relevance without a query
/// the table is in PID order.
pub open spec fn sort_label_view(sort: Sort, query_empty: bool) -> Seq<char> {
    match sort {
        Sort::Name => "name"@,
        Sort::Pid => "pid"@,
        Sort::Memory => "RAM"@,
        Sort::Cpu => "CPU"@,
        Sort::Relevance => if query_empty { "pid"@ } else { "match"@ },
    }
}

/// The name of an order, as the table's summary line gives it.
pub fn sort_label(sort: Sort, query_empty: bool) -> (r: &'static str)
    ensures
        r@ == sort_label_view(sort, query_empty),
{
    match sort {
        Sort::Name => "name",
        Sort::Pid => "pid",
        Sort::Memory => "RAM",
        Sort::Cpu => "CPU",
        Sort::Relevance => if query_empty { "pid" } else { "match" },
    }
}

/// What the interface is doing: requesting terminations, scanning (with a spinner that
/// turns with each tick), refreshing on its own, or waiting for a manual refresh.
pub open spec fn activity_view(stopping: bool, scanning: bool, auto: bool, pulse: nat) -> Seq<char> {
    if stopping {
        "requesting termination…"@
    } else if scanning {
        if pulse % 4 == 0 {
            "◐ scanning"@
        } else if pulse % 4 == 1 {
            "◓ scanning"@
        } else if pulse % 4 == 2 {
            "◑ scanning"@
        } else {
            "◒ scanning"@
        }
    } else if auto {
        "LIVE · every 5s"@
    } else {
        "MANUAL · r refresh"@
    }
}

/// What the interface is doing.
pub fn activity(stopping: bool, scanning: bool, auto: bool, pulse: usize) -> (r: &'static str)
    ensures
        r@ == activity_view(stopping, scanning, auto, pulse as nat),
{
    if stopping {
        "requesting termination…"
    } else if scanning {
        let turn = pulse % 4;
        if turn == 0 {
            "◐ scanning"
        } else if turn == 1 {
            "◓ scanning"
        } else if turn == 2 {
            "◑ scanning"
        } else {
            "◒ scanning"
        }
    } else if auto {
        "LIVE · every 5s"
    } else {
        "MANUAL · r refresh"
    }
}


/// The key help.
pub open spec fn help_text() -> Seq<Seq<char>> {
    seq![
        "OPEN FILE LOCK HANDLE"@,
        "1 / 2          Processes / locked files"@,
        "↑ / ↓, j       Navigate results"@,
        "PgUp / PgDn    Move one page"@,
        "Home / End     First / last result"@,
        "Enter          Inspect matching paths"@,
        "Space          Select process"@,
        "Ctrl+A         Select / deselect all visible processes"@,
        "/              Search PID, name, user, path, access"@,
        "*              Wildcards: micro*dll, FLEC*.json"@,
        "               Fragments and CamelCase; spaces combine terms."@,
        "Esc            Clear search / back / cancel"@,
        "r              Refresh; cancels previous scan"@,
        "a              Toggle five-second auto-refresh"@,
        "i              Toggle side inspector"@,
        "Tab / →        Focus ancestry; ↑↓ chooses action target"@,
        "Tab / ← / Esc  Leave ancestry"@,
        "l              Details: toggle locks only"@,
        "m / c          Sort RAM / CPU descending"@,
        "n / p          Sort name / PID"@,
        "k / x          Stop / force kill selection or current process"@,
        "K / X          Selection; otherwise all filtered processes"@,
        "Tab            Choose Cancel / Terminate"@,
        "?              Show help"@,
        "R / D          Open repository / donation page"@,
        "q / Ctrl+C     Back / quit"@,
        ""@,
        "Every termination requires confirmation. Cancel is the default."@,
        "Hidden selections are included. Process identity is revalidated."@,
        "Stopping a parent does not recursively terminate its children."@,
        ""@,
        "READING THE EVIDENCE"@,
        "An open file is not necessarily locked."@,
        "locked         Platform lock / sharing-conflict evidence"@,
        "open           Observed file descriptor"@,
        "cwd            Current working directory"@,
        "executable     Process executable"@,
        "mapped         Mapped file / loaded module"@,
        "restart manager  Windows resource user, owner unverified"@,
        "unknown        OS did not expose this information"@,
        ""@,
        "CPU is a share of total machine capacity, sampled twice."@,
        "Permissions, namespaces and races may limit visibility."@
    ]
}

/// The lines of the key help.
fn help_text_lines() -> (r: Vec<&'static str>)
    ensures
        r@.map_values(|h: &'static str| h@) == help_text(),
{
    let r = phrases(&[
        "OPEN FILE LOCK HANDLE",
        "1 / 2          Processes / locked files",
        "↑ / ↓, j       Navigate results",
        "PgUp / PgDn    Move one page",
        "Home / End     First / last result",
        "Enter          Inspect matching paths",
        "Space          Select process",
        "Ctrl+A         Select / deselect all visible processes",
        "/              Search PID, name, user, path, access",
        "*              Wildcards: micro*dll, FLEC*.json",
        "               Fragments and CamelCase; spaces combine terms.",
        "Esc            Clear search / back / cancel",
        "r              Refresh; cancels previous scan",
        "a              Toggle five-second auto-refresh",
        "i              Toggle side inspector",
        "Tab / →        Focus ancestry; ↑↓ chooses action target",
        "Tab / ← / Esc  Leave ancestry",
        "l              Details: toggle locks only",
        "m / c          Sort RAM / CPU descending",
        "n / p          Sort name / PID",
        "k / x          Stop / force kill selection or current process",
        "K / X          Selection; otherwise all filtered processes",
        "Tab            Choose Cancel / Terminate",
        "?              Show help",
        "R / D          Open repository / donation page",
        "q / Ctrl+C     Back / quit",
        "",
        "Every termination requires confirmation. Cancel is the default.",
        "Hidden selections are included. Process identity is revalidated.",
        "Stopping a parent does not recursively terminate its children.",
        "",
        "READING THE EVIDENCE",
        "An open file is not necessarily locked.",
        "locked         Platform lock / sharing-conflict evidence",
        "open           Observed file descriptor",
        "cwd            Current working directory",
        "executable     Process executable",
        "mapped         Mapped file / loaded module",
        "restart manager  Windows resource user, owner unverified",
        "unknown        OS did not expose this information",
        "",
        "CPU is a share of total machine capacity, sampled twice.",
        "Permissions, namespaces and races may limit visibility.",
    ]);
    assert(r@.map_values(|h: &'static str| h@) =~= help_text());
    r
}

/// `n` in decimal, padded with spaces on the right to nine characters.
pub open spec fn padded_decimal(n: nat) -> Seq<char> {
    let d = decimal(n);
    if d.len() < 9 { d + Seq::new((9 - d.len()) as nat, |i: int| ' ') } else { d }
}

/// Plain text.
pub open spec fn plain(text: Seq<char>) -> StyledView {
    StyledView { tone: Tone::Plain, text }
}

/// The termination review: what will be requested of how many processes, what it risks, a
/// warning when an ancestor was chosen, and each process by PID and name.
pub open spec fn review_lines_view(force: bool, parent_action: bool, pending: Seq<TargetView>) -> Seq<StyledView> {
    seq![
        StyledView {
            tone: Tone::Heading,
            text: (if force { "FORCE KILL "@ } else { "Terminate "@ }) + decimal(pending.len()) + " processes?"@,
        },
        plain(if force {
            "Immediate termination: no cleanup. Unsaved work may be lost."@
        } else {
            "Request a normal shutdown. Unsaved work may be lost."@
        }),
    ] + (if parent_action {
        seq![StyledView { tone: Tone::Alert, text: "Target: selected ancestor. Its application and children may be affected."@ }]
    } else {
        Seq::empty()
    }) + seq![plain(Seq::empty()), plain("Affected processes (including selections hidden by filters):"@)] + pending.map_values(
        |t: TargetView| plain("  "@ + padded_decimal(t.identity.pid as nat) + " "@ + t.name.map_values(|c: char| safe_char(c))),
    )
}

/// The help dialog: the project's links, the scan's warnings, then the key help.
pub open spec fn help_lines_view(warnings: Seq<Seq<char>>) -> Seq<StyledView> {
    seq![
        StyledView { tone: Tone::Accent, text: "LINKS"@ },
        plain("R  GitHub: https://github.com/karimz1/open-file-lock-handle"@),
        plain("D  Donate: https://buymeacoffee.com/karimz1"@),
        plain("Press uppercase R or D to open in your browser."@),
        plain(Seq::empty()),
    ] + (if warnings.len() > 0 {
        seq![StyledView { tone: Tone::Accent, text: "SCAN DETAILS"@ }]
    } else {
        Seq::empty()
    }) + warnings.map_values(|w: Seq<char>| plain(w.map_values(|c: char| safe_char(c)))) + seq![plain(Seq::empty())]
        + help_text().map_values(|h: Seq<char>| plain(h))
}

/// Appends `s` to `out`.
fn append(out: &mut Vec<char>, s: &str)
    ensures
        final(out)@ == old(out)@ + s@,
{
    let cs = chars_of(s);
    let mut i: usize = 0;
    while i < cs.len()
        invariant
            i <= cs@.len(),
            out@ == old(out)@ + cs@.take(i as int),
        decreases cs@.len() - i,
    {
        out.push(cs[i]);
        assert(cs@.take(i as int + 1) =~= cs@.take(i as int).push(cs@[i as int]));
        i = i + 1;
    }
    assert(cs@.take(cs@.len() as int) =~= cs@);
}

/// One process of the review.
fn review_entry(t: &ActionTarget) -> (r: Styled)
    ensures
        r@ == plain("  "@ + padded_decimal(t@.identity.pid as nat) + " "@ + t@.name.map_values(|c: char| safe_char(c))),
{
    let mut out: Vec<char> = Vec::new();
    append(&mut out, "  ");
    let digits = crate::text::decimal_of(t.identity.pid as u64);
    let mut i: usize = 0;
    while i < digits.len()
        invariant
            i <= digits@.len(),
            out@ == "  "@ + digits@.take(i as int),
        decreases digits@.len() - i,
    {
        out.push(digits[i]);
        assert(digits@.take(i as int + 1) =~= digits@.take(i as int).push(digits@[i as int]));
        i = i + 1;
    }
    assert(digits@.take(digits@.len() as int) =~= digits@);
    let ghost numbered = out@;
    let mut pad = digits.len();
    while pad < 9
        invariant
            digits@.len() <= pad <= 9 || (pad == digits@.len() && pad > 9),
            out@ == numbered + Seq::new((pad - digits@.len()) as nat, |i: int| ' '),
        decreases 9 - pad,
    {
        out.push(' ');
        assert(out@ =~= numbered + Seq::new((pad + 1 - digits@.len()) as nat, |i: int| ' '));
        pad = pad + 1;
    }
    assert(out@ =~= "  "@ + padded_decimal(t@.identity.pid as nat));
    let ghost padded = out@;
    out.push(' ');
    proof {
        reveal_strlit(" ");
    }
    assert(out@ =~= padded + " "@);
    let name = safe(t.name.as_str());
    let ghost named = out@;
    let name_chars = chars_of(name.as_str());
    let mut k: usize = 0;
    while k < name_chars.len()
        invariant
            k <= name_chars@.len(),
            out@ == named + name_chars@.take(k as int),
        decreases name_chars@.len() - k,
    {
        out.push(name_chars[k]);
        assert(name_chars@.take(k as int + 1) =~= name_chars@.take(k as int).push(name_chars@[k as int]));
        k = k + 1;
    }
    assert(name_chars@.take(name_chars@.len() as int) =~= name_chars@);
    assert(out@ =~= "  "@ + padded_decimal(t@.identity.pid as nat) + " "@ + t@.name.map_values(|c: char| safe_char(c)));
    Styled { tone: Tone::Plain, text: to_string(&out) }
}

/// The termination review's lines.
pub fn review_lines(force: bool, parent_action: bool, pending: &Vec<ActionTarget>) -> (r: Vec<Styled>)
    ensures
        lines_view(r@) == review_lines_view(force, parent_action, pending@.map_values(|t: ActionTarget| t@)),
{
    let ghost pv = pending@.map_values(|t: ActionTarget| t@);
    proof {
        reveal_strlit("");
        assert(""@ =~= Seq::<char>::empty());
    }
    let mut head: Vec<char> = Vec::new();
    append(&mut head, if force { "FORCE KILL " } else { "Terminate " });
    let ghost verb = head@;
    crate::text::push_decimal(&mut head, pending.len() as u64);
    append(&mut head, " processes?");
    assert(head@ =~= (if force { "FORCE KILL "@ } else { "Terminate "@ }) + decimal(pending@.len()) + " processes?"@);
    let mut out: Vec<Styled> = Vec::new();
    out.push(Styled { tone: Tone::Heading, text: to_string(&head) });
    out.push(styled(Tone::Plain, if force {
        "Immediate termination: no cleanup. Unsaved work may be lost."
    } else {
        "Request a normal shutdown. Unsaved work may be lost."
    }));
    if parent_action {
        out.push(styled(Tone::Alert, "Target: selected ancestor. Its application and children may be affected."));
    }
    out.push(styled(Tone::Plain, ""));
    out.push(styled(Tone::Plain, "Affected processes (including selections hidden by filters):"));
    let ghost top = lines_view(out@);
    let ghost want = pv.map_values(
        |t: TargetView| plain("  "@ + padded_decimal(t.identity.pid as nat) + " "@ + t.name.map_values(|c: char| safe_char(c))),
    );
    let mut i: usize = 0;
    while i < pending.len()
        invariant
            i <= pending@.len(),
            pv == pending@.map_values(|t: ActionTarget| t@),
            want == pv.map_values(
                |t: TargetView| plain("  "@ + padded_decimal(t.identity.pid as nat) + " "@ + t.name.map_values(|c: char| safe_char(c))),
            ),
            lines_view(out@) == top + want.take(i as int),
        decreases pending@.len() - i,
    {
        let ghost before = lines_view(out@);
        out.push(review_entry(&pending[i]));
        assert(lines_view(out@) =~= before.push(want[i as int]));
        assert(want.take(i as int + 1) =~= want.take(i as int).push(want[i as int]));
        i = i + 1;
    }
    assert(want.take(pending@.len() as int) =~= want);
    let ghost first = seq![
        StyledView {
            tone: Tone::Heading,
            text: (if force { "FORCE KILL "@ } else { "Terminate "@ }) + decimal(pv.len()) + " processes?"@,
        },
        plain(if force {
            "Immediate termination: no cleanup. Unsaved work may be lost."@
        } else {
            "Request a normal shutdown. Unsaved work may be lost."@
        }),
    ];
    let ghost warned = if parent_action {
        seq![StyledView { tone: Tone::Alert, text: "Target: selected ancestor. Its application and children may be affected."@ }]
    } else {
        Seq::empty()
    };
    assert(top =~= first + warned + seq![plain(Seq::empty()), plain("Affected processes (including selections hidden by filters):"@)]);
    assert(lines_view(out@) =~= review_lines_view(force, parent_action, pv));
    out
}

/// The help dialog's lines.
pub fn help_lines(warnings: &Vec<String>) -> (r: Vec<Styled>)
    ensures
        lines_view(r@) == help_lines_view(warnings@.map_values(|w: String| w@)),
{
    let ghost wv = warnings@.map_values(|w: String| w@);
    proof {
        reveal_strlit("");
        assert(""@ =~= Seq::<char>::empty());
    }
    let mut out: Vec<Styled> = Vec::new();
    out.push(styled(Tone::Accent, "LINKS"));
    out.push(styled(Tone::Plain, "R  GitHub: https://github.com/karimz1/open-file-lock-handle"));
    out.push(styled(Tone::Plain, "D  Donate: https://buymeacoffee.com/karimz1"));
    out.push(styled(Tone::Plain, "Press uppercase R or D to open in your browser."));
    out.push(styled(Tone::Plain, ""));
    if warnings.len() > 0 {
        out.push(styled(Tone::Accent, "SCAN DETAILS"));
    }
    let ghost top = lines_view(out@);
    assert(top =~= seq![
        StyledView { tone: Tone::Accent, text: "LINKS"@ },
        plain("R  GitHub: https://github.com/karimz1/open-file-lock-handle"@),
        plain("D  Donate: https://buymeacoffee.com/karimz1"@),
        plain("Press uppercase R or D to open in your browser."@),
        plain(Seq::empty()),
    ] + (if wv.len() > 0 {
        seq![StyledView { tone: Tone::Accent, text: "SCAN DETAILS"@ }]
    } else {
        Seq::empty()
    }));
    let ghost listed = wv.map_values(|w: Seq<char>| plain(w.map_values(|c: char| safe_char(c))));
    let mut i: usize = 0;
    while i < warnings.len()
        invariant
            i <= warnings@.len(),
            wv == warnings@.map_values(|w: String| w@),
            listed == wv.map_values(|w: Seq<char>| plain(w.map_values(|c: char| safe_char(c)))),
            lines_view(out@) == top + listed.take(i as int),
        decreases warnings@.len() - i,
    {
        let ghost before = lines_view(out@);
        out.push(Styled { tone: Tone::Plain, text: safe(warnings[i].as_str()) });
        assert(lines_view(out@) =~= before.push(listed[i as int]));
        assert(listed.take(i as int + 1) =~= listed.take(i as int).push(listed[i as int]));
        i = i + 1;
    }
    assert(listed.take(warnings@.len() as int) =~= listed);
    out.push(styled(Tone::Plain, ""));
    let ghost middle = lines_view(out@);
    assert(middle =~= top + listed + seq![plain(Seq::empty())]);
    let text = help_text_lines();
    let ghost helped = help_text().map_values(|h: Seq<char>| plain(h));
    let mut k: usize = 0;
    while k < text.len()
        invariant
            k <= text@.len(),
            text@.map_values(|h: &'static str| h@) == help_text(),
            helped == help_text().map_values(|h: Seq<char>| plain(h)),
            lines_view(out@) == middle + helped.take(k as int),
        decreases text@.len() - k,
    {
        let ghost before = lines_view(out@);
        out.push(styled(Tone::Plain, text[k]));
        assert(text@.map_values(|h: &'static str| h@)[k as int] == text@[k as int]@);
        assert(lines_view(out@) =~= before.push(helped[k as int]));
        assert(helped.take(k as int + 1) =~= helped.take(k as int).push(helped[k as int]));
        k = k + 1;
    }
    assert(helped.take(text@.len() as int) =~= helped);
    assert(lines_view(out@) =~= help_lines_view(wv));
    out
}


/// The paths of the locked usages among those at `indices`, in order.
pub open spec fn locked_paths_view(usages: Seq<UsageView>, indices: Seq<usize>) -> Seq<Seq<u8>>
    decreases indices.len(),
{
    if indices.len() == 0 {
        Seq::empty()
    } else {
        let rest = locked_paths_view(usages, indices.drop_last());
        let u = usages[indices.last() as int];
        if u.lock is Some { rest.push(u.path) } else { rest }
    }
}

/// How many different files are locked among the usages of `process` at `indices`.
pub fn locked_file_total(process: &Process, indices: &[usize]) -> (r: usize)
    requires
        forall|k: int| 0 <= k < indices@.len() ==> (#[trigger] indices@[k]) < process.usages@.len(),
    ensures
        r == locked_paths_view(process@.usages, indices@).to_set().len(),
{
    let ghost us = process@.usages;
    let mut paths: Vec<Vec<u8>> = Vec::new();
    let mut i: usize = 0;
    while i < indices.len()
        invariant
            i <= indices@.len(),
            us == process@.usages,
            forall|k: int| 0 <= k < indices@.len() ==> (#[trigger] indices@[k]) < process.usages@.len(),
            paths@.map_values(|v: Vec<u8>| v@) == locked_paths_view(us, indices@.take(i as int)),
        decreases indices@.len() - i,
    {
        assert(indices@.take(i as int + 1).drop_last() =~= indices@.take(i as int));
        assert(indices@.take(i as int + 1).last() == indices@[i as int]);
        let usage = &process.usages[indices[i]];
        assert(us[indices@[i as int] as int] == usage@);
        if usage.lock.is_some() {
            let ghost before = paths@.map_values(|v: Vec<u8>| v@);
            paths.push(crate::model::copy_bytes(&usage.path));
            assert(paths@.map_values(|v: Vec<u8>| v@) =~= before.push(usage.path@));
        }
        i = i + 1;
    }
    assert(indices@.take(indices@.len() as int) =~= indices@);
    distinct_count(&paths)
}

/// How many columns the process table shows: all eight from 94 columns on, five from 62,
/// else four.
pub open spec fn table_columns_view(width: nat) -> nat {
    if width >= 94 { 8 } else if width >= 62 { 5 } else { 4 }
}

/// How many columns the process table shows.
pub fn table_columns(width: u16) -> (r: u8)
    ensures
        r as nat == table_columns_view(width as nat),
{
    if width >= 94 { 8 } else if width >= 62 { 5 } else { 4 }
}

/// What an empty process table says: that discovery is under way, that the filter hides
/// everything, or that nothing visible uses the path.
pub open spec fn empty_table_view(scanning: bool, no_processes: bool, query_empty: bool) -> Seq<char> {
    if scanning && no_processes {
        "Discovering processes…\nYou can keep navigating while the scan runs."@
    } else if !query_empty {
        "No processes match your filter.\nPress / to edit it or Esc to clear."@
    } else {
        "No visible processes are using this path.\nPress r to scan again. Permissions may hide usage."@
    }
}

/// What an empty process table says.
pub fn empty_table(scanning: bool, no_processes: bool, query_empty: bool) -> (r: &'static str)
    ensures
        r@ == empty_table_view(scanning, no_processes, query_empty),
{
    if scanning && no_processes {
        "Discovering processes…\nYou can keep navigating while the scan runs."
    } else if !query_empty {
        "No processes match your filter.\nPress / to edit it or Esc to clear."
    } else {
        "No visible processes are using this path.\nPress r to scan again. Permissions may hide usage."
    }
}

/// What follows a row's path: ` (deleted)` for a deleted file, and ` +N` when the row holds
/// `N` more matching usages.
pub open spec fn row_note_view(deleted: bool, usages: nat) -> Seq<char> {
    (if deleted { " (deleted)"@ } else { Seq::empty() }) + (if usages > 1 {
        " +"@ + decimal((usages - 1) as nat)
    } else {
        Seq::empty()
    })
}

/// What follows a row's path.
pub fn row_note(deleted: bool, usages: usize) -> (r: String)
    ensures
        r@ == row_note_view(deleted, usages as nat),
{
    proof {
        reveal_strlit("");
        assert(""@ =~= Seq::<char>::empty());
    }
    let mut out: Vec<char> = Vec::new();
    append(&mut out, if deleted { " (deleted)" } else { "" });
    if usages > 1 {
        append(&mut out, " +");
        crate::text::push_decimal(&mut out, (usages - 1) as u64);
    }
    assert(out@ =~= row_note_view(deleted, usages as nat));
    to_string(&out)
}

/// The summary above the usages of a process: which usages are listed, how many of all,
/// how many different files are locked, and the position of the cursor.
pub open spec fn details_summary_view(locks_only: bool, listed: nat, total: nat, locked: nat, cursor: nat) -> Seq<char> {
    (if locks_only { "LOCKS ONLY"@ } else { "ALL USAGES"@ }) + " · "@ + decimal(listed) + " of "@ + decimal(total)
        + " usages · "@ + decimal(locked) + " locked files   "@ + decimal(if listed == 0 { 0 } else { cursor + 1 })
        + " / "@ + decimal(listed)
}

/// The summary above the usages of a process.
pub fn details_summary(locks_only: bool, listed: usize, total: usize, locked: usize, cursor: usize) -> (r: String)
    requires
        cursor < usize::MAX,
    ensures
        r@ == details_summary_view(locks_only, listed as nat, total as nat, locked as nat, cursor as nat),
{
    let mut out: Vec<char> = Vec::new();
    append(&mut out, if locks_only { "LOCKS ONLY" } else { "ALL USAGES" });
    append(&mut out, " · ");
    crate::text::push_decimal(&mut out, listed as u64);
    append(&mut out, " of ");
    crate::text::push_decimal(&mut out, total as u64);
    append(&mut out, " usages · ");
    crate::text::push_decimal(&mut out, locked as u64);
    append(&mut out, " locked files   ");
    let position: usize = if listed == 0 { 0 } else { cursor + 1 };
    crate::text::push_decimal(&mut out, position as u64);
    append(&mut out, " / ");
    crate::text::push_decimal(&mut out, listed as u64);
    assert(out@ =~= details_summary_view(locks_only, listed as nat, total as nat, locked as nat, cursor as nat));
    to_string(&out)
}

/// The line above the table: on the Ports tab how many bindings in which scope, with only
/// locked files how many files and lock entries, else how many of all processes are listed;
/// then how many processes are selected, if any, and the order.
pub open spec fn table_summary_view(
    ports: bool,
    port_all: bool,
    locked: bool,
    rows: nat,
    processes: nat,
    files: nat,
    selected: nat,
    order: Seq<char>,
) -> Seq<char> {
    (if ports {
        decimal(rows) + " bindings · "@ + (if port_all { "ALL PORTS"@ } else { "THIS PATH"@ })
    } else if locked {
        decimal(files) + " locked files · "@ + decimal(rows) + " lock entries"@
    } else {
        decimal(rows) + " of "@ + decimal(processes) + " processes"@
    }) + (if selected > 0 { " · "@ + decimal(selected) + " selected"@ } else { Seq::empty() }) + " · sort: "@ + order
}

/// The line above the table.
pub fn table_summary(
    ports: bool,
    port_all: bool,
    locked: bool,
    rows: usize,
    processes: usize,
    files: usize,
    selected: usize,
    order: &str,
) -> (r: String)
    ensures
        r@ == table_summary_view(ports, port_all, locked, rows as nat, processes as nat, files as nat, selected as nat, order@),
{
    let mut out: Vec<char> = Vec::new();
    if ports {
        crate::text::push_decimal(&mut out, rows as u64);
        append(&mut out, " bindings · ");
        append(&mut out, if port_all { "ALL PORTS" } else { "THIS PATH" });
    } else if locked {
        crate::text::push_decimal(&mut out, files as u64);
        append(&mut out, " locked files · ");
        crate::text::push_decimal(&mut out, rows as u64);
        append(&mut out, " lock entries");
    } else {
        crate::text::push_decimal(&mut out, rows as u64);
        append(&mut out, " of ");
        crate::text::push_decimal(&mut out, processes as u64);
        append(&mut out, " processes");
    }
    let ghost head = out@;
    if selected > 0 {
        append(&mut out, " · ");
        crate::text::push_decimal(&mut out, selected as u64);
        append(&mut out, " selected");
    }
    let ghost chosen = out@;
    append(&mut out, " · sort: ");
    append(&mut out, order);
    proof {
        reveal_strlit("");
    }
    assert(out@ =~= table_summary_view(ports, port_all, locked, rows as nat, processes as nat, files as nat, selected as nat, order@));
    to_string(&out)
}

} // verus!
