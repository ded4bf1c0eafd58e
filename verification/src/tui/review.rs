//! Choosing processes to terminate and reviewing the choice.
use vstd::prelude::*;
use crate::model::Identity;
use crate::state::{
    confirm_spec, kill_base, kill_choice, rows_choice, screen_choice, table_choice, open_review_spec, pick_ancestor_spec, pick_process_spec,
    prepare_kill_spec, row_targets, sat_sub, selected_targets, target_ids, target_of, AppView, Effect,
    KeyCode, Screen, TargetView,
};
use crate::ranking::{processes_view, rows_view};
use crate::tui::App;

verus! {

/// The views of action targets.
pub open spec fn targets_view(ts: Seq<crate::state::ActionTarget>) -> Seq<TargetView> {
    ts.map_values(|t: crate::state::ActionTarget| t@)
}

/// Whether the identity occurs in the list.
pub(crate) fn holds_identity(v: &Vec<Identity>, id: Identity) -> (r: bool)
    ensures
        r == v@.contains(id),
{
    let mut i: usize = 0;
    while i < v.len()
        invariant
            i <= v@.len(),
            forall|k: int| 0 <= k < i ==> v@[k] != id,
        decreases v@.len() - i,
    {
        if v[i] == id {
            assert(v@[i as int] == id);
            return true;
        }
        i = i + 1;
    }
    false
}

/// Whether an identity is refused as a termination target.
pub(crate) fn refused(id: Identity) -> (r: bool)
    ensures
        r == !crate::model::actionable(id),
{
    id.validate().is_err()
}

/// What a key other than Enter does on the review.
fn review_action_of(code: KeyCode) -> (r: u8)
    ensures
        r == crate::state::review_action(code),
{
    match code {
        KeyCode::Esc | KeyCode::Char('q') | KeyCode::Char('n') => 0,
        KeyCode::Tab | KeyCode::Left | KeyCode::Right => 1,
        KeyCode::Up | KeyCode::Down | KeyCode::Char('j') | KeyCode::PageUp | KeyCode::PageDown => 2,
        _ => 3,
    }
}

impl App {
    /// Nothing pending, not yet confirmed, at the top, with force for `x`/`X`.
    fn reset_pending(&mut self, code: KeyCode)
        requires
            old(self).wf(),
        ensures
            final(self).wf(),
            final(self)@ == kill_base(old(self)@, code),
    {
        proof {
            reveal(App::abstraction);
        }
        proof {
            reveal(kill_base);
        }
        self.pending = Vec::new();
        self.confirm = false;
        self.scroll = 0;
        self.force = code == KeyCode::Char('x') || code == KeyCode::Char('X');
        self.parent_action = false;
        assert(targets_view(self.pending@) =~= Seq::<TargetView>::empty());
    }

    /// Make `t` the only pending target, if there is one.
    fn put_target(&mut self, t: Option<crate::state::ActionTarget>)
        requires
            old(self).wf(),
        ensures
            final(self).wf(),
            final(self)@ == match t {
                Some(t) => AppView { pending: seq![t@], ..old(self)@ },
                None => old(self)@,
            },
    {
        proof {
            reveal(App::abstraction);
        }
        match t {
            Some(t) => {
                let ghost v = t@;
                let mut pending = Vec::new();
                pending.push(t);
                self.pending = pending;
                assert(targets_view(self.pending@) =~= seq![v]);
            },
            None => {},
        }
    }

    /// The focused ancestor as the target, unless it is protected or its identity unknown.
    #[verifier::rlimit(20)]
    fn pick_ancestor(&mut self)
        requires
            old(self).wf(),
            !old(self)@.editing,
            old(self)@.tree is Some,
        ensures
            final(self).wf(),
            final(self)@ == pick_ancestor_spec(old(self)@, old(self)@.tree->0),
    {
        proof {
            reveal(pick_ancestor_spec);
        }
        let (target, parent) = self.focused_target();
        if refused(target.identity) {
            self.warn("This ancestor cannot be terminated: protected or identity unavailable.");
        } else {
            self.take_ancestor(target, parent);
        }
    }

    /// Make the focused ancestor the only pending target.
    pub(crate) fn take_ancestor(&mut self, target: crate::state::ActionTarget, parent: bool)
        requires
            old(self).wf(),
        ensures
            final(self).wf(),
            final(self)@ == (AppView { parent_action: parent, pending: seq![target@], ..old(self)@ }),
    {
        proof {
            reveal(App::abstraction);
        }
        self.parent_action = parent;
        self.put_target(Some(target));
    }

    /// A process as the target, unless its identity cannot be acted on.
    fn take_process(&mut self, t: Option<(crate::state::ActionTarget, bool)>)
        requires
            old(self).wf(),
            t matches Some(x) ==> x.1 == crate::model::actionable(x.0@.identity),
        ensures
            final(self).wf(),
            final(self)@ == match t {
                Some(x) => if x.1 {
                    AppView { pending: seq![x.0@], ..old(self)@ }
                } else {
                    AppView { status: "This process cannot be terminated: its owner is unknown or protected."@, error: true, ..old(self)@ }
                },
                None => old(self)@,
            },
    {
        match t {
            Some(x) => {
                if x.1 {
                    self.put_target(Some(x.0));
                } else {
                    self.warn("This process cannot be terminated: its owner is unknown or protected.");
                }
            },
            None => {},
        }
    }

    /// The detail process as the target.
    fn pick_detail(&mut self)
        requires
            old(self).wf(),
        ensures
            final(self).wf(),
            final(self)@ == pick_process_spec(old(self)@, crate::state::detail_of(old(self)@)),
    {
        proof {
            reveal(pick_process_spec);
        }
        let t = match self.detail() {
            Some(p) => Some((crate::state::ActionTarget { identity: p.identity, name: p.name.clone() }, p.identity.validate().is_ok())),
            None => None,
        };
        self.take_process(t);
    }

    /// The current row's process as the target.
    fn pick_current(&mut self)
        requires
            old(self).wf(),
        ensures
            final(self).wf(),
            final(self)@ == pick_process_spec(old(self)@, crate::state::current_of(old(self)@)),
    {
        proof {
            reveal(pick_process_spec);
        }
        let t = match self.current() {
            Some(p) => Some((crate::state::ActionTarget { identity: p.identity, name: p.name.clone() }, p.identity.validate().is_ok())),
            None => None,
        };
        self.take_process(t);
    }

    /// The selected processes, in snapshot order, as the targets.
    fn pick_selected(&mut self)
        requires
            old(self).wf(),
        ensures
            final(self).wf(),
            final(self)@ == (AppView { pending: selected_targets(old(self)@.processes, old(self)@.selected), ..old(self)@ }),
    {
        proof {
            reveal(App::abstraction);
        }
        proof {
            reveal(selected_targets);
        }
        let ghost ps = processes_view(self.snapshot.processes@);
        let ghost sel = self.selected@.to_set();
        let ghost pred = |p: crate::model::ProcessView| sel.contains(p.identity);
        let mut out: Vec<crate::state::ActionTarget> = Vec::new();
        let mut i: usize = 0;
        while i < self.snapshot.processes.len()
            invariant
                i <= self.snapshot.processes@.len(),
                ps == processes_view(self.snapshot.processes@),
                sel == self.selected@.to_set(),
                pred == (|p: crate::model::ProcessView| sel.contains(p.identity)),
                targets_view(out@) == ps.take(i as int).filter(pred).map_values(|p: crate::model::ProcessView| target_of(p)),
            decreases self.snapshot.processes@.len() - i,
        {
            let p = &self.snapshot.processes[i];
            let keep = holds_identity(&self.selected, p.identity);
            let ghost before = targets_view(out@);
            proof {
                assert(ps.take(i as int + 1).drop_last() =~= ps.take(i as int));
                reveal_with_fuel(Seq::filter, 1);
                assert(ps[i as int] == p@);
            }
            if keep {
                out.push(crate::state::ActionTarget { identity: p.identity, name: p.name.clone() });
                assert(targets_view(out@) =~= before.push(target_of(ps[i as int])));
                assert(ps.take(i as int + 1).filter(pred) =~= ps.take(i as int).filter(pred).push(ps[i as int]));
                assert(ps.take(i as int + 1).filter(pred).map_values(|p: crate::model::ProcessView| target_of(p))
                    =~= before.push(target_of(ps[i as int])));
            } else {
                assert(ps.take(i as int + 1).filter(pred) =~= ps.take(i as int).filter(pred));
            }
            i = i + 1;
        }
        assert(ps.take(ps.len() as int) =~= ps);
        self.pending = out;
    }

    /// Every row's process, each birth identity once, as the targets.
    fn pick_rows(&mut self)
        requires
            old(self).wf(),
        ensures
            final(self).wf(),
            final(self)@ == (AppView { pending: row_targets(old(self)@.processes, old(self)@.rows), ..old(self)@ }),
    {
        proof {
            reveal(App::abstraction);
        }
        proof {
            reveal(row_targets);
        }
        let ghost ps = processes_view(self.snapshot.processes@);
        let ghost rows = rows_view(self.rows@);
        let mut out: Vec<crate::state::ActionTarget> = Vec::new();
        let mut seen: Vec<Identity> = Vec::new();
        let mut i: usize = 0;
        proof {
            reveal(crate::ranking::rows_valid);
            assert(rows.take(0) =~= Seq::<crate::ranking::RowView>::empty());
        }
        while i < self.rows.len()
            invariant
                i <= self.rows@.len(),
                ps == processes_view(self.snapshot.processes@),
                rows == rows_view(self.rows@),
                crate::ranking::rows_valid(rows, ps),
                targets_view(out@) == row_targets(ps, rows.take(i as int)),
                seen@ == target_ids(targets_view(out@)),
            decreases self.rows@.len() - i,
        {
            proof {
                reveal(row_targets);
                reveal(crate::ranking::rows_valid);
                assert(crate::ranking::row_valid(rows[i as int], ps));
                assert(rows.take(i as int + 1).drop_last() =~= rows.take(i as int));
            }
            let p = &self.snapshot.processes[self.rows[i].process];
            let known = holds_identity(&seen, p.identity);
            let ghost before = targets_view(out@);
            if !known {
                out.push(crate::state::ActionTarget { identity: p.identity, name: p.name.clone() });
                seen.push(p.identity);
                assert(targets_view(out@) =~= before.push(target_of(p@)));
                assert(seen@ =~= target_ids(targets_view(out@)));
            }
            i = i + 1;
        }
        assert(rows.take(rows.len() as int) =~= rows);
        self.pending = out;
    }

    /// Every row for `K`/`X`, else the current row.
    fn choose_rows(&mut self, code: KeyCode)
        requires
            old(self).wf(),
        ensures
            final(self).wf(),
            final(self)@ == rows_choice(old(self)@, code),
    {
        proof {
            reveal(rows_choice);
        }
        if code == KeyCode::Char('K') || code == KeyCode::Char('X') {
            self.pick_rows();
        } else {
            self.pick_current();
        }
    }

    /// The selection, if any.
    fn choose_on_table(&mut self, code: KeyCode)
        requires
            old(self).wf(),
        ensures
            final(self).wf(),
            final(self)@ == table_choice(old(self)@, code),
    {
        proof {
            reveal(table_choice);
            self.lemma_mode();
        }
        if self.selected.len() > 0 {
            proof {
                assert(self@.selected.contains(self.selected@[0]));
            }
            self.pick_selected();
        } else {
            proof {
                assert(self@.selected =~= Set::<Identity>::empty());
            }
            self.choose_rows(code);
        }
    }

    /// The detail process on the details screen.
    fn choose_on_screen(&mut self, code: KeyCode)
        requires
            old(self).wf(),
        ensures
            final(self).wf(),
            final(self)@ == screen_choice(old(self)@, code),
    {
        proof {
            reveal(screen_choice);
            self.lemma_mode();
        }
        if self.screen == Screen::Details {
            self.pick_detail();
        } else {
            self.choose_on_table(code);
        }
    }

    /// The targets a termination key chooses.
    fn choose_targets(&mut self, code: KeyCode)
        requires
            old(self).wf(),
            !old(self)@.editing,
        ensures
            final(self).wf(),
            final(self)@ == kill_choice(old(self)@, code),
    {
        proof {
            reveal(kill_choice);
            self.lemma_mode();
        }
        if self.tree.is_some() {
            self.pick_ancestor();
        } else {
            self.choose_on_screen(code);
        }
    }

    /// Open the review when there is something to review.
    fn open_review(&mut self)
        requires
            old(self).wf(),
            !old(self)@.editing,
        ensures
            final(self).wf(),
            final(self)@ == open_review_spec(old(self)@),
    {
        proof {
            reveal(App::abstraction);
            reveal(crate::tui::cursor_ok);
        }
        proof {
            reveal(open_review_spec);
        }
        if self.pending.len() > 0 {
            self.screen = Screen::Confirm;
        }
    }

    /// Collect the termination targets for a key and open the review.
    #[verifier::rlimit(20)]
    pub(crate) fn prepare_kill(&mut self, code: KeyCode)
        requires
            old(self).wf(),
            !old(self)@.editing,
        ensures
            final(self).wf(),
            final(self)@ == prepare_kill_spec(old(self)@, code),
    {
        proof {
            reveal(prepare_kill_spec);
        }
        proof {
            self.lemma_mode();
        }
        if self.stopping {
            return;
        }
        self.reset_pending(code);
        proof {
            crate::state::lemma_kill_keeps_editing(old(self)@, code);
        }
        self.choose_targets(code);
        self.open_review();
    }

    /// Leave the review without acting.
    pub(crate) fn close_review(&mut self)
        requires
            old(self).wf(),
            !old(self)@.editing,
        ensures
            final(self).wf(),
            final(self)@ == (AppView { pending: Seq::empty(), screen: Screen::Main, ..old(self)@ }),
    {
        proof {
            reveal(App::abstraction);
            reveal(crate::tui::cursor_ok);
        }
        self.pending = Vec::new();
        self.screen = Screen::Main;
        assert(targets_view(self.pending@) =~= Seq::<TargetView>::empty());
    }

    /// Set how far the screen is scrolled.
    pub(crate) fn set_scroll(&mut self, v: usize)
        requires
            old(self).wf(),
        ensures
            final(self).wf(),
            final(self)@ == (AppView { scroll: v, ..old(self)@ }),
    {
        proof {
            reveal(App::abstraction);
        }
        self.scroll = v;
    }

    /// Put a message in the status line, as an error.
    pub(crate) fn warn(&mut self, text: &str)
        requires
            old(self).wf(),
        ensures
            final(self).wf(),
            final(self)@ == (AppView { status: text@, error: true, ..old(self)@ }),
    {
        proof {
            reveal(App::abstraction);
        }
        self.status = String::from_str(text);
        self.error = true;
    }

    /// Request termination of the pending targets.
    fn request_kill(&mut self) -> (e: Effect)
        requires
            old(self).wf(),
            !old(self)@.editing,
        ensures
            final(self).wf(),
            final(self)@ == (AppView {
                screen: Screen::Main,
                stopping: true,
                status: "Requesting termination…"@,
                pending: Seq::empty(),
                ..old(self)@
            }),
            e@ == crate::state::EffectView::Kill(target_ids(old(self)@.pending), old(self)@.force),
    {
        proof {
            reveal(App::abstraction);
            reveal(crate::tui::cursor_ok);
        }
        let ghost ts = targets_view(self.pending@);
        let mut ids: Vec<Identity> = Vec::new();
        let mut i: usize = 0;
        while i < self.pending.len()
            invariant
                i <= self.pending@.len(),
                ts == targets_view(self.pending@),
                ids@ == target_ids(ts.take(i as int)),
            decreases self.pending@.len() - i,
        {
            ids.push(self.pending[i].identity);
            assert(target_ids(ts.take(i as int + 1)) =~= target_ids(ts.take(i as int)).push(ts[i as int].identity));
            i = i + 1;
        }
        assert(ts.take(ts.len() as int) =~= ts);
        let force = self.force;
        self.screen = Screen::Main;
        self.stopping = true;
        self.status = String::from_str("Requesting termination…");
        self.pending = Vec::new();
        assert(targets_view(self.pending@) =~= Seq::<TargetView>::empty());
        Effect::Kill(ids, force)
    }

    /// Where a scrolling key moves the scroll position.
    fn scroll_value(&self, code: KeyCode) -> (v: usize)
        requires
            (code == KeyCode::Down || code == KeyCode::Char('j')) ==> self@.scroll < usize::MAX,
            code == KeyCode::PageDown ==> self@.scroll + self@.page <= usize::MAX,
        ensures
            v == crate::state::scrolled(self@, code),
    {
        proof {
            self.lemma_review();
        }
        match code {
            KeyCode::Up => self.scroll.saturating_sub(1),
            KeyCode::Down | KeyCode::Char('j') => self.scroll + 1,
            KeyCode::PageUp => self.scroll.saturating_sub(self.page),
            KeyCode::PageDown => self.scroll + self.page,
            _ => self.scroll,
        }
    }

    /// Scroll the screen for a scrolling key.
    pub(crate) fn scroll_by(&mut self, code: KeyCode)
        requires
            old(self).wf(),
            (code == KeyCode::Down || code == KeyCode::Char('j')) ==> old(self)@.scroll < usize::MAX,
            code == KeyCode::PageDown ==> old(self)@.scroll + old(self)@.page <= usize::MAX,
        ensures
            final(self).wf(),
            final(self)@ == (AppView { scroll: crate::state::scrolled(old(self)@, code), ..old(self)@ }),
    {
        let v = self.scroll_value(code);
        self.set_scroll(v);
    }

    /// Toggle whether the review's confirmation is focused.
    pub(crate) fn toggle_confirm(&mut self)
        requires
            old(self).wf(),
        ensures
            final(self).wf(),
            final(self)@ == (AppView { confirm: !old(self)@.confirm, ..old(self)@ }),
    {
        proof {
            self.lemma_review();
        }
        let c = !self.confirm;
        self.set_confirm(c);
    }

    /// Confirm the review.
    fn confirm_enter(&mut self) -> (e: Effect)
        requires
            old(self).wf(),
            !old(self)@.editing,
        ensures
            final(self).wf(),
            final(self)@ == crate::state::confirm_enter_spec(old(self)@).0,
            e@ == crate::state::confirm_enter_spec(old(self)@).1,
    {
        proof {
            reveal(crate::state::confirm_enter_spec);
            self.lemma_review();
        }
        if !self.confirm {
            self.close_review();
            Effect::Nothing
        } else if self.width < 38 || self.height < 12 {
            self.warn("Enlarge the terminal to review targets before confirming.");
            Effect::Nothing
        } else {
            self.request_kill()
        }
    }

    /// A key on the termination review other than Enter.
    fn review_move(&mut self, code: KeyCode)
        requires
            old(self).wf(),
            !old(self)@.editing,
            (code == KeyCode::Down || code == KeyCode::Char('j')) ==> old(self)@.scroll < usize::MAX,
            code == KeyCode::PageDown ==> old(self)@.scroll + old(self)@.page <= usize::MAX,
        ensures
            final(self).wf(),
            final(self)@ == crate::state::review_move_spec(old(self)@, code),
    {
        let a = review_action_of(code);
        if a == 0 {
            self.review_leave(code);
        } else if a == 1 {
            self.review_focus(code);
        } else if a == 2 {
            self.review_scroll(code);
        } else {
            self.review_ignore(code);
        }
    }

    /// Leave the review.
    fn review_leave(&mut self, code: KeyCode)
        requires
            old(self).wf(),
            !old(self)@.editing,
            crate::state::review_action(code) == 0,
        ensures
            final(self).wf(),
            final(self)@ == crate::state::review_move_spec(old(self)@, code),
    {
        proof {
            reveal(crate::state::review_move_spec);
        }
        self.close_review();
    }

    /// Move the review's focus.
    fn review_focus(&mut self, code: KeyCode)
        requires
            old(self).wf(),
            !old(self)@.editing,
            crate::state::review_action(code) == 1,
        ensures
            final(self).wf(),
            final(self)@ == crate::state::review_move_spec(old(self)@, code),
    {
        proof {
            reveal(crate::state::review_move_spec);
        }
        self.toggle_confirm();
    }

    /// Ignore a key on the review.
    fn review_ignore(&mut self, code: KeyCode)
        requires
            old(self).wf(),
            !old(self)@.editing,
            crate::state::review_action(code) == 3,
        ensures
            final(self).wf(),
            final(self)@ == crate::state::review_move_spec(old(self)@, code),
    {
        proof {
            reveal(crate::state::review_move_spec);
        }
    }

    /// Scroll the review.
    fn review_scroll(&mut self, code: KeyCode)
        requires
            old(self).wf(),
            !old(self)@.editing,
            (code == KeyCode::Down || code == KeyCode::Char('j')) ==> old(self)@.scroll < usize::MAX,
            code == KeyCode::PageDown ==> old(self)@.scroll + old(self)@.page <= usize::MAX,
            crate::state::review_action(code) == 2,
        ensures
            final(self).wf(),
            final(self)@ == crate::state::review_move_spec(old(self)@, code),
    {
        proof {
            reveal(crate::state::review_move_spec);
        }
        self.scroll_by(code);
    }

    /// A key on the termination review.
    pub(crate) fn confirm_key(&mut self, code: KeyCode) -> (e: Effect)
        requires
            old(self).wf(),
            !old(self)@.editing,
            (code == KeyCode::Down || code == KeyCode::Char('j')) ==> old(self)@.scroll < usize::MAX,
            code == KeyCode::PageDown ==> old(self)@.scroll + old(self)@.page <= usize::MAX,
        ensures
            final(self).wf(),
            final(self)@ == confirm_spec(old(self)@, code).0,
            e@ == confirm_spec(old(self)@, code).1,
    {
        proof {
            reveal(confirm_spec);
        }
        if code == KeyCode::Enter {
            self.confirm_enter()
        } else {
            self.review_move(code);
            Effect::Nothing
        }
    }

    /// Set whether the review's confirmation is focused.
    fn set_confirm(&mut self, v: bool)
        requires
            old(self).wf(),
        ensures
            final(self).wf(),
            final(self)@ == (AppView { confirm: v, ..old(self)@ }),
    {
        proof {
            reveal(App::abstraction);
        }
        self.confirm = v;
    }
}

} // verus!
