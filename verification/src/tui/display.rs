//! What the interface shows of its state: the footer, counts and the review's text.
use vstd::prelude::*;
use super::App;
use crate::layout::{distinct_count, help_lines, help_lines_view, review_lines, review_lines_view, footer_hints, footer_view, lines_view, rule_of, styled, wrap_hints, editing_tip, StyledView, Styled, Tone};
use crate::model::safe;
use crate::state::{ancestry_of, position_of, sat_sub, ActionTarget, AppView, Screen, Tree, TreeView};
use crate::ranking::{processes_view, rows_view, RowView};
use crate::model::ProcessView;

verus! {

/// The footer lines of the interface for a screen `width` columns wide.
pub fn footer_lines(width: u16, app: &App) -> (r: Vec<Styled>)
    ensures
        lines_view(r@) == footer_view(
            width as nat,
            app@.screen,
            app@.tree is Some,
            app@.editing,
            app@.status,
            app@.error,
            app@.warnings.len() > 0,
            app@.confirm,
            app@.force,
        ),
{
    proof {
        reveal(App::abstraction);
    }
    let mut out: Vec<Styled> = Vec::new();
    if app.editing {
        out.push(styled(Tone::Accent, "Enter apply · Esc cancel · ↑↓ browse"));
        assert(lines_view(out@) =~= seq![StyledView { tone: Tone::Accent, text: editing_tip() }]);
        return out;
    }
    if !app.status.as_str().is_empty() {
        out.push(Styled { tone: if app.error { Tone::Alert } else { Tone::Muted }, text: safe(app.status.as_str()) });
    } else if app.screen == Screen::Main && app.tree.is_none() {
        out.push(styled(Tone::Muted, "Enter inspect · Space select · m RAM / c CPU / n name / p PID"));
    }
    let ghost head = lines_view(out@);
    if app.snapshot.warnings.len() > 0 && app.screen != Screen::Help {
        out.push(styled(Tone::Muted, "Results may be incomplete · ? details"));
    }
    let ghost noted = lines_view(out@);
    out.push(Styled { tone: Tone::Muted, text: rule_of(width) });
    let ghost ruled = lines_view(out@);
    if app.screen == Screen::Confirm {
        let (cancel, ok) = crate::layout::confirmation_buttons(app.confirm, app.force);
        let mut line = cancel;
        line.append("   ");
        line.append(ok.as_str());
        out.push(Styled { tone: Tone::Buttons, text: line });
    }
    let ghost buttoned = lines_view(out@);
    let hints = footer_hints(app.screen, app.tree.is_some(), width);
    let rows = wrap_hints(&hints, width);
    let ghost wrapped = rows@.map_values(|s: String| s@).map_values(|r: Seq<char>| StyledView { tone: Tone::Accent, text: r });
    let mut i: usize = 0;
    while i < rows.len()
        invariant
            i <= rows@.len(),
            wrapped == rows@.map_values(|s: String| s@).map_values(|r: Seq<char>| StyledView { tone: Tone::Accent, text: r }),
            lines_view(out@) == buttoned + wrapped.take(i as int),
        decreases rows@.len() - i,
    {
        let ghost before = lines_view(out@);
        out.push(Styled { tone: Tone::Accent, text: rows[i].clone() });
        assert(lines_view(out@) =~= before.push(wrapped[i as int]));
        assert(wrapped.take(i as int + 1) =~= wrapped.take(i as int).push(wrapped[i as int]));
        i = i + 1;
    }
    assert(wrapped.take(rows@.len() as int) =~= wrapped);
    assert(lines_view(out@) =~= footer_view(
        width as nat,
        app.screen,
        app.tree is Some,
        app.editing,
        app.status@,
        app.error,
        app.snapshot.warnings@.len() > 0,
        app.confirm,
        app.force,
    ));
    out
}


/// The paths of the first usage of each row of the table that lists usages.
pub open spec fn first_paths_of(ps: Seq<ProcessView>, rows: Seq<RowView>) -> Seq<Seq<u8>>
    decreases rows.len(),
{
    if rows.len() == 0 {
        Seq::empty()
    } else {
        let rest = first_paths_of(ps, rows.drop_last());
        let r = rows.last();
        if r.usages.len() > 0 { rest.push(ps[r.process as int].usages[r.usages[0] as int].path) } else { rest }
    }
}

/// The paths of the first usage of each row of the table.
pub open spec fn first_paths(s: AppView) -> Seq<Seq<u8>> {
    first_paths_of(s.processes, s.rows)
}

/// How many different files the rows of the table show first.
pub fn row_file_count(app: &App) -> (r: usize)
    requires
        app.wf(),
    ensures
        r == first_paths(app@).to_set().len(),
{
    proof {
        reveal(App::abstraction);
        reveal(crate::ranking::rows_valid);
    }
    let ghost s = app@;
    let mut paths: Vec<Vec<u8>> = Vec::new();
    let mut i: usize = 0;
    while i < app.rows.len()
        invariant
            i <= app.rows@.len(),
            s == app@,
            s.rows == rows_view(app.rows@),
            s.processes == processes_view(app.snapshot.processes@),
            crate::ranking::rows_valid(s.rows, s.processes),
            paths@.map_values(|v: Vec<u8>| v@) == first_paths_of(s.processes, s.rows.take(i as int)),
        decreases app.rows@.len() - i,
    {
        let row = &app.rows[i];
        proof {
            reveal(crate::ranking::rows_valid);
            assert(s.rows[i as int] == row@);
            assert(s.processes.len() == app.snapshot.processes@.len());
            assert(row@.process < s.processes.len());
            assert(s.rows.take(i as int + 1).drop_last() =~= s.rows.take(i as int));
            assert(s.rows.take(i as int + 1).last() == row@);
        }
        if row.usages.len() > 0 {
            let process = &app.snapshot.processes[row.process];
            assert(s.processes[row.process as int] == process@);
            let ghost before = paths@.map_values(|v: Vec<u8>| v@);
            paths.push(crate::model::copy_bytes(&process.usages[row.usages[0]].path));
            assert(paths@.map_values(|v: Vec<u8>| v@) =~= before.push(process@.usages[row@.usages[0] as int].path));
        }
        i = i + 1;
    }
    assert(s.rows.take(app.rows@.len() as int) =~= s.rows);
    distinct_count(&paths)
}

/// The text of the dialog in front: the termination review, or else the help.
pub fn dialog_lines(app: &App) -> (r: Vec<Styled>)
    ensures
        lines_view(r@) == if app@.screen == Screen::Confirm {
            review_lines_view(app@.force, app@.parent_action, app@.pending)
        } else {
            help_lines_view(app@.warnings)
        },
{
    proof {
        reveal(App::abstraction);
    }
    if app.screen == Screen::Confirm {
        review_lines(app.force, app.parent_action, &app.pending)
    } else {
        help_lines(&app.snapshot.warnings)
    }
}

impl App {
    /// Record the terminal's size.
    pub fn set_frame(&mut self, width: u16, height: u16)
        requires
            old(self).wf(),
        ensures
            final(self).wf(),
            final(self)@ == (AppView { width, height, ..old(self)@ }),
    {
        proof {
            reveal(App::abstraction);
        }
        self.width = width;
        self.height = height;
    }

    /// Record how many rows a page of the list in front holds.
    pub fn set_page(&mut self, page: usize)
        requires
            old(self).wf(),
        ensures
            final(self).wf(),
            final(self)@ == (AppView { page, ..old(self)@ }),
    {
        proof {
            reveal(App::abstraction);
        }
        self.page = page;
    }

    /// Keep the dialog's scroll position on one of its `lines` lines.
    pub fn clamp_scroll(&mut self, lines: usize)
        requires
            old(self).wf(),
        ensures
            final(self).wf(),
            final(self)@ == (AppView { scroll: if old(self)@.scroll <= sat_sub(lines, 1) { old(self)@.scroll } else { sat_sub(lines, 1) }, ..old(self)@ }),
    {
        proof {
            reveal(App::abstraction);
        }
        let last = lines.saturating_sub(1);
        if self.scroll > last {
            self.scroll = last;
        }
    }
}

/// What the side panel shows: with an ancestry focused, that ancestry and the position of
/// its last node (the process itself) in the snapshot, if it is still there; otherwise the
/// ancestry of the current row's process, with its cursor on the process.
pub open spec fn inspected_view(s: AppView) -> Option<(Option<int>, TreeView)> {
    match s.tree {
        Some(t) => if t.nodes.len() > 0 {
            Some((position_of(s.processes, t.nodes.last().identity), t))
        } else {
            None
        },
        None => if s.cursor < s.rows.len() {
            let i = s.rows[s.cursor as int].process;
            Some((Some(i as int), ancestry_of(s.processes[i as int])))
        } else {
            None
        },
    }
}

/// A copy of an ancestry.
fn copy_tree(t: &Tree) -> (r: Tree)
    ensures
        r@ == t@,
{
    let mut nodes: Vec<ActionTarget> = Vec::new();
    let mut i: usize = 0;
    while i < t.nodes.len()
        invariant
            i <= t.nodes@.len(),
            nodes@.map_values(|n: ActionTarget| n@) == t.nodes@.take(i as int).map_values(|n: ActionTarget| n@),
        decreases t.nodes@.len() - i,
    {
        let ghost before = nodes@.map_values(|n: ActionTarget| n@);
        nodes.push(t.nodes[i].clone());
        assert(nodes@.map_values(|n: ActionTarget| n@) =~= before.push(t.nodes@[i as int]@));
        assert(t.nodes@.take(i as int + 1).map_values(|n: ActionTarget| n@) =~= t.nodes@.take(i as int).map_values(|n: ActionTarget| n@).push(t.nodes@[i as int]@));
        i = i + 1;
    }
    assert(t.nodes@.take(t.nodes@.len() as int) =~= t.nodes@);
    Tree { nodes, cursor: t.cursor }
}

/// What the side panel shows: the position of the shown process in the snapshot, if it is
/// there, and the ancestry to list.
pub fn inspected(app: &App) -> (r: Option<(Option<usize>, Tree)>)
    requires
        app.wf(),
    ensures
        match r {
            Some((i, t)) => inspected_view(app@) == Some((match i { Some(k) => Some(k as int), None => None::<int> }, t@)),
            None => inspected_view(app@) is None,
        },
{
    proof {
        reveal(App::abstraction);
        reveal(crate::ranking::rows_valid);
    }
    match &app.tree {
        Some(t) => {
            if t.nodes.len() == 0 {
                return None;
            }
            let id = t.nodes[t.nodes.len() - 1].identity;
            assert(t@.nodes.last().identity == id);
            let i = super::position(&app.snapshot.processes, id);
            Some((i, copy_tree(t)))
        },
        None => {
            if app.cursor < app.rows.len() {
                let i = app.rows[app.cursor].process;
                assert(crate::ranking::row_valid(app@.rows[app.cursor as int], app@.processes));
                let tree = super::actions::ancestry(&app.snapshot.processes[i]);
                Some((Some(i), tree))
            } else {
                None
            }
        },
    }
}

} // verus!
