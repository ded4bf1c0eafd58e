//! The state of the terminal interface: the table of processes, the details of one, the
//! editor of queries, the ancestry and the termination review, driven by keys and scans.
use vstd::prelude::*;
mod editing;
pub(crate) mod actions;
mod keys;
mod scan;
mod events;
pub(crate) mod review;
mod display;
pub use display::{dialog_lines, first_paths, first_paths_of, footer_lines, inspected, inspected_view, row_file_count};
pub use events::{Answer, Requests};
use crate::model::{Identity, Metrics, Process, Snapshot, Usage, UsageView};
use crate::path::Target;
use crate::ranking::{table_rows, detail_usages, indexes_all, processes_view, rows_view, sort_rows, table, Row, Sort};
use crate::search::ProcessIndex;
use crate::state::{
    changed_spec, clamp, detail_of, lemma_valid_rows, filter_details_spec, first_where, initial_spec, input_of,
    lemma_first_where, position_of, refilter_spec, valid, with_input, ActionTarget, AppView,
    PortTab, Screen, Tree,
};

verus! {

/// The interface state.
pub struct App {
    pub target: Target,
    pub version: String,
    pub snapshot: Snapshot,
    indices: Vec<ProcessIndex>,
    pub rows: Vec<Row>,
    pub cursor: usize,
    pub screen: Screen,
    /// Only locked files are shown.
    pub locked: bool,
    /// The Ports tab.
    pub tab: PortTab,
    pub sort: Sort,
    /// Selected birth identities, each once.
    pub selected: Vec<Identity>,
    pub query: String,
    pub detail_query: String,
    pub editing: bool,
    edit_before: String,
    /// Position of the text cursor, in characters.
    pub input_cursor: usize,
    pub detail_id: Option<Identity>,
    pub detail_scope: Option<Usage>,
    pub detail_locks: bool,
    pub usage_rows: Vec<usize>,
    pub usage_cursor: usize,
    pub path_page: usize,
    pub tree: Option<Tree>,
    pub hide_inspector: bool,
    pub auto: bool,
    pub scanning: bool,
    pub stopping: bool,
    pub pulse: usize,
    pub pending: Vec<ActionTarget>,
    pub force: bool,
    pub confirm: bool,
    pub parent_action: bool,
    pub scroll: usize,
    pub status: String,
    pub error: bool,
    pub width: u16,
    pub height: u16,
    pub page: usize,
}

/// The view of an optional usage.
pub open spec fn usage_option(u: Option<Usage>) -> Option<UsageView> {
    match u {
        Some(u) => Some(u@),
        None => None,
    }
}

impl View for App {
    type V = AppView;

    closed spec fn view(&self) -> AppView {
        self.abstraction()
    }
}

impl App {
    /// The abstract state, kept opaque so that proofs about transitions compare states
    /// without unfolding every field.
    #[verifier::opaque]
    closed spec fn abstraction(&self) -> AppView {
        AppView {
            target_path: self.target.path@,
            target_directory: self.target.directory,
            target_identity: self.target.identity,
            version: self.version@,
            processes: processes_view(self.snapshot.processes@),
            warnings: self.snapshot.warnings@.map_values(|w: String| w@),
            rows: rows_view(self.rows@),
            cursor: self.cursor,
            screen: self.screen,
            locked: self.locked,
            tab: self.tab@,
            sort: self.sort,
            selected: self.selected@.to_set(),
            query: self.query@,
            detail_query: self.detail_query@,
            editing: self.editing,
            edit_before: self.edit_before@,
            input_cursor: self.input_cursor,
            detail_id: self.detail_id,
            detail_scope: usage_option(self.detail_scope),
            detail_locks: self.detail_locks,
            usage_rows: self.usage_rows@,
            usage_cursor: self.usage_cursor,
            path_page: self.path_page,
            tree: match self.tree {
                Some(t) => Some(t@),
                None => None,
            },
            hide_inspector: self.hide_inspector,
            auto: self.auto,
            scanning: self.scanning,
            stopping: self.stopping,
            pulse: self.pulse,
            pending: self.pending@.map_values(|t: ActionTarget| t@),
            force: self.force,
            confirm: self.confirm,
            parent_action: self.parent_action,
            scroll: self.scroll,
            status: self.status@,
            error: self.error,
            width: self.width,
            height: self.height,
            page: self.page,
        }
    }
}

/// The position of the first process with this birth identity.
pub(crate) fn position(ps: &Vec<Process>, id: Identity) -> (r: Option<usize>)
    ensures
        match r {
            Some(i) => i < ps@.len() && ps@[i as int].identity == id && position_of(processes_view(ps@), id) == Some(i as int),
            None => position_of(processes_view(ps@), id) is None && forall|k: int| 0 <= k < ps@.len() ==> (#[trigger] ps@[k]).identity != id,
        },
{
    let ghost pv = processes_view(ps@);
    let ghost pred = |p: crate::model::ProcessView| p.identity == id;
    let mut i: usize = 0;
    while i < ps.len()
        invariant
            i <= ps@.len(),
            pv == processes_view(ps@),
            pred == (|p: crate::model::ProcessView| p.identity == id),
            forall|k: int| 0 <= k < i ==> !pred(#[trigger] pv[k]),
            forall|k: int| 0 <= k < i ==> (#[trigger] ps@[k]).identity != id,
        decreases ps@.len() - i,
    {
        if ps[i].identity == id {
            proof {
                lemma_first_where(pv, pred, i as int);
            }
            return Some(i);
        }
        i = i + 1;
    }
    proof {
        lemma_first_where(pv, pred, i as int);
    }
    None
}

/// Each identity occurs once.
#[verifier::opaque]
pub open spec fn distinct(s: Seq<Identity>) -> bool {
    s.no_duplicates()
}

/// The ancestry cursor is on a node.
#[verifier::opaque]
pub open spec fn tree_ok(tree: Option<Tree>) -> bool {
    match tree {
        Some(t) => t.cursor < t.nodes@.len(),
        None => true,
    }
}

/// While editing, the text cursor is inside the text being edited.
#[verifier::opaque]
pub open spec fn cursor_ok(editing: bool, cursor: usize, screen: Screen, query: Seq<char>, detail_query: Seq<char>, ports: bool, port_query: Seq<char>) -> bool {
    editing ==> cursor <= (if screen == Screen::Details {
        detail_query.len()
    } else if ports {
        port_query.len()
    } else {
        query.len()
    })
}

impl App {
    /// The invariant of the state, with the search fields cached for each process and
    /// each selected identity once.
    pub closed spec fn wf(&self) -> bool {
        &&& indexes_all(self.indices@, processes_view(self.snapshot.processes@))
        &&& distinct(self.selected@)
        &&& crate::ranking::rows_valid(rows_view(self.rows@), processes_view(self.snapshot.processes@))
        &&& tree_ok(self.tree)
        &&& cursor_ok(self.editing, self.input_cursor, self.screen, self.query@, self.detail_query@, self.tab.on, self.tab.query@)
    }

    /// The view's editing flag is the field.
    proof fn lemma_editing(&self)
        ensures
            self@.editing == self.editing,
    {
        reveal(App::abstraction);
    }

    /// The focused ancestor and whether it is an ancestor rather than the process itself.
    fn focused_target(&self) -> (r: (ActionTarget, bool))
        requires
            self.wf(),
            self@.tree is Some,
        ensures
            r.0@ == self@.tree->0.nodes[self@.tree->0.cursor as int],
            r.1 == (self@.tree->0.cursor + 1 < self@.tree->0.nodes.len()),
    {
        proof {
            reveal(App::abstraction);
            reveal(tree_ok);
        }
        match &self.tree {
            Some(t) => {
                let n = t.nodes.len();
                (t.nodes[t.cursor].clone(), t.cursor < n - 1)
            },
            None => (ActionTarget { identity: Identity { pid: 0, started: 0, started_sub: 0 }, name: String::new() }, false),
        }
    }

    /// The view's mode fields are those of the state.
    proof fn lemma_mode(&self)
        ensures
            (self@.tree is Some) == (self.tree is Some),
            self@.screen == self.screen,
            self@.editing == self.editing,
            self@.stopping == self.stopping,
            self@.selected == self.selected@.to_set(),
    {
        reveal(App::abstraction);
    }

    /// The view's review fields are those of the state.
    proof fn lemma_review(&self)
        ensures
            self@.confirm == self.confirm,
            self@.scroll == self.scroll,
            self@.page == self.page,
            self@.width == self.width,
            self@.height == self.height,
    {
        reveal(App::abstraction);
    }

    /// The view's fields are those of the state.
    proof fn lemma_fields(&self)
        ensures
            self@.processes == processes_view(self.snapshot.processes@),
            self@.rows == rows_view(self.rows@),
            self@.cursor == self.cursor,
            self@.screen == self.screen,
            self@.locked == self.locked,
            self@.tab == self.tab@,
            self@.sort == self.sort,
            self@.selected == self.selected@.to_set(),
            self@.query == self.query@,
            self@.detail_query == self.detail_query@,
            self@.editing == self.editing,
            self@.input_cursor == self.input_cursor,
            self@.detail_id == self.detail_id,
            self@.detail_locks == self.detail_locks,
            self@.usage_rows == self.usage_rows@,
            self@.usage_cursor == self.usage_cursor,
            self@.path_page == self.path_page,
            (self@.tree is Some) == (self.tree is Some),
            self@.hide_inspector == self.hide_inspector,
            self@.auto == self.auto,
            self@.stopping == self.stopping,
            self@.force == self.force,
            self@.confirm == self.confirm,
            self@.scroll == self.scroll,
            self@.width == self.width,
            self@.height == self.height,
            self@.page == self.page,
            self@.pending.len() == self.pending@.len(),
    {
        reveal(App::abstraction);
    }

    /// A well-formed interface state is valid.
    pub proof fn lemma_wf_valid(&self)
        requires
            self.wf(),
        ensures
            valid(self@),
    {
        reveal(App::abstraction);
        reveal(tree_ok);
        reveal(cursor_ok);
        reveal(valid);
    }

    /// The interface before the first scan.
    pub fn new(target: Target, version: String) -> (r: Self)
        ensures
            r.wf(),
            r@ == initial_spec(target.path@, target.directory, target.identity, version@),
    {
        let r = App {
            target,
            version,
            snapshot: Snapshot { processes: Vec::new(), warnings: Vec::new() },
            indices: Vec::new(),
            rows: Vec::new(),
            cursor: 0,
            screen: Screen::Main,
            locked: false,
            tab: PortTab { on: false, all: true, query: String::new(), seen: false, detail: false },
            sort: Sort::Relevance,
            selected: Vec::new(),
            query: String::new(),
            detail_query: String::new(),
            editing: false,
            edit_before: String::new(),
            input_cursor: 0,
            detail_id: None,
            detail_scope: None,
            detail_locks: false,
            usage_rows: Vec::new(),
            usage_cursor: 0,
            path_page: 0,
            tree: None,
            hide_inspector: false,
            auto: false,
            scanning: false,
            stopping: false,
            pulse: 0,
            pending: Vec::new(),
            force: false,
            confirm: false,
            parent_action: false,
            scroll: 0,
            status: String::new(),
            error: false,
            width: 80,
            height: 24,
            page: 10,
        };
        proof {
            reveal(App::abstraction);
        }
        assert(r@.processes =~= Seq::empty());
        assert(r@.warnings =~= Seq::empty());
        assert(r@.rows =~= Seq::empty());
        assert(r@.selected =~= Set::empty());
        assert(r@.pending =~= Seq::empty());
        assert(r@ =~= initial_spec(r.target.path@, r.target.directory, r.target.identity, r.version@));
        proof {
            reveal(tree_ok);
            reveal(cursor_ok);
            reveal(indexes_all);
            reveal(distinct);
            reveal(crate::ranking::rows_valid);
        }
        r
    }

    /// The process under the table cursor.
    pub fn current(&self) -> (r: Option<&Process>)
        requires
            self.wf(),
        ensures
            match r {
                Some(p) => crate::state::current_of(self@) == Some(p@),
                None => crate::state::current_of(self@) is None,
            },
    {
        proof {
            reveal(App::abstraction);
        }
        if self.cursor < self.rows.len() {
            let i = self.rows[self.cursor].process;
            proof {
                reveal(crate::ranking::rows_valid);
                assert(crate::ranking::row_valid(rows_view(self.rows@)[self.cursor as int], processes_view(self.snapshot.processes@)));
            }
            Some(&self.snapshot.processes[i])
        } else {
            None
        }
    }

    /// The process whose details are open, found again by birth identity.
    pub fn detail(&self) -> (r: Option<&Process>)
        ensures
            match r {
                Some(p) => detail_of(self@) == Some(p@),
                None => detail_of(self@) is None,
            },
    {
        proof {
            reveal(App::abstraction);
        }
        match self.detail_id {
            Some(id) => match position(&self.snapshot.processes, id) {
                Some(i) => Some(&self.snapshot.processes[i]),
                None => None,
            },
            None => None,
        }
    }

    /// Recompute the table for the query and keep the cursor inside it.
    #[verifier::rlimit(20)]
    pub fn refilter(&mut self)
        requires
            old(self).wf(),
        ensures
            final(self).wf(),
            final(self)@ === refilter_spec(old(self)@),
    {
        proof {
            reveal(App::abstraction);
        }
        proof {
            reveal(refilter_spec);
        }
        let rows = if self.tab.on {
            crate::ranking::port_table(&self.snapshot.processes, self.tab.query.as_str(), self.tab.all)
        } else {
            table(&self.snapshot.processes, &self.indices, self.query.as_str(), self.locked, self.sort)
        };
        let last = if rows.len() > 0 { rows.len() - 1 } else { 0 };
        self.cursor = if self.cursor < last { self.cursor } else { last };
        self.rows = rows;
    }

    /// Recompute the usages listed in the details.
    #[verifier::rlimit(80)]
    pub fn filter_details(&mut self)
        requires
            old(self).wf(),
        ensures
            final(self).wf(),
            final(self)@ == filter_details_spec(old(self)@),
            final(self)@.tab == old(self)@.tab,
            match detail_of(final(self)@) {
                Some(p) => forall|k: int| 0 <= k < final(self)@.usage_rows.len() ==> (#[trigger] final(self)@.usage_rows[k] as int) < (
                if final(self)@.tab.detail { p.ports.len() } else { p.usages.len() }),
                None => true,
            },
    {
        proof {
            reveal(App::abstraction);
        }
        proof {
            reveal(filter_details_spec);
        }
        self.usage_rows = Vec::new();
        let id = match self.detail_id {
            Some(id) => id,
            None => {
                assert(self@.usage_rows =~= Seq::<usize>::empty());
                return;
            },
        };
        let i = match position(&self.snapshot.processes, id) {
            Some(i) => i,
            None => {
                assert(self@.usage_rows =~= Seq::<usize>::empty());
                return;
            },
        };
        proof {
            reveal(indexes_all);
            assert(self.indices@[i as int].indexes(processes_view(self.snapshot.processes@)[i as int]));
        }
        if self.tab.detail {
            let rows = crate::ranking::detail_ports(&self.snapshot.processes[i], self.tab.query.as_str(), self.detail_query.as_str());
            let last = if rows.len() > 0 { rows.len() - 1 } else { 0 };
            self.usage_cursor = if self.usage_cursor < last { self.usage_cursor } else { last };
            self.usage_rows = rows;
            self.path_page = 0;
            return;
        }
        let rows = detail_usages(
            &self.snapshot.processes[i],
            &self.indices[i],
            self.detail_query.as_str(),
            self.detail_locks,
            &self.detail_scope,
        );
        let last = if rows.len() > 0 { rows.len() - 1 } else { 0 };
        let n = self.snapshot.processes[i].usages.len();
        proof {
            crate::ranking::lemma_detail_rows_bounded(
                self@.processes[i as int],
                self@.detail_query,
                self@.detail_locks,
                self@.detail_scope,
            );
        }
        self.usage_cursor = if self.usage_cursor < last { self.usage_cursor } else { last };
        self.usage_rows = rows;
        self.path_page = 0;
    }
}

} // verus!
