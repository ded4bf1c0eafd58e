//! The state changes that keys trigger on the table, the details and the ancestry.
use vstd::prelude::*;
use crate::model::{Identity, Process, Usage};
use crate::ranking::{file_query, processes_view, query_terms, Sort};
use crate::search::{join_words, Query, Scratch, TermView};
use crate::state::{
    ancestry_of, escape_details_spec, escape_spec, escape_table_spec, filter_details_spec,
    open_details_spec, open_tree_spec, refilter_spec, scope_spec, toggle_spec, ActionTarget, AppView,
    Screen, Tree, TreeView, TargetView,
};
use crate::tui::review::holds_identity;
use crate::tui::{distinct, tree_ok, cursor_ok, App};

verus! {

/// Removing an element of a list without repetitions removes it from its set.
proof fn lemma_remove_distinct(v: Seq<Identity>, k: int)
    requires
        v.no_duplicates(),
        0 <= k < v.len(),
    ensures
        v.remove(k).no_duplicates(),
        v.remove(k).to_set() == v.to_set().remove(v[k]),
{
    let r = v.remove(k);
    assert forall|i: int, j: int| 0 <= i < r.len() && 0 <= j < r.len() && i != j implies r[i] != r[j] by {
        let a = if i < k { i } else { i + 1 };
        let b = if j < k { j } else { j + 1 };
        assert(r[i] == v[a]);
        assert(r[j] == v[b]);
    }
    assert forall|x: Identity| r.to_set().contains(x) <==> v.to_set().remove(v[k]).contains(x) by {
        if r.contains(x) {
            let i = choose|i: int| 0 <= i < r.len() && r[i] == x;
            let a = if i < k { i } else { i + 1 };
            assert(v[a] == x);
            assert(a != k);
        }
        if v.contains(x) && x != v[k] {
            let a = choose|a: int| 0 <= a < v.len() && v[a] == x;
            let i = if a < k { a } else { a - 1 };
            assert(r[i] == x);
        }
    }
    assert(r.to_set() =~= v.to_set().remove(v[k]));
}

/// Adding a new element to a list without repetitions adds it to its set.
pub(crate) proof fn lemma_push_distinct(v: Seq<Identity>, x: Identity)
    requires
        v.no_duplicates(),
        !v.contains(x),
    ensures
        v.push(x).no_duplicates(),
        v.push(x).to_set() == v.to_set().insert(x),
{
    let r = v.push(x);
    assert forall|i: int, j: int| 0 <= i < r.len() && 0 <= j < r.len() && i != j implies r[i] != r[j] by {
        if i < v.len() && j < v.len() {
            assert(r[i] == v[i] && r[j] == v[j]);
        } else if i < v.len() {
            assert(r[i] == v[i]);
        } else if j < v.len() {
            assert(r[j] == v[j]);
        }
    }
    assert forall|y: Identity| r.to_set().contains(y) <==> v.to_set().insert(x).contains(y) by {
        if r.contains(y) && y != x {
            let i = choose|i: int| 0 <= i < r.len() && r[i] == y;
            assert(i < v.len());
            assert(v[i] == y);
        }
        if v.contains(y) {
            let i = choose|i: int| 0 <= i < v.len() && v[i] == y;
            assert(r[i] == y);
        }
        if y == x {
            assert(r[v.len() as int] == x);
        }
    }
    assert(r.to_set() =~= v.to_set().insert(x));
}

/// The ancestry of a process, root first and the process last.
pub(crate) fn ancestry(p: &Process) -> (t: Tree)
    ensures
        t@ == ancestry_of(p@),
        t.cursor < t.nodes@.len(),
{
    proof {
        reveal(ancestry_of);
    }
    let n = p.ancestors.len();
    let ghost a = p@.ancestors;
    let ghost want = Seq::new(a.len(), |i: int| TargetView { identity: a[a.len() - 1 - i].identity, name: a[a.len() - 1 - i].name });
    let mut nodes: Vec<ActionTarget> = Vec::new();
    let mut k: usize = 0;
    while k < n
        invariant
            k <= n,
            n == p.ancestors@.len(),
            a == p@.ancestors,
            want == Seq::new(a.len(), |i: int| TargetView { identity: a[a.len() - 1 - i].identity, name: a[a.len() - 1 - i].name }),
            nodes@.map_values(|t: ActionTarget| t@) == want.take(k as int),
        decreases n - k,
    {
        let anc = &p.ancestors[n - 1 - k];
        let ghost before = nodes@.map_values(|t: ActionTarget| t@);
        nodes.push(ActionTarget { identity: anc.identity, name: anc.name.clone() });
        assert(nodes@.map_values(|t: ActionTarget| t@) =~= before.push(want[k as int]));
        assert(want.take(k as int + 1) =~= want.take(k as int).push(want[k as int]));
        k = k + 1;
    }
    assert(want.take(n as int) =~= want);
    let ghost before = nodes@.map_values(|t: ActionTarget| t@);
    nodes.push(ActionTarget { identity: p.identity, name: p.name.clone() });
    assert(nodes@.map_values(|t: ActionTarget| t@) =~= before.push(crate::state::target_of(p@)));
    Tree { nodes, cursor: n }
}

/// The position of an identity in a list.
fn index_of(v: &Vec<Identity>, id: Identity) -> (r: Option<usize>)
    ensures
        match r {
            Some(k) => k < v@.len() && v@[k as int] == id,
            None => !v@.contains(id),
        },
{
    let mut k: usize = 0;
    while k < v.len()
        invariant
            k <= v@.len(),
            forall|m: int| 0 <= m < k ==> v@[m] != id,
        decreases v@.len() - k,
    {
        if v[k] == id {
            return Some(k);
        }
        k = k + 1;
    }
    None
}

impl App {
    /// Replace the focused ancestry.
    pub(crate) fn set_tree(&mut self, t: Option<Tree>)
        requires
            old(self).wf(),
            match t {
                Some(t) => t.cursor < t.nodes@.len(),
                None => true,
            },
        ensures
            final(self).wf(),
            final(self)@ == (AppView {
                tree: match t {
                    Some(t) => Some(t@),
                    None => None,
                },
                ..old(self)@
            }),
    {
        proof {
            reveal(App::abstraction);
            reveal(tree_ok);
        }
        self.tree = t;
    }

    /// Move the cursor of the focused ancestry.
    pub(crate) fn set_tree_cursor(&mut self, v: usize)
        requires
            old(self).wf(),
            old(self)@.tree is Some,
            v < old(self)@.tree->0.nodes.len(),
        ensures
            final(self).wf(),
            final(self)@ == (AppView { tree: Some(TreeView { cursor: v, ..old(self)@.tree->0 }), ..old(self)@ }),
    {
        proof {
            reveal(App::abstraction);
            reveal(tree_ok);
        }
        match self.tree.take() {
            Some(t) => {
                let nodes = t.nodes;
                self.tree = Some(Tree { nodes, cursor: v });
            },
            None => {},
        }
    }

    /// Focus the ancestry of the current row's process.
    pub(crate) fn open_tree(&mut self)
        requires
            old(self).wf(),
        ensures
            final(self).wf(),
            final(self)@ == open_tree_spec(old(self)@),
    {
        proof {
            reveal(open_tree_spec);
        }
        let t = match self.current() {
            Some(p) => ancestry(p),
            None => {
                return;
            },
        };
        self.set_tree(Some(t));
    }

    /// Select or unselect the current row's process.
    pub(crate) fn toggle_selection(&mut self)
        requires
            old(self).wf(),
        ensures
            final(self).wf(),
            final(self)@ == toggle_spec(old(self)@),
    {
        proof {
            reveal(toggle_spec);
        }
        let id = match self.current() {
            Some(p) => p.identity,
            None => {
                return;
            },
        };
        self.flip(id);
    }

    /// Select the identity when it is not selected, else unselect it.
    fn flip(&mut self, id: Identity)
        requires
            old(self).wf(),
        ensures
            final(self).wf(),
            final(self)@ == (if old(self)@.selected.contains(id) {
                AppView { selected: old(self)@.selected.remove(id), ..old(self)@ }
            } else {
                AppView { selected: old(self)@.selected.insert(id), ..old(self)@ }
            }),
    {
        proof {
            reveal(App::abstraction);
            reveal(distinct);
        }
        match index_of(&self.selected, id) {
            Some(k) => {
                proof {
                    lemma_remove_distinct(self.selected@, k as int);
                }
                self.selected.remove(k);
            },
            None => {
                proof {
                    lemma_push_distinct(self.selected@, id);
                }
                self.selected.push(id);
            },
        }
    }

    /// Switch between all usages and locked files only, back at the first row.
    #[verifier::rlimit(80)]
    pub(crate) fn set_scope(&mut self, locked: bool)
        requires
            old(self).wf(),
            !old(self)@.editing,
        ensures
            final(self).wf(),
            final(self)@ == scope_spec(old(self)@, locked),
    {
        proof {
            reveal(App::abstraction);
            reveal(scope_spec);
        }
        self.locked = locked;
        self.tab.on = false;
        self.cursor = 0;
        proof {
            reveal(cursor_ok);
        }
        self.refilter();
    }

    /// Bring the Ports tab to the front, back at its first row; the first time, ask for a
    /// scan that includes sockets.
    pub(crate) fn open_ports(&mut self) -> (e: crate::state::Effect)
        requires
            old(self).wf(),
            !old(self)@.editing,
        ensures
            final(self).wf(),
            final(self)@ == crate::state::ports_spec(old(self)@),
            e@ == crate::state::ports_effect(old(self)@),
    {
        proof {
            reveal(App::abstraction);
            reveal(crate::state::ports_spec);
            reveal(cursor_ok);
        }
        let e = if self.tab.seen { crate::state::Effect::Nothing } else { crate::state::Effect::Scan };
        self.tab.on = true;
        self.tab.seen = true;
        self.locked = false;
        self.cursor = 0;
        self.refilter();
        e
    }

    /// On the Ports tab, switch between every binding and those of processes that use the
    /// target.
    #[verifier::rlimit(80)]
    pub(crate) fn toggle_port_scope(&mut self)
        requires
            old(self).wf(),
        ensures
            final(self).wf(),
            final(self)@ == crate::state::port_scope_spec(old(self)@),
    {
        proof {
            reveal(App::abstraction);
            reveal(crate::state::port_scope_spec);
        }
        if self.tab.on {
            self.tab.all = !self.tab.all;
            self.cursor = 0;
            self.refilter();
        }
    }

    /// In the details, switch between the process's usages and its bindings.
    #[verifier::rlimit(80)]
    pub(crate) fn toggle_detail_ports(&mut self)
        requires
            old(self).wf(),
        ensures
            final(self).wf(),
            final(self)@ == filter_details_spec(AppView { tab: crate::state::PortTabView { detail: !old(self)@.tab.detail, ..old(self)@.tab }, usage_cursor: 0, ..old(self)@ }),
    {
        proof {
            self.lemma_fields();
        }
        let v = !self.tab.detail;
        self.set_detail_ports(v);
        self.filter_details();
    }

    /// Let the details list bindings or usages, from the first entry.
    fn set_detail_ports(&mut self, v: bool)
        requires
            old(self).wf(),
        ensures
            final(self).wf(),
            final(self)@ == (AppView { tab: crate::state::PortTabView { detail: v, ..old(self)@.tab }, usage_cursor: 0, ..old(self)@ }),
    {
        proof {
            reveal(App::abstraction);
        }
        self.tab.detail = v;
        self.usage_cursor = 0;
    }

    /// Order the table by a sort.
    pub(crate) fn sort_by(&mut self, sort: Sort)
        requires
            old(self).wf(),
        ensures
            final(self).wf(),
            final(self)@ == refilter_spec(AppView { sort, ..old(self)@ }),
    {
        proof {
            reveal(App::abstraction);
        }
        self.sort = sort;
        self.refilter();
    }

    /// Show only locked files in the details, or all usages.
    pub(crate) fn toggle_detail_locks(&mut self)
        requires
            old(self).wf(),
        ensures
            final(self).wf(),
            final(self)@ == filter_details_spec(AppView { detail_locks: !old(self)@.detail_locks, ..old(self)@ }),
    {
        proof {
            reveal(App::abstraction);
        }
        self.detail_locks = !self.detail_locks;
        self.filter_details();
    }

    /// Set the page of long paths in the details.
    pub(crate) fn set_path_page(&mut self, v: usize)
        requires
            old(self).wf(),
        ensures
            final(self).wf(),
            final(self)@ == (AppView { path_page: v, ..old(self)@ }),
    {
        proof {
            reveal(App::abstraction);
        }
        self.path_page = v;
    }

    /// Switch to a screen.
    pub(crate) fn show(&mut self, screen: Screen)
        requires
            old(self).wf(),
            !old(self)@.editing,
        ensures
            final(self).wf(),
            final(self)@ == (AppView { screen, ..old(self)@ }),
    {
        proof {
            reveal(App::abstraction);
            reveal(cursor_ok);
        }
        self.screen = screen;
    }

    /// Switch automatic scans on or off.
    pub(crate) fn toggle_auto(&mut self)
        requires
            old(self).wf(),
        ensures
            final(self).wf(),
            final(self)@ == (AppView { auto: !old(self)@.auto, ..old(self)@ }),
    {
        proof {
            reveal(App::abstraction);
        }
        self.auto = !self.auto;
    }

    /// Show or hide the inspector.
    pub(crate) fn toggle_inspector(&mut self)
        requires
            old(self).wf(),
        ensures
            final(self).wf(),
            final(self)@ == (AppView { hide_inspector: !old(self)@.hide_inspector, ..old(self)@ }),
    {
        proof {
            reveal(App::abstraction);
        }
        self.hide_inspector = !self.hide_inspector;
    }

    /// Clear the detail query and recompute the details.
    fn clear_detail_query(&mut self)
        requires
            old(self).wf(),
            !old(self)@.editing,
        ensures
            final(self).wf(),
            final(self)@ == filter_details_spec(AppView { detail_query: Seq::empty(), ..old(self)@ }),
    {
        proof {
            reveal(App::abstraction);
            reveal(cursor_ok);
        }
        self.detail_query = String::new();
        self.filter_details();
    }

    /// Clear the table query and recompute the table.
    fn clear_query(&mut self)
        requires
            old(self).wf(),
            !old(self)@.editing,
        ensures
            final(self).wf(),
            final(self)@ == refilter_spec(AppView { query: Seq::empty(), ..old(self)@ }),
    {
        proof {
            reveal(App::abstraction);
            reveal(cursor_ok);
        }
        self.query = String::new();
        self.refilter();
    }

    /// Clear the Ports tab's query and recompute the table.
    #[verifier::rlimit(80)]
    fn clear_port_query(&mut self)
        requires
            old(self).wf(),
            !old(self)@.editing,
        ensures
            final(self).wf(),
            final(self)@ == refilter_spec(AppView { tab: crate::state::PortTabView { query: Seq::empty(), ..old(self)@.tab }, ..old(self)@ }),
    {
        proof {
            reveal(App::abstraction);
            reveal(cursor_ok);
        }
        self.tab.query = String::new();
        self.refilter();
    }

    /// Clear the selection.
    pub(crate) fn clear_selection(&mut self)
        requires
            old(self).wf(),
        ensures
            final(self).wf(),
            final(self)@ == (AppView { selected: Set::empty(), ..old(self)@ }),
    {
        proof {
            reveal(App::abstraction);
            reveal(distinct);
        }
        self.selected = Vec::new();
        assert(self.selected@.to_set() =~= Set::<Identity>::empty());
    }

    /// Escape on the details.
    fn escape_details(&mut self)
        requires
            old(self).wf(),
            !old(self)@.editing,
        ensures
            final(self).wf(),
            final(self)@ == escape_details_spec(old(self)@),
    {
        proof {
            reveal(escape_details_spec);
            self.lemma_fields();
        }
        if self.detail_query.as_str().is_empty() {
            proof {
                assert(self@.detail_query.len() == 0);
            }
            self.show(Screen::Main);
        } else {
            self.clear_detail_query();
        }
    }

    /// Escape on the table.
    fn escape_table(&mut self)
        requires
            old(self).wf(),
            !old(self)@.editing,
        ensures
            final(self).wf(),
            final(self)@ == escape_table_spec(old(self)@),
    {
        proof {
            reveal(escape_table_spec);
            self.lemma_fields();
        }
        if self.tab.on {
            if self.tab.query.as_str().is_empty() {
                self.clear_selection();
            } else {
                self.clear_port_query();
            }
        } else if self.query.as_str().is_empty() {
            self.clear_selection();
        } else {
            self.clear_query();
        }
    }

    /// Escape.
    pub(crate) fn escape(&mut self)
        requires
            old(self).wf(),
            !old(self)@.editing,
        ensures
            final(self).wf(),
            final(self)@ == escape_spec(old(self)@),
    {
        proof {
            reveal(escape_spec);
            self.lemma_mode();
        }
        if self.screen == Screen::Details {
            self.escape_details();
        } else {
            self.escape_table();
        }
    }

    /// What opening the details of the current row sets: the process, the scope, and the
    /// query terms that concern files.
    fn detail_setup(&self) -> (r: (Identity, Option<Usage>, String))
        requires
            self.wf(),
            self@.cursor < self@.rows.len(),
        ensures
            ({
                let s = self@;
                let row = s.rows[s.cursor as int];
                let p = s.processes[row.process as int];
                &&& r.0 == p.identity
                &&& crate::tui::usage_option(r.1) == (if s.locked && row.usages.len() > 0 { Some(p.usages[row.usages[0] as int]) } else { None })
                &&& r.2@ == join_words(file_query(query_terms(s.query), p).map_values(|t: TermView| t.text))
            }),
    {
        proof {
            reveal(App::abstraction);
            reveal(crate::ranking::rows_valid);
            reveal(crate::ranking::indexes_all);
            assert(crate::ranking::row_valid(self@.rows[self.cursor as int], self@.processes));
        }
        let row = &self.rows[self.cursor];
        let p = &self.snapshot.processes[row.process];
        let scope = if self.locked && row.usages.len() > 0 {
            Some(p.usages[row.usages[0]].clone())
        } else {
            None
        };
        let q = Query::new(self.query.as_str());
        let mut scratch = Scratch::default();
        let index = &self.indices[row.process];
        assert(index.indexes(p@));
        let file_q = q.file_terms(&index.metadata, &mut scratch);
        assert(file_q@ =~= file_query(q@, p@));
        (p.identity, scope, file_q.text())
    }

    /// Enter the details of a process.
    fn enter_details(&mut self, id: Identity, scope: Option<Usage>, text: String, ports: bool)
        requires
            old(self).wf(),
            !old(self)@.editing,
        ensures
            final(self).wf(),
            final(self)@ == (AppView {
                detail_id: Some(id),
                tab: crate::state::PortTabView { detail: ports, ..old(self)@.tab },
                detail_scope: crate::tui::usage_option(scope),
                detail_query: text@,
                detail_locks: false,
                usage_cursor: 0,
                screen: Screen::Details,
                ..old(self)@
            }),
    {
        proof {
            reveal(App::abstraction);
            reveal(cursor_ok);
        }
        self.detail_id = Some(id);
        self.tab.detail = ports;
        self.detail_scope = scope;
        self.detail_query = text;
        self.detail_locks = false;
        self.usage_cursor = 0;
        self.screen = Screen::Details;
    }

    /// Open the details of the current row's process.
    #[verifier::rlimit(80)]
    pub(crate) fn open_details(&mut self)
        requires
            old(self).wf(),
            !old(self)@.editing,
        ensures
            final(self).wf(),
            final(self)@ == open_details_spec(old(self)@),
    {
        proof {
            reveal(open_details_spec);
            self.lemma_fields();
        }
        if self.cursor >= self.rows.len() {
            return;
        }
        let (id, scope, text) = self.detail_setup();
        let ports = self.tab.on;
        let text = if ports { String::new() } else { text };
        self.enter_details(id, scope, text, ports);
        self.filter_details();
    }
}

} // verus!
