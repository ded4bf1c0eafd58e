//! Taking new scans and samples, and selecting every row.
use vstd::prelude::*;
use crate::model::{Identity, Metrics, Process, ProcessView, Snapshot, Usage, UsageView};
use crate::ranking::{indexes_all, processes_view, row_order_fn, rows_valid, rows_view, sort_rows, table, Row, RowView, Sort};
use crate::search::ProcessIndex;
use crate::state::{
    same_usage_fn, shows_fn, current_of, detail_of, detail_usage_of, first_where, identities, lemma_first_where,
    endpoint_of, locked_usage_of, metrics_applied, metrics_spec, refilter_spec, replace_spec, row_shows,
    select_all_spec, AppView, Screen,
};
use crate::tui::review::holds_identity;
use crate::tui::{distinct, position, usage_option, App};

verus! {

/// The search fields of every process.
fn build_indices(ps: &Vec<Process>) -> (r: Vec<ProcessIndex>)
    ensures
        indexes_all(r@, processes_view(ps@)),
{
    let mut out: Vec<ProcessIndex> = Vec::new();
    let mut i: usize = 0;
    while i < ps.len()
        invariant
            i <= ps@.len(),
            out@.len() == i,
            forall|k: int| 0 <= k < i ==> (#[trigger] out@[k]).indexes(ps@[k]@),
        decreases ps@.len() - i,
    {
        out.push(ProcessIndex::new(&ps[i]));
        i = i + 1;
    }
    proof {
        reveal(indexes_all);
    }
    out
}

/// `s.push(v)` contains `x` exactly when `s` does or `x` is `v`.
proof fn lemma_push_contains<T>(s: Seq<T>, v: T, x: T)
    ensures
        s.push(v).contains(x) <==> (s.contains(x) || x == v),
{
    if s.contains(x) {
        let k = choose|k: int| 0 <= k < s.len() && s[k] == x;
        assert(s.push(v)[k] == x);
    }
    if x == v {
        assert(s.push(v)[s.len() as int] == v);
    }
    if s.push(v).contains(x) {
        let k = choose|k: int| 0 <= k < s.len() + 1 && s.push(v)[k] == x;
        if k < s.len() {
            assert(s[k] == x);
        }
    }
}

/// Whether some process has the identity.
fn exists_identity(ps: &Vec<Process>, id: Identity) -> (r: bool)
    ensures
        r == identities(processes_view(ps@)).contains(id),
{
    match position(ps, id) {
        Some(k) => {
            assert(processes_view(ps@)[k as int].identity == id);
            true
        },
        None => {
            assert(!identities(processes_view(ps@)).contains(id)) by {
                if identities(processes_view(ps@)).contains(id) {
                    let k = choose|k: int| 0 <= k < processes_view(ps@).len() && processes_view(ps@)[k].identity == id;
                    assert(ps@[k].identity == id);
                }
            }
            false
        },
    }
}

/// The selected identities that some process still has, each once.
fn retained(sel: &Vec<Identity>, ps: &Vec<Process>) -> (r: Vec<Identity>)
    requires
        sel@.no_duplicates(),
    ensures
        r@.no_duplicates(),
        r@.to_set() == sel@.to_set().intersect(identities(processes_view(ps@))),
{
    let ghost ids = identities(processes_view(ps@));
    let mut out: Vec<Identity> = Vec::new();
    let mut i: usize = 0;
    while i < sel.len()
        invariant
            i <= sel@.len(),
            sel@.no_duplicates(),
            ids == identities(processes_view(ps@)),
            out@.no_duplicates(),
            forall|x: Identity| #[trigger] out@.contains(x) <==> (sel@.take(i as int).contains(x) && ids.contains(x)),
        decreases sel@.len() - i,
    {
        let id = sel[i];
        let ghost before = out@;
        let ghost prefix = sel@.take(i as int);
        assert(sel@.take(i as int + 1) =~= prefix.push(id));
        assert(!prefix.contains(id)) by {
            if prefix.contains(id) {
                let k = choose|k: int| 0 <= k < i && prefix[k] == id;
                assert(sel@[k] == sel@[i as int]);
            }
        }
        let keep = exists_identity(ps, id);
        assert(!before.contains(id));
        if keep {
            proof {
                crate::tui::actions::lemma_push_distinct(before, id);
            }
            out.push(id);
            assert forall|x: Identity| #[trigger] out@.contains(x) <==> (sel@.take(i as int + 1).contains(x) && ids.contains(x)) by {
                lemma_push_contains(prefix, id, x);
                lemma_push_contains(before, id, x);
                assert(before.contains(x) <==> (prefix.contains(x) && ids.contains(x)));
            }
        } else {
            assert forall|x: Identity| #[trigger] out@.contains(x) <==> (sel@.take(i as int + 1).contains(x) && ids.contains(x)) by {
                lemma_push_contains(prefix, id, x);
                assert(before.contains(x) <==> (prefix.contains(x) && ids.contains(x)));
            }
        }
        i = i + 1;
    }
    assert(sel@.take(sel@.len() as int) =~= sel@);
    assert(out@.to_set() =~= sel@.to_set().intersect(ids));
    out
}

/// Whether row `r` shows the process with identity `sel` and, when given, the usage.
fn shows(ps: &Vec<Process>, r: &Row, sel: Identity, usage: &Option<Usage>, endpoint: Option<crate::ports::Port>) -> (b: bool)
    requires
        crate::ranking::row_valid(r@, processes_view(ps@)),
    ensures
        b == row_shows(processes_view(ps@), r@, Some(sel), usage_option(*usage), endpoint),
{
    let p = &ps[r.process];
    if p.identity != sel {
        return false;
    }
    match endpoint {
        Some(e) => match r.port {
            Some(j) => {
                if p.ports[j] != e {
                    return false;
                }
            },
            None => {
                return false;
            },
        },
        None => {},
    }
    match usage {
        None => true,
        Some(u) => {
            let mut m: usize = 0;
            while m < r.usages.len()
                invariant
                    m <= r.usages@.len(),
                    crate::ranking::row_valid(r@, processes_view(ps@)),
                    p@ == processes_view(ps@)[r.process as int],
                    p.identity == sel,
                    *usage == Some(*u),
                    endpoint is Some ==> (r@.port is Some && p@.ports[r@.port->0 as int] == endpoint->0),
                    forall|k: int| 0 <= k < m ==> p@.usages[r.usages@[k] as int] != u@,
                decreases r.usages@.len() - m,
            {
                assert((r.usages@[m as int] as int) < p@.usages.len());
                if p.usages[r.usages[m]].same_as(u) {
                    assert(0 <= m < r@.usages.len() && processes_view(ps@)[r@.process as int].usages[r@.usages[m as int] as int] == u@);
                    return true;
                }
                m = m + 1;
            }
            false
        },
    }
}

impl App {
    /// The birth identity of the process under the table cursor.
    fn current_identity(&self) -> (r: Option<Identity>)
        requires
            self.wf(),
        ensures
            r == match current_of(self@) {
                Some(p) => Some(p.identity),
                None => None::<Identity>,
            },
    {
        match self.current() {
            Some(p) => Some(p.identity),
            None => None,
        }
    }

    /// The usage under the table cursor, when only locked files are shown.
    fn locked_usage(&self) -> (r: Option<Usage>)
        requires
            self.wf(),
        ensures
            usage_option(r) == locked_usage_of(self@),
    {
        proof {
            reveal(App::abstraction);
            reveal(rows_valid);
        }
        if self.locked && self.cursor < self.rows.len() {
            let row = &self.rows[self.cursor];
            assert(crate::ranking::row_valid(self@.rows[self.cursor as int], self@.processes));
            let p = &self.snapshot.processes[row.process];
            if row.usages.len() > 0 {
                let j = row.usages[0];
                Some(p.usages[j].clone())
            } else {
                None
            }
        } else {
            None
        }
    }

    /// The binding under the table cursor, on the Ports tab.
    fn current_endpoint(&self) -> (r: Option<crate::ports::Port>)
        requires
            self.wf(),
        ensures
            r == endpoint_of(self@),
    {
        proof {
            reveal(App::abstraction);
            reveal(rows_valid);
        }
        if self.tab.on && self.cursor < self.rows.len() {
            let row = &self.rows[self.cursor];
            assert(crate::ranking::row_valid(self@.rows[self.cursor as int], self@.processes));
            let p = &self.snapshot.processes[row.process];
            match row.port {
                Some(j) => if j < p.ports.len() {
                    Some(p.ports[j])
                } else {
                    None
                },
                None => None,
            }
        } else {
            None
        }
    }

    /// The usage under the details cursor.
    fn detail_usage(&self) -> (r: Option<Usage>)
        ensures
            usage_option(r) == detail_usage_of(self@),
    {
        proof {
            reveal(App::abstraction);
        }
        match self.detail() {
            Some(p) => {
                if !self.tab.detail && self.usage_cursor < self.usage_rows.len() && self.usage_rows[self.usage_cursor] < p.usages.len() {
                    Some(p.usages[self.usage_rows[self.usage_cursor]].clone())
                } else {
                    None
                }
            },
            None => None,
        }
    }

    /// What the processes of a scan give: their cached search fields, the selection that
    /// remains, and the table.
    fn scan_parts(&self, ps: &Vec<Process>) -> (r: (Vec<ProcessIndex>, Vec<Identity>, Vec<Row>))
        requires
            self.wf(),
        ensures
            indexes_all(r.0@, processes_view(ps@)),
            r.1@.no_duplicates(),
            r.1@.to_set() == self@.selected.intersect(identities(processes_view(ps@))),
            rows_view(r.2@) == (if self@.tab.on {
                crate::ranking::port_table_rows(processes_view(ps@), self@.tab.query, self@.tab.all)
            } else {
                crate::ranking::table_rows(processes_view(ps@), self@.query, self@.locked, self@.sort)
            }),
            rows_valid(rows_view(r.2@), processes_view(ps@)),
    {
        proof {
            reveal(App::abstraction);
            reveal(distinct);
        }
        let indices = build_indices(ps);
        let selected = retained(&self.selected, ps);
        let rows = if self.tab.on {
            crate::ranking::port_table(ps, self.tab.query.as_str(), self.tab.all)
        } else {
            table(ps, &indices, self.query.as_str(), self.locked, self.sort)
        };
        (indices, selected, rows)
    }

    /// Store the processes of a scan with what they give.
    fn put_scan(&mut self, snapshot: Snapshot, indices: Vec<ProcessIndex>, selected: Vec<Identity>, rows: Vec<Row>)
        requires
            old(self).wf(),
            indexes_all(indices@, processes_view(snapshot.processes@)),
            selected@.no_duplicates(),
            rows_valid(rows_view(rows@), processes_view(snapshot.processes@)),
        ensures
            final(self).wf(),
            final(self)@ == (AppView {
                processes: snapshot@.processes,
                warnings: snapshot@.warnings,
                selected: selected@.to_set(),
                rows: rows_view(rows@),
                cursor: crate::state::clamp(old(self)@.cursor, rows@.len()),
                ..old(self)@
            }),
    {
        proof {
            reveal(App::abstraction);
            reveal(distinct);
        }
        let last = if rows.len() > 0 { rows.len() - 1 } else { 0 };
        self.snapshot = snapshot;
        self.indices = indices;
        self.selected = selected;
        self.cursor = if self.cursor < last { self.cursor } else { last };
        self.rows = rows;
    }

    /// Take the processes of a scan: cache their fields, keep the selected identities that
    /// remain, and recompute the table.
    #[verifier::rlimit(100)]
    fn install(&mut self, snapshot: Snapshot)
        requires
            old(self).wf(),
        ensures
            final(self).wf(),
            final(self)@ == refilter_spec(AppView {
                processes: snapshot@.processes,
                warnings: snapshot@.warnings,
                selected: old(self)@.selected.intersect(identities(snapshot@.processes)),
                ..old(self)@
            }),
    {
        proof {
            reveal(refilter_spec);
        }
        let ghost s0 = AppView {
            processes: snapshot@.processes,
            warnings: snapshot@.warnings,
            selected: old(self)@.selected.intersect(identities(snapshot@.processes)),
            ..old(self)@
        };
        let (indices, selected, rows) = self.scan_parts(&snapshot.processes);
        assert(rows_view(rows@) == refilter_spec(s0).rows);
        self.put_scan(snapshot, indices, selected, rows);
        assert(self@ == refilter_spec(s0));
    }

    /// The first row showing the process and usage.
    fn find_row(&self, sel: Option<Identity>, usage: &Option<Usage>, endpoint: Option<crate::ports::Port>) -> (r: Option<usize>)
        requires
            self.wf(),
        ensures
            match r {
                Some(k) => first_where(self@.rows, shows_fn(self@.processes, sel, usage_option(*usage), endpoint)) == Some(k as int),
                None => first_where(self@.rows, shows_fn(self@.processes, sel, usage_option(*usage), endpoint)) is None,
            },
    {
        proof {
            reveal(App::abstraction);
            reveal(rows_valid);
        }
        let ghost pv = self@.processes;
        let ghost rv = self@.rows;
        let ghost pred = shows_fn(pv, sel, usage_option(*usage), endpoint);
        let id = match sel {
            Some(id) => id,
            None => {
                proof {
                    lemma_first_where(rv, pred, 0);
                    assert forall|k: int| 0 <= k < rv.len() implies !pred(#[trigger] rv[k]) by {}
                    lemma_first_where(rv, pred, rv.len() as int);
                }
                return None;
            },
        };
        let mut k: usize = 0;
        while k < self.rows.len()
            invariant
                k <= self.rows@.len(),
                pv == processes_view(self.snapshot.processes@),
                rv == rows_view(self.rows@),
                rows_valid(rv, pv),
                sel == Some(id),
                pred == shows_fn(pv, sel, usage_option(*usage), endpoint),
                pv == self@.processes,
                rv == self@.rows,
                forall|m: int| 0 <= m < k ==> !pred(#[trigger] rv[m]),
            decreases self.rows@.len() - k,
        {
            proof {
                reveal(rows_valid);
                assert(crate::ranking::row_valid(rv[k as int], pv));
            }
            if shows(&self.snapshot.processes, &self.rows[k], id, usage, endpoint) {
                proof {
                    lemma_first_where(rv, pred, k as int);
                }
                return Some(k);
            }
            k = k + 1;
        }
        proof {
            lemma_first_where(rv, pred, k as int);
        }
        None
    }

    /// Put the table cursor at a row.
    fn set_cursor(&mut self, k: usize)
        requires
            old(self).wf(),
        ensures
            final(self).wf(),
            final(self)@ == (AppView { cursor: k, ..old(self)@ }),
    {
        proof {
            reveal(App::abstraction);
        }
        self.cursor = k;
    }

    /// Put the table cursor on the first row showing the process and usage, if any.
    fn restore_cursor(&mut self, sel: Option<Identity>, usage: Option<Usage>, endpoint: Option<crate::ports::Port>)
        requires
            old(self).wf(),
        ensures
            final(self).wf(),
            final(self)@ == match first_where(old(self)@.rows, shows_fn(old(self)@.processes, sel, usage_option(usage), endpoint)) {
                Some(k) => AppView { cursor: k as usize, ..old(self)@ },
                None => old(self)@,
            },
    {
        match self.find_row(sel, &usage, endpoint) {
            Some(k) => self.set_cursor(k),
            None => {},
        }
    }

    /// The first listed usage of the detail process equal to the given one.
    fn find_usage_row(&self, usage: &Option<Usage>) -> (r: Option<usize>)
        requires
            self.wf(),
            usage is Some ==> match detail_of(self@) {
                Some(p) => forall|k: int| 0 <= k < self@.usage_rows.len() ==> (#[trigger] self@.usage_rows[k] as int) < p.usages.len(),
                None => true,
            },
        ensures
            match detail_of(self@) {
                Some(p) => match r {
                    Some(k) => first_where(self@.usage_rows, same_usage_fn(p, usage_option(*usage))) == Some(k as int),
                    None => first_where(self@.usage_rows, same_usage_fn(p, usage_option(*usage))) is None,
                },
                None => r is None,
            },
    {
        proof {
            reveal(App::abstraction);
        }
        let i = match self.detail_id {
            Some(id) => match position(&self.snapshot.processes, id) {
                Some(i) => i,
                None => {
                    return None;
                },
            },
            None => {
                return None;
            },
        };
        let ghost p = self@.processes[i as int];
        let ghost ur = self@.usage_rows;
        let ghost pred = same_usage_fn(p, usage_option(*usage));
        let u = match usage {
            Some(u) => u,
            None => {
                proof {
                    assert forall|k: int| 0 <= k < ur.len() implies !pred(#[trigger] ur[k]) by {}
                    lemma_first_where(ur, pred, ur.len() as int);
                }
                return None;
            },
        };
        let mut k: usize = 0;
        while k < self.usage_rows.len()
            invariant
                k <= self.usage_rows@.len(),
                ur == self.usage_rows@,
                i < self.snapshot.processes@.len(),
                p == self.snapshot.processes@[i as int]@,
                *usage == Some(*u),
                forall|m: int| 0 <= m < ur.len() ==> (#[trigger] ur[m] as int) < p.usages.len(),
                pred == same_usage_fn(p, usage_option(*usage)),
                ur == self@.usage_rows,
                detail_of(self@) == Some(p),
                forall|m: int| 0 <= m < k ==> !pred(#[trigger] ur[m]),
            decreases self.usage_rows@.len() - k,
        {
            let j = self.usage_rows[k];
            assert((ur[k as int] as int) < p.usages.len());
            if self.snapshot.processes[i].usages[j].same_as(u) {
                proof {
                    lemma_first_where(ur, pred, k as int);
                }
                return Some(k);
            }
            k = k + 1;
        }
        proof {
            lemma_first_where(ur, pred, k as int);
        }
        None
    }

    /// Put the details cursor at an entry.
    fn set_usage_cursor(&mut self, k: usize)
        requires
            old(self).wf(),
        ensures
            final(self).wf(),
            final(self)@ == (AppView { usage_cursor: k, ..old(self)@ }),
    {
        proof {
            reveal(App::abstraction);
        }
        self.usage_cursor = k;
    }

    /// Put the details cursor on the usage, if the details still list it.
    fn restore_usage_cursor(&mut self, usage: Option<Usage>)
        requires
            old(self).wf(),
            usage is Some ==> match detail_of(old(self)@) {
                Some(p) => forall|k: int| 0 <= k < old(self)@.usage_rows.len() ==> (#[trigger] old(self)@.usage_rows[k] as int) < p.usages.len(),
                None => true,
            },
        ensures
            final(self).wf(),
            final(self)@ == match detail_of(old(self)@) {
                Some(p) => match first_where(old(self)@.usage_rows, same_usage_fn(p, usage_option(usage))) {
                    Some(k) => AppView { usage_cursor: k as usize, ..old(self)@ },
                    None => old(self)@,
                },
                None => old(self)@,
            },
    {
        match self.find_usage_row(&usage) {
            Some(k) => self.set_usage_cursor(k),
            None => {},
        }
    }

    /// Take a new scan: keep the selection of processes that still exist, recompute the
    /// table and the details, and keep both cursors on the same process and usage where they
    /// remain.
    #[verifier::rlimit(100)]
    pub fn replace(&mut self, snapshot: Snapshot)
        requires
            old(self).wf(),
        ensures
            final(self).wf(),
            final(self)@ == replace_spec(old(self)@, snapshot@.processes, snapshot@.warnings),
    {
        proof {
            reveal(replace_spec);
            reveal(refilter_spec);
        }
        let sel = self.current_identity();
        let usage = self.locked_usage();
        let endpoint = self.current_endpoint();
        let detail_usage = self.detail_usage();
        self.install(snapshot);
        self.restore_cursor(sel, usage, endpoint);
        self.filter_details();
        self.restore_usage_cursor(detail_usage);
    }

    // ---- samples ----

    /// Record the metrics of the process at position `i`.
    fn set_metrics(&mut self, i: usize, m: Metrics)
        requires
            old(self).wf(),
            i < old(self)@.processes.len(),
        ensures
            final(self).wf(),
            final(self)@ == (AppView {
                processes: old(self)@.processes.update(
                    i as int,
                    ProcessView { memory: m.memory, cpu: m.cpu, ..old(self)@.processes[i as int] },
                ),
                ..old(self)@
            }),
    {
        proof {
            reveal(App::abstraction);
        }
        let ghost pv = processes_view(self.snapshot.processes@);
        let ghost pv2 = pv.update(i as int, ProcessView { memory: m.memory, cpu: m.cpu, ..pv[i as int] });
        let mut ps: Vec<Process> = Vec::new();
        std::mem::swap(&mut ps, &mut self.snapshot.processes);
        let mut p = ps.remove(i);
        p.memory = m.memory;
        p.cpu = m.cpu;
        ps.insert(i, p);
        assert(processes_view(ps@) =~= pv2);
        proof {
            reveal(indexes_all);
            reveal(rows_valid);
            assert forall|k: int| 0 <= k < self.indices@.len() implies (#[trigger] self.indices@[k]).indexes(pv2[k]) by {
                assert(self.indices@[k].indexes(pv[k]));
            }
            let rv = rows_view(self.rows@);
            assert forall|k: int| 0 <= k < rv.len() implies crate::ranking::row_valid(#[trigger] rv[k], pv2) by {
                assert(crate::ranking::row_valid(rv[k], pv));
            }
        }
        self.snapshot.processes = ps;
    }

    /// Apply sampled metrics in order, each to the first process with its identity.
    fn apply_sampled(&mut self, ms: &Vec<(Identity, Metrics)>)
        requires
            old(self).wf(),
        ensures
            final(self).wf(),
            final(self)@ == (AppView { processes: metrics_applied(old(self)@.processes, ms@), ..old(self)@ }),
    {
        let mut j: usize = 0;
        proof {
            reveal(metrics_applied);
            assert(ms@.take(0) =~= Seq::<(Identity, Metrics)>::empty());
        }
        while j < ms.len()
            invariant
                j <= ms@.len(),
                self.wf(),
                self@ == (AppView { processes: metrics_applied(old(self)@.processes, ms@.take(j as int)), ..old(self)@ }),
            decreases ms@.len() - j,
        {
            let (id, m) = ms[j];
            proof {
                reveal(metrics_applied);
                reveal(App::abstraction);
                assert(ms@.take(j as int + 1).drop_last() =~= ms@.take(j as int));
            }
            match position(&self.snapshot.processes, id) {
                Some(i) => {
                    self.set_metrics(i, m);
                },
                None => {},
            }
            j = j + 1;
        }
        assert(ms@.take(ms@.len() as int) =~= ms@);
    }

    /// Replace the rows with a reordering of them.
    fn set_rows(&mut self, rows: Vec<Row>)
        requires
            old(self).wf(),
            rows_valid(rows_view(rows@), old(self)@.processes),
        ensures
            final(self).wf(),
            final(self)@ == (AppView { rows: rows_view(rows@), ..old(self)@ }),
    {
        proof {
            reveal(App::abstraction);
        }
        self.rows = rows;
    }

    /// The first row of the process with this identity.
    fn find_identity_row(&self, id: Option<Identity>) -> (r: Option<usize>)
        requires
            self.wf(),
        ensures
            match r {
                Some(k) => first_where(self@.rows, crate::state::shows_id_fn(self@.processes, id)) == Some(k as int),
                None => first_where(self@.rows, crate::state::shows_id_fn(self@.processes, id)) is None,
            },
    {
        proof {
            reveal(App::abstraction);
            reveal(rows_valid);
        }
        let ghost pv = self@.processes;
        let ghost rv = self@.rows;
        let ghost pred = crate::state::shows_id_fn(pv, id);
        let want = match id {
            Some(w) => w,
            None => {
                proof {
                    assert forall|k: int| 0 <= k < rv.len() implies !pred(#[trigger] rv[k]) by {}
                    lemma_first_where(rv, pred, rv.len() as int);
                }
                return None;
            },
        };
        let mut k: usize = 0;
        while k < self.rows.len()
            invariant
                k <= self.rows@.len(),
                pv == processes_view(self.snapshot.processes@),
                rv == rows_view(self.rows@),
                pv == self@.processes,
                rv == self@.rows,
                rows_valid(rv, pv),
                id == Some(want),
                pred == crate::state::shows_id_fn(pv, id),
                forall|m: int| 0 <= m < k ==> !pred(#[trigger] rv[m]),
            decreases self.rows@.len() - k,
        {
            proof {
                reveal(rows_valid);
                assert(crate::ranking::row_valid(rv[k as int], pv));
            }
            if self.snapshot.processes[self.rows[k].process].identity == want {
                proof {
                    lemma_first_where(rv, pred, k as int);
                }
                return Some(k);
            }
            k = k + 1;
        }
        proof {
            lemma_first_where(rv, pred, k as int);
        }
        None
    }

    /// Re-sort the table after new metrics and keep the cursor on the same process.
    fn resort(&mut self)
        requires
            old(self).wf(),
        ensures
            final(self).wf(),
            ({
                let s = old(self)@;
                let id = match current_of(s) {
                    Some(p) => Some(p.identity),
                    None => None,
                };
                let rows = crate::ranking::stable_sort(s.rows, row_order_fn(s.processes, s.sort));
                let s2 = AppView { rows, ..s };
                final(self)@ == match first_where(rows, crate::state::shows_id_fn(s.processes, id)) {
                    Some(k) => AppView { cursor: k as usize, ..s2 },
                    None => s2,
                }
            }),
    {
        proof {
            self.lemma_fields();
            reveal(rows_valid);
        }
        let id = self.current_identity();
        let rows = sort_rows(&self.rows, &self.snapshot.processes, self.sort);
        self.set_rows(rows);
        self.goto_identity(id);
    }

    /// Put the table cursor on the first row of the process with this identity, if any.
    fn goto_identity(&mut self, id: Option<Identity>)
        requires
            old(self).wf(),
        ensures
            final(self).wf(),
            final(self)@ == match first_where(old(self)@.rows, crate::state::shows_id_fn(old(self)@.processes, id)) {
                Some(k) => AppView { cursor: k as usize, ..old(self)@ },
                None => old(self)@,
            },
    {
        match self.find_identity_row(id) {
            Some(k) => self.set_cursor(k),
            None => {},
        }
    }

    /// Take sampled metrics; when the table is ordered by them, re-sort it and keep the
    /// cursor on the same process.
    pub fn metrics(&mut self, ms: Vec<(Identity, Metrics)>)
        requires
            old(self).wf(),
        ensures
            final(self).wf(),
            final(self)@ == metrics_spec(old(self)@, ms@),
    {
        proof {
            reveal(metrics_spec);
        }
        self.apply_sampled(&ms);
        proof {
            self.lemma_mode();
            reveal(App::abstraction);
        }
        if self.sort == Sort::Cpu || self.sort == Sort::Memory {
            self.resort();
        }
    }

    // ---- selecting every row ----

    /// The identities of the rows' processes, in row order.
    fn row_ids(&self) -> (r: Vec<Identity>)
        requires
            self.wf(),
        ensures
            r@.len() == self@.rows.len(),
            forall|k: int| 0 <= k < r@.len() ==> r@[k] == self@.processes[self@.rows[k].process as int].identity,
    {
        proof {
            reveal(App::abstraction);
            reveal(rows_valid);
        }
        let ghost pv = self@.processes;
        let ghost rv = self@.rows;
        let mut out: Vec<Identity> = Vec::new();
        let mut k: usize = 0;
        while k < self.rows.len()
            invariant
                k <= self.rows@.len(),
                pv == processes_view(self.snapshot.processes@),
                rv == rows_view(self.rows@),
                rows_valid(rv, pv),
                out@.len() == k,
                forall|m: int| 0 <= m < k ==> out@[m] == pv[rv[m].process as int].identity,
            decreases self.rows@.len() - k,
        {
            proof {
                reveal(rows_valid);
                assert(crate::ranking::row_valid(rv[k as int], pv));
            }
            out.push(self.snapshot.processes[self.rows[k].process].identity);
            k = k + 1;
        }
        out
    }

    /// Replace the selection.
    fn set_selected(&mut self, v: Vec<Identity>)
        requires
            old(self).wf(),
            v@.no_duplicates(),
        ensures
            final(self).wf(),
            final(self)@ == (AppView { selected: v@.to_set(), ..old(self)@ }),
    {
        proof {
            reveal(App::abstraction);
            reveal(distinct);
        }
        self.selected = v;
    }

    /// The selection after selecting every row: their identities removed when all are
    /// selected, else added.
    fn next_selection(&self, ids: &Vec<Identity>) -> (r: Vec<Identity>)
        requires
            self.wf(),
        ensures
            r@.no_duplicates(),
            r@.to_set() == (if ids@.to_set().subset_of(self@.selected) {
                self@.selected.difference(ids@.to_set())
            } else {
                self@.selected.union(ids@.to_set())
            }),
    {
        proof {
            reveal(App::abstraction);
            reveal(distinct);
        }
        let mut all = true;
        let mut k: usize = 0;
        while k < ids.len()
            invariant
                k <= ids@.len(),
                all == (forall|m: int| 0 <= m < k ==> self.selected@.contains(#[trigger] ids@[m])),
            decreases ids@.len() - k,
        {
            if !holds_identity(&self.selected, ids[k]) {
                all = false;
            }
            k = k + 1;
        }
        assert(all == ids@.to_set().subset_of(self.selected@.to_set())) by {
            if all {
                assert forall|x: Identity| ids@.to_set().contains(x) implies self.selected@.to_set().contains(x) by {
                    let m = choose|m: int| 0 <= m < ids@.len() && ids@[m] == x;
                    assert(self.selected@.contains(ids@[m]));
                }
            } else {
                let m = choose|m: int| 0 <= m < ids@.len() && !self.selected@.contains(#[trigger] ids@[m]);
                assert(ids@.to_set().contains(ids@[m]));
            }
        }
        if all {
            without(&self.selected, ids)
        } else {
            with_all(&self.selected, ids)
        }
    }

    /// Select every row's process, or unselect them all when all are selected.
    pub fn select_all(&mut self)
        requires
            old(self).wf(),
        ensures
            final(self).wf(),
            final(self)@ == select_all_spec(old(self)@),
    {
        proof {
            reveal(select_all_spec);
        }
        let ids = self.row_ids();
        proof {
            let s = self@;
            let want = Set::new(|id: Identity| exists|k: int| 0 <= k < s.rows.len() && s.processes[s.rows[k].process as int].identity == id);
            assert forall|x: Identity| ids@.to_set().contains(x) <==> want.contains(x) by {
                if ids@.to_set().contains(x) {
                    let m = choose|m: int| 0 <= m < ids@.len() && ids@[m] == x;
                    assert(0 <= m < s.rows.len() && s.processes[s.rows[m].process as int].identity == x);
                }
                if want.contains(x) {
                    let m = choose|m: int| 0 <= m < s.rows.len() && s.processes[s.rows[m].process as int].identity == x;
                    assert(ids@[m] == x);
                }
            }
            assert(ids@.to_set() =~= want);
        }
        let next = self.next_selection(&ids);
        self.set_selected(next);
    }
}

/// The list without the given identities.
fn without(sel: &Vec<Identity>, ids: &Vec<Identity>) -> (r: Vec<Identity>)
    requires
        sel@.no_duplicates(),
    ensures
        r@.no_duplicates(),
        r@.to_set() == sel@.to_set().difference(ids@.to_set()),
{
    let mut out: Vec<Identity> = Vec::new();
    let mut i: usize = 0;
    while i < sel.len()
        invariant
            i <= sel@.len(),
            sel@.no_duplicates(),
            out@.no_duplicates(),
            forall|x: Identity| #[trigger] out@.contains(x) <==> (sel@.take(i as int).contains(x) && !ids@.contains(x)),
        decreases sel@.len() - i,
    {
        let id = sel[i];
        let ghost before = out@;
        let ghost prefix = sel@.take(i as int);
        assert(sel@.take(i as int + 1) =~= prefix.push(id));
        assert(!prefix.contains(id)) by {
            if prefix.contains(id) {
                let k = choose|k: int| 0 <= k < i && prefix[k] == id;
                assert(sel@[k] == sel@[i as int]);
            }
        }
        assert(!before.contains(id));
        if !holds_identity(ids, id) {
            proof {
                crate::tui::actions::lemma_push_distinct(before, id);
            }
            out.push(id);
            assert forall|x: Identity| #[trigger] out@.contains(x) <==> (sel@.take(i as int + 1).contains(x) && !ids@.contains(x)) by {
                lemma_push_contains(prefix, id, x);
                lemma_push_contains(before, id, x);
                assert(before.contains(x) <==> (prefix.contains(x) && !ids@.contains(x)));
            }
        } else {
            assert forall|x: Identity| #[trigger] out@.contains(x) <==> (sel@.take(i as int + 1).contains(x) && !ids@.contains(x)) by {
                lemma_push_contains(prefix, id, x);
                assert(before.contains(x) <==> (prefix.contains(x) && !ids@.contains(x)));
            }
        }
        i = i + 1;
    }
    assert(sel@.take(sel@.len() as int) =~= sel@);
    assert(out@.to_set() =~= sel@.to_set().difference(ids@.to_set()));
    out
}

/// The list with the given identities added, each once.
fn with_all(sel: &Vec<Identity>, ids: &Vec<Identity>) -> (r: Vec<Identity>)
    requires
        sel@.no_duplicates(),
    ensures
        r@.no_duplicates(),
        r@.to_set() == sel@.to_set().union(ids@.to_set()),
{
    let mut out: Vec<Identity> = Vec::new();
    let mut i: usize = 0;
    while i < sel.len()
        invariant
            i <= sel@.len(),
            out@ == sel@.take(i as int),
        decreases sel@.len() - i,
    {
        out.push(sel[i]);
        assert(sel@.take(i as int + 1) =~= sel@.take(i as int).push(sel@[i as int]));
        i = i + 1;
    }
    assert(sel@.take(sel@.len() as int) =~= sel@);
    let mut k: usize = 0;
    while k < ids.len()
        invariant
            k <= ids@.len(),
            out@.no_duplicates(),
            forall|x: Identity| #[trigger] out@.contains(x) <==> (sel@.contains(x) || ids@.take(k as int).contains(x)),
        decreases ids@.len() - k,
    {
        let id = ids[k];
        let ghost before = out@;
        let ghost prefix = ids@.take(k as int);
        assert(ids@.take(k as int + 1) =~= prefix.push(id));
        if !holds_identity(&out, id) {
            proof {
                crate::tui::actions::lemma_push_distinct(before, id);
            }
            out.push(id);
            assert forall|x: Identity| #[trigger] out@.contains(x) <==> (sel@.contains(x) || ids@.take(k as int + 1).contains(x)) by {
                lemma_push_contains(prefix, id, x);
                lemma_push_contains(before, id, x);
                assert(before.contains(x) <==> (sel@.contains(x) || prefix.contains(x)));
            }
        } else {
            assert forall|x: Identity| #[trigger] out@.contains(x) <==> (sel@.contains(x) || ids@.take(k as int + 1).contains(x)) by {
                lemma_push_contains(prefix, id, x);
                assert(before.contains(x) <==> (sel@.contains(x) || prefix.contains(x)));
            }
        }
        k = k + 1;
    }
    assert(ids@.take(ids@.len() as int) =~= ids@);
    assert(out@.to_set() =~= sel@.to_set().union(ids@.to_set()));
    out
}

} // verus!
