//! CPU and memory sampling between scans, and merging of per-process observations.
use vstd::prelude::*;
use crate::model::{Identity, Metrics, Process, ProcessView, Snapshot, UsageView};

verus! {

/// CPU time a process used since the previous sample, and the machine time that elapsed
/// meanwhile; the share is `min(100 * busy / elapsed, 100)` percent.
#[derive(Clone, Copy, Debug, PartialEq, Eq)]
pub struct CpuShare {
    pub busy: u64,
    pub elapsed: u64,
}

/// The share between a previous sample `(cpu, total)` and the current one: only when machine
/// time advanced and the process counter did not go back.
pub open spec fn share_of(previous: Option<(u64, u64)>, cpu: u64, total: u64) -> Option<CpuShare> {
    match previous {
        Some((prev, old)) => if total > old && cpu >= prev {
            Some(CpuShare { busy: (cpu - prev) as u64, elapsed: (total - old) as u64 })
        } else {
            None
        },
        None => None,
    }
}

/// The samples recorded for the next round: per identity, the counter of its last raw entry
/// and the machine total.
pub open spec fn recorded(raw: Seq<(Identity, u64, Option<u64>)>, total: u64) -> Map<Identity, (u64, u64)>
    decreases raw.len(),
{
    if raw.len() == 0 {
        Map::empty()
    } else {
        recorded(raw.drop_last(), total).insert(raw.last().0, (raw.last().1, total))
    }
}

/// Identities occur at most once among the entries.
pub open spec fn distinct_ids(e: Seq<(Identity, u64, u64)>) -> bool {
    forall|i: int, j: int| 0 <= i < j < e.len() ==> (#[trigger] e[i]).0 != (#[trigger] e[j]).0
}

/// The entries as a map from identity to sample.
pub open spec fn entries_map(e: Seq<(Identity, u64, u64)>) -> Map<Identity, (u64, u64)>
    decreases e.len(),
{
    if e.len() == 0 {
        Map::empty()
    } else {
        entries_map(e.drop_last()).insert(e.last().0, (e.last().1, e.last().2))
    }
}

/// Previous CPU counters per process birth identity, to turn counters into shares.
pub struct Sampler {
    previous: Vec<(Identity, u64, u64)>,
}

impl View for Sampler {
    type V = Map<Identity, (u64, u64)>;

    closed spec fn view(&self) -> Map<Identity, (u64, u64)> {
        entries_map(self.previous@)
    }
}

proof fn lemma_entries_lookup(e: Seq<(Identity, u64, u64)>, i: int)
    requires
        distinct_ids(e),
        0 <= i < e.len(),
    ensures
        entries_map(e).contains_key(e[i].0),
        entries_map(e)[e[i].0] == (e[i].1, e[i].2),
    decreases e.len(),
{
    if i < e.len() - 1 {
        lemma_entries_lookup(e.drop_last(), i);
    }
}

proof fn lemma_entries_absent(e: Seq<(Identity, u64, u64)>, id: Identity)
    requires
        forall|k: int| 0 <= k < e.len() ==> (#[trigger] e[k]).0 != id,
    ensures
        !entries_map(e).contains_key(id),
    decreases e.len(),
{
    if e.len() > 0 {
        lemma_entries_absent(e.drop_last(), id);
    }
}

proof fn lemma_entries_update(e: Seq<(Identity, u64, u64)>, i: int, v: (Identity, u64, u64))
    requires
        distinct_ids(e),
        0 <= i < e.len(),
        e[i].0 == v.0,
    ensures
        distinct_ids(e.update(i, v)),
        entries_map(e.update(i, v)) == entries_map(e).insert(v.0, (v.1, v.2)),
    decreases e.len(),
{
    if i < e.len() - 1 {
        lemma_entries_update(e.drop_last(), i, v);
        assert(e.update(i, v).drop_last() =~= e.drop_last().update(i, v));
        assert(entries_map(e.update(i, v)) =~= entries_map(e).insert(v.0, (v.1, v.2)));
    } else {
        assert(e.update(i, v).drop_last() =~= e.drop_last());
        lemma_entries_absent(e.drop_last(), v.0);
        assert(entries_map(e.update(i, v)) =~= entries_map(e).insert(v.0, (v.1, v.2)));
    }
}

impl Default for Sampler {
    fn default() -> (r: Self)
        ensures
            r@ == Map::<Identity, (u64, u64)>::empty(),
    {
        Sampler { previous: Vec::new() }
    }
}

impl Sampler {
    #[verifier::type_invariant]
    spec fn wf(self) -> bool {
        distinct_ids(self.previous@)
    }

    fn find(&self, id: Identity) -> (r: Option<usize>)
        ensures
            match r {
                Some(i) => i < self.previous@.len() && self.previous@[i as int].0 == id,
                None => forall|k: int| 0 <= k < self.previous@.len() ==> (#[trigger] self.previous@[k]).0 != id,
            },
    {
        let mut i: usize = 0;
        while i < self.previous.len()
            invariant
                i <= self.previous@.len(),
                forall|k: int| 0 <= k < i ==> (#[trigger] self.previous@[k]).0 != id,
            decreases self.previous@.len() - i,
        {
            if self.previous[i].0 == id {
                return Some(i);
            }
            i = i + 1;
        }
        None
    }

    /// The previous sample of `id`, if there is one.
    fn previous(&self, id: Identity) -> (r: Option<(u64, u64)>)
        ensures
            r == (if self@.contains_key(id) { Some(self@[id]) } else { None::<(u64, u64)> }),
    {
        proof {
            use_type_invariant(self);
        }
        match self.find(id) {
            Some(i) => {
                proof {
                    lemma_entries_lookup(self.previous@, i as int);
                }
                Some((self.previous[i].1, self.previous[i].2))
            },
            None => {
                proof {
                    lemma_entries_absent(self.previous@, id);
                }
                None
            },
        }
    }

    /// Turn raw CPU counters into shares against the previous round, keep memory as
    /// sampled, and remember these counters for the next round.
    pub fn sample(&mut self, raw: Vec<(Identity, u64, Option<u64>)>, total: u64) -> (r: Vec<(Identity, Option<CpuShare>, Option<u64>)>)
        ensures
            r@.len() == raw@.len(),
            forall|i: int| 0 <= i < raw@.len() ==> (#[trigger] r@[i]) == (raw@[i].0, share_of(
                if old(self)@.contains_key(raw@[i].0) { Some(old(self)@[raw@[i].0]) } else { None },
                raw@[i].1,
                total,
            ), raw@[i].2),
            final(self)@ == recorded(raw@, total),
    {
        let mut next = Sampler { previous: Vec::new() };
        let mut out: Vec<(Identity, Option<CpuShare>, Option<u64>)> = Vec::new();
        let mut i: usize = 0;
        assert(next@ =~= recorded(raw@.take(0), total));
        while i < raw.len()
            invariant
                i <= raw@.len(),
                out@.len() == i,
                forall|k: int| 0 <= k < i ==> (#[trigger] out@[k]) == (raw@[k].0, share_of(
                    if self@.contains_key(raw@[k].0) { Some(self@[raw@[k].0]) } else { None },
                    raw@[k].1,
                    total,
                ), raw@[k].2),
                next@ == recorded(raw@.take(i as int), total),
            decreases raw@.len() - i,
        {
            let (id, cpu, memory) = raw[i];
            let share = match self.previous(id) {
                Some((prev, old)) => if total > old && cpu >= prev {
                    Some(CpuShare { busy: cpu - prev, elapsed: total - old })
                } else {
                    None
                },
                None => None,
            };
            next.record(id, cpu, total);
            assert(raw@.take(i as int + 1).drop_last() =~= raw@.take(i as int));
            out.push((id, share, memory));
            i = i + 1;
        }
        assert(raw@.take(raw@.len() as int) =~= raw@);
        *self = next;
        out
    }

    fn record(&mut self, id: Identity, cpu: u64, total: u64)
        ensures
            final(self)@ == old(self)@.insert(id, (cpu, total)),
    {
        proof {
            use_type_invariant(&*self);
        }
        let ghost before = self.previous@;
        match self.find(id) {
            Some(i) => {
                proof {
                    lemma_entries_update(before, i as int, (id, cpu, total));
                }
                let mut entries = Vec::new();
                std::mem::swap(&mut entries, &mut self.previous);
                entries.set(i, (id, cpu, total));
                assert(entries@ == before.update(i as int, (id, cpu, total)));
                self.previous = entries;
            },
            None => {
                let mut entries = Vec::new();
                std::mem::swap(&mut entries, &mut self.previous);
                entries.push((id, cpu, total));
                assert(entries@.drop_last() =~= before);
                assert(distinct_ids(entries@));
                self.previous = entries;
            },
        }
    }
}

/// Per identity, the metrics of its last entry.
pub open spec fn metric_map(ms: Seq<(Identity, Metrics)>) -> Map<Identity, Metrics>
    decreases ms.len(),
{
    if ms.len() == 0 {
        Map::empty()
    } else {
        metric_map(ms.drop_last()).insert(ms.last().0, ms.last().1)
    }
}

/// A process with the metrics of its identity applied, if there are some.
pub open spec fn with_metrics(p: ProcessView, m: Map<Identity, Metrics>) -> ProcessView {
    if m.contains_key(p.identity) {
        ProcessView { memory: m[p.identity].memory, cpu: m[p.identity].cpu, ..p }
    } else {
        p
    }
}

/// The metrics of the last entry for `id`.
fn last_metrics(ms: &Vec<(Identity, Metrics)>, id: Identity) -> (r: Option<Metrics>)
    ensures
        r == (if metric_map(ms@).contains_key(id) { Some(metric_map(ms@)[id]) } else { None::<Metrics> }),
{
    let mut found: Option<Metrics> = None;
    let mut i: usize = 0;
    while i < ms.len()
        invariant
            i <= ms@.len(),
            found == (if metric_map(ms@.take(i as int)).contains_key(id) {
                Some(metric_map(ms@.take(i as int))[id])
            } else {
                None::<Metrics>
            }),
        decreases ms@.len() - i,
    {
        assert(ms@.take(i as int + 1).drop_last() =~= ms@.take(i as int));
        if ms[i].0 == id {
            found = Some(ms[i].1);
        }
        i = i + 1;
    }
    assert(ms@.take(ms@.len() as int) =~= ms@);
    found
}

/// Apply sampled metrics to the processes of a snapshot by birth identity.
pub fn apply_metrics(snapshot: &mut Snapshot, metrics: Vec<(Identity, Metrics)>)
    ensures
        final(snapshot).warnings@ == old(snapshot).warnings@,
        final(snapshot).processes@.len() == old(snapshot).processes@.len(),
        forall|i: int| 0 <= i < old(snapshot).processes@.len() ==> (#[trigger] final(snapshot).processes@[i])@
            == with_metrics(old(snapshot).processes@[i]@, metric_map(metrics@)),
{
    let mut processes: Vec<Process> = Vec::new();
    std::mem::swap(&mut processes, &mut snapshot.processes);
    let ghost before = processes@;
    let mut i: usize = 0;
    while i < processes.len()
        invariant
            i <= processes@.len(),
            processes@.len() == before.len(),
            forall|k: int| 0 <= k < i ==> (#[trigger] processes@[k])@ == with_metrics(before[k]@, metric_map(metrics@)),
            forall|k: int| i <= k < before.len() ==> (#[trigger] processes@[k]) == before[k],
        decreases processes@.len() - i,
    {
        match last_metrics(&metrics, processes[i].identity) {
            Some(m) => {
                let mut p = processes.remove(i);
                p.memory = m.memory;
                p.cpu = m.cpu;
                processes.insert(i, p);
            },
            None => {},
        }
        i = i + 1;
    }
    snapshot.processes = processes;
}

} // verus!
