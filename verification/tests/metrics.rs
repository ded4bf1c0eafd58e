use oflh::metrics::{apply_metrics, CpuShare, Sampler};
use oflh::model::{Identity, Metrics, Process, Snapshot};

fn id(pid: u32, started: u64) -> Identity {
    Identity { pid, started, started_sub: 0 }
}

#[test]
fn shares_come_from_the_previous_round_of_the_same_birth() {
    let mut sampler = Sampler::default();
    let first = sampler.sample(vec![(id(10, 1), 100, Some(4096)), (id(11, 1), 50, None)], 1000);
    assert_eq!(first, vec![(id(10, 1), None, Some(4096)), (id(11, 1), None, None)]);
    let second = sampler.sample(vec![(id(10, 1), 160, Some(8192)), (id(11, 2), 70, None)], 1200);
    assert_eq!(second[0], (id(10, 1), Some(CpuShare { busy: 60, elapsed: 200 }), Some(8192)));
    // a reused PID with another start time has no previous sample
    assert_eq!(second[1], (id(11, 2), None, None));
    // machine time that did not advance gives no share
    let third = sampler.sample(vec![(id(10, 1), 170, None)], 1200);
    assert_eq!(third[0].1, None);
}

#[test]
fn metrics_are_applied_by_identity() {
    let mut snapshot = Snapshot::default();
    let mut p = Process::default();
    p.identity = id(10, 1);
    snapshot.processes.push(p);
    let mut q = Process::default();
    q.identity = id(11, 1);
    snapshot.processes.push(q);
    apply_metrics(
        &mut snapshot,
        vec![
            (id(10, 1), Metrics { cpu: Some(7), memory: Some(1) }),
            (id(10, 2), Metrics { cpu: Some(9), memory: Some(9) }),
            (id(10, 1), Metrics { cpu: Some(8), memory: Some(2) }),
        ],
    );
    assert_eq!(snapshot.processes[0].cpu, Some(8));
    assert_eq!(snapshot.processes[0].memory, Some(2));
    assert_eq!(snapshot.processes[1].cpu, None);
    assert_eq!(snapshot.processes[1].memory, None);
}
