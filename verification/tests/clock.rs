use oflh::clock::{Due, Timers};

#[test]
fn timers_come_due_and_move_on() {
    let mut t = Timers::start(0);
    assert_eq!(t, Timers { pulse: 120, refresh: 5000, sample: None });
    assert_eq!(t.deadline(0, false, false), 86_400_000);
    assert_eq!(t.deadline(0, true, true), 120);
    assert_eq!(t.deadline(0, false, true), 5000);
    t.scan_answered(200, true);
    assert_eq!(t.sample, Some(1200));
    assert_eq!(t.deadline(300, false, false), 1200);
    assert_eq!(t.tick(1000, true, false), Due { pulse: true, refresh: false, sample: false });
    assert_eq!(t.pulse, 1120);
    assert_eq!(t.tick(1200, false, true), Due { pulse: false, refresh: false, sample: true });
    assert_eq!(t.sample, None);
    assert_eq!(t.tick(5000, false, true), Due { pulse: false, refresh: true, sample: false });
    assert_eq!(t.refresh, 10000);
    t.auto_changed(6000);
    assert_eq!(t.refresh, 11000);
    t.scan_answered(6000, true);
    t.requested(6100);
    assert_eq!((t.sample, t.pulse), (None, 6220));
    t.scan_answered(7000, false);
    assert_eq!(t.sample, None);
    assert_eq!(Timers::start(u64::MAX - 10).refresh, u64::MAX);
}
