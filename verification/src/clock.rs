//! The interface's timers, in milliseconds since it started: the activity animation while
//! work is under way, the five-second automatic refresh, and the sample a second after a
//! scan.
use vstd::prelude::*;

verus! {

/// Milliseconds between frames of the activity animation.
pub open spec fn pulse_period() -> u64 {
    120
}

/// Milliseconds between automatic refreshes.
pub open spec fn refresh_period() -> u64 {
    5000
}

/// Milliseconds from a finished scan to its sample.
pub open spec fn sample_delay() -> u64 {
    1000
}

/// The longest wait for an event: a day.
pub open spec fn idle_wait() -> u64 {
    86_400_000
}

/// `now + d`, or the largest time.
pub open spec fn later(now: u64, d: u64) -> u64 {
    if now as int + d as int <= u64::MAX as int { (now + d) as u64 } else { u64::MAX }
}

fn after(now: u64, d: u64) -> (r: u64)
    ensures
        r == later(now, d),
{
    now.saturating_add(d)
}

/// When the next animation frame, automatic refresh and sample are due.
#[derive(Clone, Copy, Debug, PartialEq, Eq)]
pub struct Timers {
    pub pulse: u64,
    pub refresh: u64,
    pub sample: Option<u64>,
}

/// Which timers came due.
#[derive(Clone, Copy, Debug, PartialEq, Eq)]
pub struct Due {
    /// The animation advances.
    pub pulse: bool,
    /// An automatic refresh may start.
    pub refresh: bool,
    /// A sample may start.
    pub sample: bool,
}

/// The earlier of two times.
pub open spec fn earlier(a: u64, b: u64) -> u64 {
    if a <= b { a } else { b }
}

/// How long the loop may wait at `now`: until the animation frame while work is under
/// way, the refresh while refreshing automatically, and the sample, at most a day.
pub open spec fn deadline_view(t: Timers, now: u64, busy: bool, auto: bool) -> u64 {
    let d0 = later(now, idle_wait());
    let d1 = if busy { earlier(d0, t.pulse) } else { d0 };
    let d2 = if auto { earlier(d1, t.refresh) } else { d1 };
    match t.sample {
        Some(at) => earlier(d2, at),
        None => d2,
    }
}

/// The timers after a check at `now`, and which came due: the animation while work is under
/// way (then the next frame), the refresh while refreshing automatically (then the next
/// refresh), and a pending sample (then none).
pub open spec fn tick_view(t: Timers, now: u64, busy: bool, auto: bool) -> (Timers, Due) {
    let pulse = busy && now >= t.pulse;
    let refresh = auto && now >= t.refresh;
    let sample = match t.sample {
        Some(at) => now >= at,
        None => false,
    };
    (
        Timers {
            pulse: if pulse { later(now, pulse_period()) } else { t.pulse },
            refresh: if refresh { later(now, refresh_period()) } else { t.refresh },
            sample: if sample { None } else { t.sample },
        },
        Due { pulse, refresh, sample },
    )
}

impl Timers {
    /// The timers at the start: the first frame and refresh ahead, no sample.
    pub fn start(now: u64) -> (r: Self)
        ensures
            r == (Timers { pulse: later(now, pulse_period()), refresh: later(now, refresh_period()), sample: None }),
    {
        Timers { pulse: after(now, 120), refresh: after(now, 5000), sample: None }
    }

    /// The time until which the loop may wait for an event.
    pub fn deadline(&self, now: u64, busy: bool, auto: bool) -> (r: u64)
        ensures
            r == deadline_view(*self, now, busy, auto),
    {
        let mut d = after(now, 86_400_000);
        if busy && self.pulse < d {
            d = self.pulse;
        }
        if auto && self.refresh < d {
            d = self.refresh;
        }
        match self.sample {
            Some(at) => if at < d { at } else { d },
            None => d,
        }
    }

    /// Automatic refresh was switched: the next one is a full period away.
    pub fn auto_changed(&mut self, now: u64)
        ensures
            *final(self) == (Timers { refresh: later(now, refresh_period()), ..*old(self) }),
    {
        self.refresh = after(now, 5000);
    }

    /// A scan answered: when it asks for a sample, the sample comes a second later.
    pub fn scan_answered(&mut self, now: u64, sample_due: bool)
        ensures
            *final(self) == (if sample_due { Timers { sample: Some(later(now, sample_delay())), ..*old(self) } } else { *old(self) }),
    {
        if sample_due {
            self.sample = Some(after(now, 1000));
        }
    }

    /// A scan or termination was requested: no sample is pending and the animation starts.
    pub fn requested(&mut self, now: u64)
        ensures
            *final(self) == (Timers { sample: None, pulse: later(now, pulse_period()), ..*old(self) }),
    {
        self.sample = None;
        self.pulse = after(now, 120);
    }

    /// Check the timers at `now`.
    pub fn tick(&mut self, now: u64, busy: bool, auto: bool) -> (r: Due)
        ensures
            (*final(self), r) == tick_view(*old(self), now, busy, auto),
    {
        let pulse = busy && now >= self.pulse;
        let refresh = auto && now >= self.refresh;
        let sample = match self.sample {
            Some(at) => now >= at,
            None => false,
        };
        if pulse {
            self.pulse = after(now, 120);
        }
        if refresh {
            self.refresh = after(now, 5000);
        }
        if sample {
            self.sample = None;
        }
        Due { pulse, refresh, sample }
    }
}

/// A timer that came due is set again strictly later, unless time has run out.
pub proof fn law_due_timers_move_on(t: Timers, now: u64, busy: bool, auto: bool)
    requires
        now < u64::MAX - 5000,
    ensures
        tick_view(t, now, busy, auto).1.pulse ==> tick_view(t, now, busy, auto).0.pulse > now,
        tick_view(t, now, busy, auto).1.refresh ==> tick_view(t, now, busy, auto).0.refresh > now,
        tick_view(t, now, busy, auto).1.sample ==> tick_view(t, now, busy, auto).0.sample is None,
        deadline_view(t, now, busy, auto) <= later(now, idle_wait()),
{
}

} // verus!
