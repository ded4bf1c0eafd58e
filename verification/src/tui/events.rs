//! The run loop's events: answers of scans, samples and terminations, and the passing of
//! time.
use vstd::prelude::*;
use crate::model::{error_text, Error, Identity, Metrics, Snapshot};
use crate::state::{
    join_with, key_fits, killed_spec, metrics_spec, EffectView, killed_status, press_spec, scan_finished_spec, AppView, Effect,
    KeyCode, KeyEvent, Screen,
};
use crate::text::{chars_of, decimal_of, to_string};
use crate::tui::{distinct, tree_ok, App};

verus! {

/// Append the characters `s` to `out`.
fn append(out: &mut Vec<char>, s: &Vec<char>)
    ensures
        final(out)@ == old(out)@ + s@,
{
    let mut i: usize = 0;
    while i < s.len()
        invariant
            i <= s@.len(),
            out@ == old(out)@ + s@.take(i as int),
        decreases s@.len() - i,
    {
        out.push(s[i]);
        assert(s@.take(i as int + 1) =~= s@.take(i as int).push(s@[i as int]));
        i = i + 1;
    }
    assert(s@.take(s@.len() as int) =~= s@);
}

/// The status after termination requests.
fn killed_text(sent: usize, errors: &Vec<String>) -> (r: String)
    ensures
        r@ == killed_status(sent as nat, errors@.map_values(|e: String| e@)),
{
    let ghost es = errors@.map_values(|e: String| e@);
    let mut out = decimal_of(sent as u64);
    append(&mut out, &chars_of(" termination requests sent"));
    if errors.len() > 0 {
        append(&mut out, &chars_of(" · "));
        let ghost head = out@;
        let mut k: usize = 0;
        while k < errors.len()
            invariant
                k <= errors@.len(),
                es == errors@.map_values(|e: String| e@),
                out@ == head + join_with(es.take(k as int), "; "@),
            decreases errors@.len() - k,
        {
            if k > 0 {
                append(&mut out, &chars_of("; "));
            }
            append(&mut out, &chars_of(errors[k].as_str()));
            proof {
                let t = es.take(k as int + 1);
                assert(t.drop_last() =~= es.take(k as int));
                assert(t.last() == errors@[k as int]@);
                if k == 0 {
                    assert(es.take(0) =~= Seq::<Seq<char>>::empty());
                    assert(out@ =~= head + join_with(t, "; "@));
                } else {
                    assert(out@ =~= head + join_with(t, "; "@));
                }
            }
            k = k + 1;
        }
        assert(es.take(errors@.len() as int) =~= es);
    }
    to_string(&out)
}


/// The bookkeeping of requests to the scanner: the generation of the latest scan or
/// termination request, whether a sample is under way, and whether a finished scan asks
/// for a sample.
#[derive(Clone, Copy, Debug, PartialEq, Eq)]
pub struct Requests {
    pub generation: u64,
    pub sampling: bool,
    pub sample_due: bool,
}

/// What the scanner answers.
#[derive(Debug)]
pub enum Answer {
    Scan(Result<Snapshot, Error>),
    Metrics(Result<Vec<(Identity, Metrics)>, Error>),
    /// How many termination requests were sent, and the failures.
    Killed(usize, Vec<String>),
}

impl Requests {
    /// The first generation, before any request.
    pub fn new() -> (r: Self)
        ensures
            r == (Requests { generation: 0, sampling: false, sample_due: false }),
    {
        Requests { generation: 0, sampling: false, sample_due: false }
    }
}

impl App {
    /// Termination requests were answered: report them; after any was sent, clear the
    /// ancestry and the selection.
    pub fn killed(&mut self, sent: usize, errors: Vec<String>)
        requires
            old(self).wf(),
        ensures
            final(self).wf(),
            final(self)@ == killed_spec(old(self)@, sent as nat, errors@.map_values(|e: String| e@)),
    {
        proof {
            reveal(killed_spec);
            reveal(App::abstraction);
            reveal(tree_ok);
            reveal(distinct);
        }
        let text = killed_text(sent, &errors);
        self.stopping = false;
        self.error = errors.len() > 0;
        self.status = text;
        if sent > 0 {
            self.tree = None;
            self.selected = Vec::new();
            assert(self.selected@.to_set() =~= Set::<Identity>::empty());
        }
    }

    /// A scan ended: take its snapshot; ignore a cancellation; report a failure.
    pub fn scan_finished(&mut self, result: Result<Snapshot, Error>)
        requires
            old(self).wf(),
        ensures
            final(self).wf(),
            final(self)@ == scan_finished_spec(old(self)@, result),
    {
        proof {
            reveal(scan_finished_spec);
        }
        self.set_scanning(false);
        match result {
            Ok(snapshot) => self.replace(snapshot),
            Err(Error::Cancelled) => {},
            Err(e) => self.scan_failed(&e),
        }
    }

    /// Report a failed scan.
    fn scan_failed(&mut self, e: &Error)
        requires
            old(self).wf(),
        ensures
            final(self).wf(),
            final(self)@ == (AppView { status: "Scan failed: "@ + error_text(*e), error: true, ..old(self)@ }),
    {
        proof {
            reveal(App::abstraction);
        }
        let mut out = chars_of("Scan failed: ");
        append(&mut out, &chars_of(e.text().as_str()));
        self.status = to_string(&out);
        self.error = true;
    }

    /// Mark whether a scan is under way.
    pub fn set_scanning(&mut self, v: bool)
        requires
            old(self).wf(),
        ensures
            final(self).wf(),
            final(self)@ == (AppView { scanning: v, ..old(self)@ }),
    {
        proof {
            reveal(App::abstraction);
        }
        self.scanning = v;
    }

    /// Report that a link could not be opened.
    pub fn link_failed(&mut self, detail: &str)
        requires
            old(self).wf(),
        ensures
            final(self).wf(),
            final(self)@ == (AppView { status: "Open browser: "@ + detail@, error: true, ..old(self)@ }),
    {
        proof {
            reveal(App::abstraction);
        }
        let mut out = chars_of("Open browser: ");
        append(&mut out, &chars_of(detail));
        self.status = to_string(&out);
        self.error = true;
    }

    /// Advance the activity animation.
    pub fn pulse_tick(&mut self)
        requires
            old(self).wf(),
        ensures
            final(self).wf(),
            final(self)@ == (AppView { pulse: ((old(self)@.pulse as int + 1) % 4) as usize, ..old(self)@ }),
    {
        proof {
            reveal(App::abstraction);
        }
        let p = self.pulse;
        assert((p % 4 + 1) % 4 == (p as int + 1) % 4) by (nonlinear_arith);
        self.pulse = (p % 4 + 1) % 4;
    }

    /// Apply an answer of the scanner. Scan and sample results count only when they answer
    /// the latest request (older generations are ignored); a termination report always
    /// counts and asks for a new scan.
    pub fn answer(&mut self, requests: &mut Requests, generation: u64, answer: Answer) -> (r: Effect)
        requires
            old(self).wf(),
        ensures
            final(self).wf(),
            !(answer is Killed) && generation != old(requests).generation ==> final(self)@ == old(self)@
                && *final(requests) == *old(requests) && r@ == EffectView::Nothing,
            generation == old(requests).generation ==> (answer matches Answer::Scan(res) ==> {
                &&& final(self)@ == scan_finished_spec(old(self)@, res)
                &&& *final(requests) == (Requests { sampling: false, sample_due: res is Ok, ..*old(requests) })
                &&& r@ == EffectView::Nothing
            }),
            generation == old(requests).generation ==> (answer matches Answer::Metrics(res) ==> {
                &&& final(self)@ == (match res {
                    Ok(ms) => metrics_spec(old(self)@, ms@),
                    Err(_) => old(self)@,
                })
                &&& *final(requests) == (Requests { sampling: false, ..*old(requests) })
                &&& r@ == EffectView::Nothing
            }),
            answer matches Answer::Killed(sent, errors) ==> {
                &&& final(self)@ == killed_spec(old(self)@, sent as nat, errors@.map_values(|e: String| e@))
                &&& *final(requests) == *old(requests)
                &&& r@ == EffectView::Scan
            },
    {
        match answer {
            Answer::Killed(sent, errors) => {
                self.killed(sent, errors);
                Effect::Scan
            },
            Answer::Scan(res) => {
                if generation == requests.generation {
                    let ok = res.is_ok();
                    self.scan_finished(res);
                    requests.sampling = false;
                    requests.sample_due = ok;
                }
                Effect::Nothing
            },
            Answer::Metrics(res) => {
                if generation == requests.generation {
                    requests.sampling = false;
                    match res {
                        Ok(ms) => self.metrics(ms),
                        Err(_) => {},
                    }
                }
                Effect::Nothing
            },
        }
    }

    /// Take a fresh generation for a scan or termination request and mark what is under
    /// way; other effects make no request.
    pub fn request(&mut self, requests: &mut Requests, effect: &Effect) -> (r: Option<u64>)
        requires
            old(self).wf(),
            old(requests).generation < u64::MAX,
        ensures
            final(self).wf(),
            (effect is Scan || effect is Kill) ==> {
                &&& r == Some((old(requests).generation + 1) as u64)
                &&& *final(requests) == (Requests { generation: (old(requests).generation + 1) as u64, sampling: false, sample_due: false })
                &&& final(self)@ == (AppView { scanning: effect is Scan, ..old(self)@ })
            },
            !(effect is Scan || effect is Kill) ==> r is None && *final(requests) == *old(requests) && final(self)@ == old(self)@,
    {
        match effect {
            Effect::Scan | Effect::Kill(_, _) => {
                requests.generation = requests.generation + 1;
                requests.sampling = false;
                requests.sample_due = false;
                let scanning = match effect {
                    Effect::Scan => true,
                    _ => false,
                };
                self.set_scanning(scanning);
                Some(requests.generation)
            },
            _ => None,
        }
    }

    /// Start a sample of the current generation when nothing else is under way.
    pub fn start_sampling(&self, requests: &mut Requests) -> (r: Option<u64>)
        ensures
            (!self@.scanning && !self@.stopping) ==> r == Some(old(requests).generation)
                && *final(requests) == (Requests { sampling: true, sample_due: false, ..*old(requests) }),
            !(!self@.scanning && !self@.stopping) ==> r is None
                && *final(requests) == (Requests { sample_due: false, ..*old(requests) }),
    {
        requests.sample_due = false;
        if self.may_sample() {
            requests.sampling = true;
            Some(requests.generation)
        } else {
            None
        }
    }

    /// Whether an automatic refresh may start: nothing else is under way.
    pub fn may_refresh(&self, sampling: bool) -> (r: bool)
        ensures
            r == (!self@.scanning && !self@.stopping && !sampling),
    {
        proof {
            reveal(App::abstraction);
        }
        !self.scanning && !self.stopping && !sampling
    }

    /// Whether a sample may be taken: no scan or termination is under way.
    pub fn may_sample(&self) -> (r: bool)
        ensures
            r == (!self@.scanning && !self@.stopping),
    {
        proof {
            reveal(App::abstraction);
        }
        !self.scanning && !self.stopping
    }

    /// The birth identities of the processes, to sample.
    pub fn identities(&self) -> (r: Vec<Identity>)
        ensures
            r@ == self@.processes.map_values(|p: crate::model::ProcessView| p.identity),
    {
        proof {
            reveal(App::abstraction);
        }
        let mut out: Vec<Identity> = Vec::new();
        let mut i: usize = 0;
        while i < self.snapshot.processes.len()
            invariant
                i <= self.snapshot.processes@.len(),
                out@ == self.snapshot.processes@.take(i as int).map_values(|p: crate::model::Process| p.identity),
            decreases self.snapshot.processes@.len() - i,
        {
            out.push(self.snapshot.processes[i].identity);
            assert(self.snapshot.processes@.take(i as int + 1).map_values(|p: crate::model::Process| p.identity)
                =~= self.snapshot.processes@.take(i as int).map_values(|p: crate::model::Process| p.identity).push(
                self.snapshot.processes@[i as int].identity,
            ));
            i = i + 1;
        }
        assert(self.snapshot.processes@.take(self.snapshot.processes@.len() as int) =~= self.snapshot.processes@);
        assert(out@ =~= self@.processes.map_values(|p: crate::model::ProcessView| p.identity));
        out
    }

    fn press_select(&mut self, key: KeyEvent)
        requires
            old(self).wf(),
            !old(self)@.editing && old(self)@.screen == Screen::Main && old(self)@.tree is None && key.code
                == KeyCode::Char('a') && key.control,
        ensures
            final(self).wf(),
            final(self)@ == press_spec(old(self)@, key).0,
            press_spec(old(self)@, key).1 == crate::state::EffectView::Nothing,
    {
        proof {
            reveal(press_spec);
        }
        self.select_all();
    }

    fn press_key(&mut self, key: KeyEvent) -> (e: Effect)
        requires
            old(self).wf(),
            key_fits(old(self)@, key),
            !(!old(self)@.editing && old(self)@.screen == Screen::Main && old(self)@.tree is None && key.code
                == KeyCode::Char('a') && key.control),
        ensures
            final(self).wf(),
            final(self)@ == press_spec(old(self)@, key).0,
            e@ == press_spec(old(self)@, key).1,
    {
        proof {
            reveal(press_spec);
        }
        self.key(key)
    }

    /// A key press from the terminal: Ctrl-A on the table selects every row; everything
    /// else is handled as a key.
    pub fn press(&mut self, key: KeyEvent) -> (e: Effect)
        requires
            old(self).wf(),
            key_fits(old(self)@, key),
        ensures
            final(self).wf(),
            final(self)@ == press_spec(old(self)@, key).0,
            e@ == press_spec(old(self)@, key).1,
    {
        proof {
            self.lemma_mode();
        }
        if !self.editing && self.screen == Screen::Main && self.tree.is_none() && key.code == KeyCode::Char('a') && key.control {
            self.press_select(key);
            Effect::Nothing
        } else {
            self.press_key(key)
        }
    }
}

} // verus!
