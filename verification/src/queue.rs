//! The scanner's single pending request: a new request replaces one that has not started,
//! and shutting down discards what is pending.
use vstd::prelude::*;

verus! {

/// What the scanner thread does next.
#[derive(Debug)]
pub enum Next<T> {
    /// Run this request.
    Run(T),
    /// Sleep until something changes.
    Wait,
    /// Leave the thread.
    Stop,
}

/// The pending request, if any, and whether the scanner is shutting down.
pub struct Pending<T> {
    job: Option<T>,
    shutdown: bool,
}

/// The state after a request: it replaces whatever was pending.
pub open spec fn request_spec<T>(s: (Option<T>, bool), job: T) -> (Option<T>, bool) {
    (Some(job), s.1)
}

/// The state after shutting down: nothing pending.
pub open spec fn close_spec<T>(s: (Option<T>, bool)) -> (Option<T>, bool) {
    (None, true)
}

/// What the scanner does next, and the state after it took its request.
pub open spec fn next_spec<T>(s: (Option<T>, bool)) -> (Next<T>, (Option<T>, bool)) {
    if s.1 {
        (Next::Stop, s)
    } else {
        match s.0 {
            Some(job) => (Next::Run(job), (None, false)),
            None => (Next::Wait, s),
        }
    }
}

impl<T> View for Pending<T> {
    type V = (Option<T>, bool);

    closed spec fn view(&self) -> (Option<T>, bool) {
        (self.job, self.shutdown)
    }
}

impl<T> Pending<T> {
    /// Nothing pending, running.
    pub fn new() -> (r: Self)
        ensures
            r@ == (None::<T>, false),
    {
        Pending { job: None, shutdown: false }
    }

    /// Replace any request that has not started yet.
    pub fn request(&mut self, job: T)
        ensures
            final(self)@ == request_spec(old(self)@, job),
    {
        self.job = Some(job);
    }

    /// Shut down, discarding what is pending.
    pub fn close(&mut self)
        ensures
            final(self)@ == close_spec(old(self)@),
    {
        self.job = None;
        self.shutdown = true;
    }

    /// What the scanner does next; a request it runs is no longer pending.
    pub fn next(&mut self) -> (r: Next<T>)
        ensures
            (r, final(self)@) == next_spec(old(self)@),
    {
        if self.shutdown {
            return Next::Stop;
        }
        match self.job.take() {
            Some(job) => Next::Run(job),
            None => Next::Wait,
        }
    }
}

/// Requests that arrive before the scanner takes one coalesce: only the last one runs.
pub proof fn law_requests_coalesce<T>(s: (Option<T>, bool), first: T, second: T)
    requires
        !s.1,
    ensures
        next_spec(request_spec(request_spec(s, first), second)).0 == Next::Run(second),
        next_spec(request_spec(request_spec(s, first), second)).1 == (None::<T>, false),
{
}

/// After shutting down nothing runs any more, whatever is requested afterwards.
pub proof fn law_shutdown_discards<T>(s: (Option<T>, bool), later: Seq<T>)
    ensures
        next_spec(close_spec(s)).0 == Next::<T>::Stop,
        next_spec(later.fold_left(close_spec(s), |st: (Option<T>, bool), j: T| request_spec(st, j))).0 == Next::<T>::Stop,
{
    lemma_requests_keep_shutdown(close_spec(s), later);
}

/// Requests never end a shutdown.
proof fn lemma_requests_keep_shutdown<T>(s: (Option<T>, bool), later: Seq<T>)
    ensures
        later.fold_left(s, |st: (Option<T>, bool), j: T| request_spec(st, j)).1 == s.1,
    decreases later.len(),
{
    if later.len() > 0 {
        lemma_requests_keep_shutdown(s, later.drop_last());
    }
}

} // verus!
