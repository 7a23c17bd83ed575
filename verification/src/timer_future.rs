//! A future completed by a background unit of blocking work.

use vstd::prelude::*;
use crate::waker::TaskWaker;

verus! {

/// What one resumption attempt of a computation reports: a terminal result,
/// or the indication that it cannot progress yet.
#[derive(Clone, Copy, Debug, PartialEq, Eq, Structural)]
pub enum PollStatus {
    /// The computation reached completion.
    Complete,
    /// The computation cannot progress yet; it will be re-admitted by
    /// whichever party invokes its waker.
    Pending,
}

/// The state a `TimerFuture` shares with its background worker: a completion
/// flag and the waker stored by the task currently awaiting the future.
pub struct TimerView {
    /// The requested duration, in the platform's time units.
    pub duration: usize,
    /// Set exactly once, by the background worker, when the duration elapsed.
    pub completed: bool,
    /// The waker of the single task awaiting this future; absent until the
    /// future is first polled without being ready, and taken by the worker
    /// when it completes the future.
    pub waker: Option<TaskWaker>,
}

/// A future whose readiness is satisfied by a separate, preemptively
/// scheduled unit of work.
///
/// Constructing one hands the embedding a request to run that work at once
/// (blocking for `duration`, then calling `fire`), so the timer begins
/// counting at construction, independent of when the future is first polled.
/// In the original design the two sides share this state behind a lock; here
/// the future owns it exclusively, and the mutual-exclusion obligation falls
/// to the embedding that runs the worker.
///
/// Only one task may await a given instance at a time: a second concurrent
/// poller would overwrite the stored waker, which is unsupported.
#[verifier::ext_equal]
pub struct TimerFuture {
    duration: usize,
    completed: bool,
    waker: Option<TaskWaker>,
}

impl View for TimerFuture {
    type V = TimerView;

    closed spec fn view(&self) -> TimerView {
        TimerView { duration: self.duration, completed: self.completed, waker: self.waker }
    }
}

impl TimerFuture {
    /// A future that is not yet completed and has no stored waker. The
    /// embedding that receives the accompanying timer request must block for
    /// `duration` on its own context and then call `fire`.
    pub fn new(duration: usize) -> (r: TimerFuture)
        ensures
            r@ == (TimerView { duration, completed: false, waker: None::<TaskWaker> }),
    {
        TimerFuture { duration, completed: false, waker: None }
    }

    /// One readiness check by the awaiting task: complete immediately if the
    /// worker already fired, with no further side effect; otherwise store the
    /// caller's waker (overwriting any previously stored one) and report
    /// pending. May be polled again after completion; that stays complete.
    pub fn poll(&mut self, waker: TaskWaker) -> (r: PollStatus)
        ensures
            old(self)@.completed ==> r == PollStatus::Complete && final(self)@ == old(self)@,
            !old(self)@.completed ==> {
                &&& r == PollStatus::Pending
                &&& final(self)@ == (TimerView { waker: Some(waker), ..old(self)@ })
            },
    {
        if self.completed {
            PollStatus::Complete
        } else {
            self.waker = Some(waker);
            PollStatus::Pending
        }
    }

    /// The decision part of the background worker's body, run after its
    /// blocking wait ends (whether or not that wait reported an error): mark
    /// the future completed and surrender the stored waker, which the worker
    /// must then invoke. Idempotent on the shared state; the waker comes out
    /// at most once.
    pub fn fire(&mut self) -> (w: Option<TaskWaker>)
        ensures
            final(self)@ == (TimerView { completed: true, waker: None::<TaskWaker>, ..old(self)@ }),
            w == old(self)@.waker,
    {
        self.completed = true;
        let w = self.waker;
        self.waker = None;
        w
    }

    /// The duration this future's background work blocks for.
    pub fn duration(&self) -> (r: usize)
        ensures
            r == self@.duration,
    {
        self.duration
    }

    /// Whether the background worker has fired yet.
    pub fn is_completed(&self) -> (r: bool)
        ensures
            r == self@.completed,
    {
        self.completed
    }
}

} // verus!
