//! Asynchronous tasks: a heap-owned cooperative computation plus its
//! identity, and the small-step semantics of polling one.

use vstd::prelude::*;
use crate::task_id::{TaskId, TaskIdAllocator};
use crate::timer_future::{PollStatus, TimerFuture, TimerView};
use crate::waker::TaskWaker;

verus! {

/// One suspension point of a cooperative computation.
///
/// A computation is a closed sequence of such points: it runs to the next
/// point each time it is resumed. This tagged representation replaces the
/// original's dynamic dispatch over arbitrary boxed computations, whose set
/// of shapes is closed in this design.
#[derive(Clone, Copy, Debug, PartialEq, Eq, Structural)]
pub enum Step {
    /// Suspend once and invoke the own waker immediately: the task stays
    /// ready and is resumed later in the same drain pass.
    Yield,
    /// Construct a timer future of the given duration and await it: the task
    /// parks until the timer's background worker fires.
    Timer { duration: usize },
}

/// The side effect one poll asks its caller (the executor) to perform; in
/// the original these happen through the waker captured by the computation.
#[derive(Clone, Copy, Debug, PartialEq, Eq, Structural)]
pub enum PollEffect {
    /// No effect beyond the computation's own state.
    NoEffect,
    /// The computation invoked its own waker while suspending: re-admit the
    /// task to the readiness queue.
    WakeSelf,
    /// The computation constructed a timer future: start its background
    /// worker now, blocking for `duration` and then firing the timer.
    StartTimer { duration: usize },
}

/// The mathematical state of a computation: its suspension points, how far
/// it has progressed, and the timer future it is currently awaiting, if any.
#[verifier::ext_equal]
pub struct CompView {
    pub steps: Seq<Step>,
    pub pc: nat,
    pub current: Option<TimerView>,
}

impl CompView {
    /// The timer currently awaited; meaningful only while `current is Some`.
    pub open spec fn cur_timer(self) -> TimerView {
        match self.current {
            Some(tf) => tf,
            None => TimerView { duration: 0, completed: false, waker: None },
        }
    }

    /// Well-formed: the progress counter is in range, and a currently
    /// awaited timer belongs to the timer step the computation stands at.
    pub open spec fn wf(self) -> bool {
        &&& self.pc <= self.steps.len()
        &&& match self.current {
            Some(tf) => self.pc < self.steps.len() && self.steps[self.pc as int] == (Step::Timer {
                duration: tf.duration,
            }),
            None => true,
        }
    }

    /// The computation has run past its last suspension point.
    pub open spec fn is_complete(self) -> bool {
        self.current is None && self.pc == self.steps.len()
    }

    /// Parked on a timer whose background worker has not fired yet: only an
    /// external wake can make further progress.
    pub open spec fn parked_waiting(self) -> bool {
        match self.current {
            Some(tf) => !tf.completed,
            None => false,
        }
    }

    /// Parked on a timer that has already fired: the next poll resumes past
    /// it.
    pub open spec fn parked_fired(self) -> bool {
        match self.current {
            Some(tf) => tf.completed,
            None => false,
        }
    }

    /// The waker stored in the awaited timer, if any.
    pub open spec fn stored_waker(self) -> Option<TaskWaker> {
        match self.current {
            Some(tf) => tf.waker,
            None => None,
        }
    }

    /// Leave the suspension point the computation stands at.
    pub open spec fn advance(self) -> CompView {
        CompView { pc: self.pc + 1, current: None, ..self }
    }

    /// An upper bound on the polls a computation can absorb before it either
    /// completes or must wait for an external wake; drives termination of
    /// the drain pass.
    pub open spec fn measure(self) -> nat {
        let base: nat = if self.pc > self.steps.len() {
            0
        } else {
            (self.steps.len() - self.pc) as nat
        };
        if self.current is Some {
            if base > 0 {
                (2 * base - 1) as nat
            } else {
                0
            }
        } else {
            2 * base
        }
    }
}

/// What one poll with waker `w` does: the successor state, the report to the
/// caller, and the side effect the caller must perform. This is the exact
/// semantics of `Computation::poll`.
pub open spec fn poll_spec(c: CompView, w: TaskWaker) -> (CompView, PollStatus, PollEffect) {
    if c.parked_waiting() {
        // the awaited timer is still pending: store the waker, stay put
        (
            CompView { current: Some(TimerView { waker: Some(w), ..c.cur_timer() }), ..c },
            PollStatus::Pending,
            PollEffect::NoEffect,
        )
    } else {
        // resume past a fired timer, then run to the next suspension point
        let c1 = if c.parked_fired() {
            c.advance()
        } else {
            c
        };
        if c1.pc >= c1.steps.len() {
            (c1, PollStatus::Complete, PollEffect::NoEffect)
        } else {
            match c1.steps[c1.pc as int] {
                Step::Yield => (c1.advance(), PollStatus::Pending, PollEffect::WakeSelf),
                Step::Timer { duration } => (
                    CompView {
                        current: Some(
                            TimerView { duration, completed: false, waker: Some(w) },
                        ),
                        ..c1
                    },
                    PollStatus::Pending,
                    PollEffect::StartTimer { duration },
                ),
            }
        }
    }
}

/// Where a computation comes to rest when it is polled to quiescence with
/// waker `w`, as the drain pass does: `None` if it completes on its own,
/// `Some` of the state parked on an unfired timer otherwise. The second
/// component is the duration of the timer newly started on the way, if any.
pub open spec fn settle(c: CompView, w: TaskWaker) -> (Option<CompView>, Option<usize>)
    decreases c.measure(),
{
    if !c.wf() {
        (Some(c), None)
    } else if c.parked_waiting() {
        (Some(CompView { current: Some(TimerView { waker: Some(w), ..c.cur_timer() }), ..c }), None)
    } else if c.parked_fired() {
        settle(c.advance(), w)
    } else if c.pc >= c.steps.len() {
        (None, None)
    } else {
        match c.steps[c.pc as int] {
            Step::Yield => settle(c.advance(), w),
            Step::Timer { duration } => (
                Some(
                    CompView {
                        current: Some(TimerView { duration, completed: false, waker: Some(w) }),
                        ..c
                    },
                ),
                Some(duration),
            ),
        }
    }
}

/// A computation at rest parked on its own unfired timer is a fixed point of
/// settling: draining again leaves it untouched and starts nothing.
pub proof fn lemma_settle_parked_identity(c: CompView, w: TaskWaker)
    requires
        c.wf(),
        c.parked_waiting(),
        c.stored_waker() == Some(w),
    ensures
        settle(c, w) == (Some(c), None::<usize>),
{
    let c2 = CompView { current: Some(TimerView { waker: Some(w), ..c.cur_timer() }), ..c };
    assert(c2 =~= c);
}

/// Whatever state settling parks a computation in is well formed, has not
/// moved backwards, holds the waker it was polled with, and is again waiting
/// on an unfired timer; moreover a newly started timer is exactly the one
/// the parked state awaits.
pub proof fn lemma_settle_parks(c: CompView, w: TaskWaker)
    requires
        c.wf(),
    ensures
        match settle(c, w).0 {
            Some(cp) => {
                &&& cp.wf()
                &&& cp.parked_waiting()
                &&& cp.stored_waker() == Some(w)
                &&& cp.steps == c.steps
                &&& cp.pc >= c.pc
            },
            None => settle(c, w).1 is None,
        },
        match settle(c, w).1 {
            Some(d) => settle(c, w).0 matches Some(cp) && cp.cur_timer() == (TimerView {
                duration: d,
                completed: false,
                waker: Some(w),
            }),
            None => true,
        },
    decreases c.measure(),
{
    if !c.wf() {
    } else if c.parked_waiting() {
    } else if c.parked_fired() {
        lemma_settle_parks(c.advance(), w);
    } else if c.pc >= c.steps.len() {
    } else {
        match c.steps[c.pc as int] {
            Step::Yield => {
                lemma_settle_parks(c.advance(), w);
            },
            Step::Timer { duration } => {},
        }
    }
}

/// Settling is idempotent: duplicate wakes queued before a drain cannot move
/// a task beyond the state a single drain brings it to.
pub proof fn lemma_settle_idempotent(c: CompView, w: TaskWaker)
    requires
        c.wf(),
    ensures
        match settle(c, w).0 {
            Some(cp) => settle(cp, w) == (Some(cp), None::<usize>),
            None => true,
        },
{
    lemma_settle_parks(c, w);
    match settle(c, w).0 {
        Some(cp) => {
            lemma_settle_parked_identity(cp, w);
        },
        None => {},
    }
}

/// The step `poll_spec` takes preserves where the computation will settle,
/// and reports effects consistently with it. This is what lets the drain
/// pass conclude, queue entry by queue entry, that each task ends at its
/// settled state.
pub proof fn lemma_poll_spec(c: CompView, w: TaskWaker)
    requires
        c.wf(),
    ensures
        ({
            let (c2, st, eff) = poll_spec(c, w);
            &&& c2.wf()
            &&& c2.steps == c.steps
            &&& c2.pc >= c.pc
            &&& (st == PollStatus::Complete ==> settle(c, w) == (None::<CompView>, None::<usize>)
                && eff == PollEffect::NoEffect && c2.is_complete())
            &&& (st == PollStatus::Pending ==> settle(c2, w).0 == settle(c, w).0)
            &&& (st == PollStatus::Pending && eff == PollEffect::NoEffect ==> {
                &&& settle(c2, w).1 == settle(c, w).1
                &&& c2.parked_waiting()
                &&& c2 == (CompView {
                    current: Some(TimerView { waker: Some(w), ..c.cur_timer() }),
                    ..c
                })
                &&& c.parked_waiting()
                &&& c2.measure() == c.measure()
            })
            &&& (st == PollStatus::Pending && eff == PollEffect::WakeSelf ==> {
                &&& settle(c2, w).1 == settle(c, w).1
                &&& !c2.parked_waiting()
                &&& c2.measure() < c.measure()
            })
            &&& (st == PollStatus::Pending && (eff matches PollEffect::StartTimer { duration })
                ==> {
                &&& settle(c, w).1 == Some(
                    match eff {
                        PollEffect::StartTimer { duration } => duration,
                        _ => 0,
                    },
                )
                &&& settle(c2, w).1 is None
                &&& c2.parked_waiting()
                &&& c2.measure() < c.measure()
            })
            &&& (c2.parked_waiting() ==> c2.stored_waker() == Some(w))
            &&& (c.parked_waiting() ==> st == PollStatus::Pending && eff == PollEffect::NoEffect
                && (c.stored_waker() == Some(w) ==> c2 == c))
        }),
{
    let (c2, st, eff) = poll_spec(c, w);
    if c.parked_waiting() {
        assert(c2.wf());
        if c.stored_waker() == Some(w) {
            assert(c2 =~= c);
        }
        lemma_settle_parked_identity(c2, w);
    } else {
        let c1 = if c.parked_fired() {
            c.advance()
        } else {
            c
        };
        assert(c1.wf());
        assert(settle(c, w) == settle(c1, w));
        if c1.pc >= c1.steps.len() {
        } else {
            match c1.steps[c1.pc as int] {
                Step::Yield => {
                    assert(settle(c1, w) == settle(c1.advance(), w));
                },
                Step::Timer { duration } => {
                    assert(c2.parked_waiting());
                    lemma_settle_parked_identity(c2, w);
                    assert(settle(c1, w) == (Some(c2), Some(duration)));
                },
            }
        }
    }
}

/// An owned cooperative computation: the executable counterpart of
/// `CompView`.
#[verifier::ext_equal]
pub struct Computation {
    steps: Vec<Step>,
    pc: usize,
    current: Option<TimerFuture>,
}

impl View for Computation {
    type V = CompView;

    closed spec fn view(&self) -> CompView {
        CompView {
            steps: self.steps@,
            pc: self.pc as nat,
            current: match self.current {
                Some(ref tf) => Some(tf@),
                None => None,
            },
        }
    }
}

impl Computation {
    /// A computation about to run towards its first suspension point.
    pub fn new(steps: Vec<Step>) -> (r: Computation)
        ensures
            r@ == (CompView { steps: steps@, pc: 0, current: None::<TimerView> }),
            r@.wf(),
    {
        Computation { steps, pc: 0, current: None }
    }

    /// Resume the computation once, with `waker` as its wake channel; the
    /// exact behaviour is `poll_spec`. The caller must perform the returned
    /// effect.
    pub fn poll(&mut self, waker: TaskWaker) -> (r: (PollStatus, PollEffect))
        requires
            old(self)@.wf(),
        ensures
            (final(self)@, r.0, r.1) == poll_spec(old(self)@, waker),
    {
        let ghost pre = self@;
        let n = self.steps.len();
        match self.current.take() {
            Some(mut tf) => {
                match tf.poll(waker) {
                    PollStatus::Pending => {
                        // still waiting: the waker is stored, nothing else moves
                        self.current = Some(tf);
                        assert(self@ =~= poll_spec(pre, waker).0);
                        return (PollStatus::Pending, PollEffect::NoEffect);
                    },
                    PollStatus::Complete => {
                        // the timer fired: resume past its step
                        assert(pre.current is Some && self.pc < n);
                        self.pc = self.pc + 1;
                    },
                }
            },
            None => {},
        }
        if self.pc >= self.steps.len() {
            assert(self@ =~= poll_spec(pre, waker).0);
            return (PollStatus::Complete, PollEffect::NoEffect);
        }
        let step = self.steps[self.pc];
        match step {
            Step::Yield => {
                self.pc = self.pc + 1;
                assert(self@ =~= poll_spec(pre, waker).0);
                (PollStatus::Pending, PollEffect::WakeSelf)
            },
            Step::Timer { duration } => {
                let mut tf = TimerFuture::new(duration);
                let _ = tf.poll(waker);
                self.current = Some(tf);
                assert(self@ =~= poll_spec(pre, waker).0);
                (PollStatus::Pending, PollEffect::StartTimer { duration })
            },
        }
    }

    /// Whether the computation is parked on a timer that has not fired.
    pub fn is_waiting(&self) -> (r: bool)
        ensures
            r == self@.parked_waiting(),
    {
        match self.current {
            Some(ref tf) => !tf.is_completed(),
            None => false,
        }
    }

    /// How many suspension points the computation has run past.
    pub fn progress(&self) -> (r: usize)
        ensures
            r as nat == self@.pc,
    {
        self.pc
    }

    /// The worker side of the timer this computation is parked on: mark it
    /// completed and surrender the stored waker.
    pub fn fire(&mut self) -> (w: Option<TaskWaker>)
        requires
            old(self)@.parked_waiting(),
        ensures
            final(self)@ == (CompView {
                current: Some(
                    TimerView {
                        duration: old(self)@.cur_timer().duration,
                        completed: true,
                        waker: None::<TaskWaker>,
                    },
                ),
                ..old(self)@
            }),
            w == old(self)@.stored_waker(),
    {
        let ghost pre = self@;
        match self.current.take() {
            Some(mut tf) => {
                let w = tf.fire();
                self.current = Some(tf);
                assert(self@ =~= (CompView {
                    current: Some(
                        TimerView {
                            duration: pre.cur_timer().duration,
                            completed: true,
                            waker: None::<TaskWaker>,
                        },
                    ),
                    ..pre
                }));
                w
            },
            None => unreached(),
        }
    }
}

/// The mathematical state of a task: its identity and its computation.
#[verifier::ext_equal]
pub struct TaskView {
    pub id: TaskId,
    pub comp: CompView,
}

impl TaskView {
    /// The waker every poll of the task receives: bound to its identity.
    pub open spec fn own_waker(self) -> TaskWaker {
        TaskWaker { task_id: self.id }
    }
}

/// Where a task comes to rest when drained to quiescence: its computation
/// settled under its own waker.
pub open spec fn settle_task(t: TaskView) -> (Option<CompView>, Option<usize>) {
    settle(t.comp, t.own_waker())
}

/// A pinned, heap-owned asynchronous computation plus its identity. While
/// alive it is owned exclusively by the executor's task table; the identity
/// is immutable after creation.
pub struct TaskAsync {
    id: TaskId,
    computation: Computation,
}

impl View for TaskAsync {
    type V = TaskView;

    closed spec fn view(&self) -> TaskView {
        TaskView { id: self.id, comp: self.computation@ }
    }
}

impl TaskAsync {
    /// Takes ownership of a computation and binds a freshly allocated
    /// identity to it. The identity allocator is explicit here rather than a
    /// hidden process-wide counter, so spawning sites share one.
    pub fn new(computation: Computation, ids: &mut TaskIdAllocator) -> (r: TaskAsync)
        requires
            old(ids).spec_next() < u64::MAX,
        ensures
            r@.id.value == old(ids).spec_next(),
            r@.comp == computation@,
            final(ids).spec_next() == old(ids).spec_next() + 1,
    {
        TaskAsync { id: ids.allocate(), computation }
    }

    /// The task's identity.
    pub fn id(&self) -> (r: TaskId)
        ensures
            r == self@.id,
    {
        self.id
    }

    /// Resumes the owned computation exactly once; `waker` supplies the wake
    /// channel the executor has cached for the task.
    pub fn poll(&mut self, waker: TaskWaker) -> (r: (PollStatus, PollEffect))
        requires
            old(self)@.comp.wf(),
        ensures
            final(self)@.id == old(self)@.id,
            (final(self)@.comp, r.0, r.1) == poll_spec(old(self)@.comp, waker),
    {
        self.computation.poll(waker)
    }

    /// Whether the owned computation is parked on an unfired timer.
    pub fn is_waiting(&self) -> (r: bool)
        ensures
            r == self@.comp.parked_waiting(),
    {
        self.computation.is_waiting()
    }

    /// How many suspension points the owned computation has run past.
    pub fn progress(&self) -> (r: usize)
        ensures
            r as nat == self@.comp.pc,
    {
        self.computation.progress()
    }

    /// Fire the timer the owned computation is parked on.
    pub fn fire(&mut self) -> (w: Option<TaskWaker>)
        requires
            old(self)@.comp.parked_waiting(),
        ensures
            final(self)@.id == old(self)@.id,
            final(self)@.comp == (CompView {
                current: Some(
                    TimerView {
                        duration: old(self)@.comp.cur_timer().duration,
                        completed: true,
                        waker: None::<TaskWaker>,
                    },
                ),
                ..old(self)@.comp
            }),
            w == old(self)@.comp.stored_waker(),
    {
        self.computation.fire()
    }
}

} // verus!
