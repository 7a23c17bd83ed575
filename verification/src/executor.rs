//! The executor: owns the task table and the readiness queue, drains ready
//! tasks by polling them, lazily materializes and caches wakers, and hands
//! the embedding the actions only it can perform (starting background timer
//! workers, and parking the hardware thread between passes).

use vstd::prelude::*;
use crate::ready_queue::{
    queue_capacity, queue_entries, queue_is_empty, queue_is_full, queue_new, queue_pop, queue_push,
};
use crate::task_async::{
    lemma_poll_spec, lemma_settle_parked_identity, lemma_settle_parks, poll_spec, settle_task,
    CompView, PollEffect, TaskAsync, TaskView,
};
use crate::timer_future::{PollStatus, TimerView};
use crate::task_id::TaskId;
use crate::task_table::{
    find_task, lemma_find_id, table_measure, unique_ids, TaskTable,
};
use crate::waker::{find_waker, unique_waker_ids, TaskWaker, WakerCache};

verus! {

/// The readiness queue's capacity when none is chosen explicitly.
pub const DEFAULT_QUEUE_CAPACITY: usize = 100;

/// The unrecoverable conditions of the scheduler. The embedding treats both
/// as fatal: there is no silent drop of spawned work.
#[derive(Clone, Copy, Debug, PartialEq, Eq, Structural)]
pub enum ExecutorError {
    /// A spawned task's identity is already present in the task table:
    /// identities are allocator-guaranteed unique, so a collision signals an
    /// allocator or caller defect.
    DuplicateTaskId,
    /// The bounded readiness queue is at capacity: a resource-sizing bug,
    /// not a recoverable runtime condition. The operation that hit it has
    /// left the scheduler's state unchanged.
    QueueFull,
}

/// What a drain-and-return `run` found when the readiness queue was empty.
#[derive(Clone, Copy, Debug, PartialEq, Eq, Structural)]
pub enum RunStatus {
    /// The task table is empty: every spawned computation completed.
    Completed,
    /// Tasks remain, every one parked on an unfired timer: progress now
    /// requires an external wake (`fire_timer`).
    Waiting,
}

/// A unit of background work handed to the embedding, which must run it on
/// the preemptive task facility at once: block for `duration`, then call
/// `fire_timer(task_id)` on this executor.
#[derive(Clone, Copy, Debug, PartialEq, Eq, Structural)]
pub struct TimerRequest {
    /// The task awaiting the timer.
    pub task_id: TaskId,
    /// How long the worker blocks before firing, in platform time units.
    pub duration: usize,
}

/// A single-threaded cooperative executor: one instance services one
/// hardware thread context; instances share no state.
pub struct Executor {
    tasks: TaskTable,
    task_queue: crossbeam_queue::ArrayQueue<u64>,
    waker_cache: WakerCache,
}

impl Executor {
    /// The identities currently in the readiness queue, oldest first.
    /// Entries may be stale; the drain pass tolerates them.
    pub closed spec fn sq(self) -> Seq<u64> {
        queue_entries(self.task_queue)
    }

    /// The readiness queue's fixed capacity.
    pub closed spec fn scap(self) -> nat {
        queue_capacity(self.task_queue)
    }

    /// The live tasks, as identity-tagged computation states.
    pub closed spec fn stasks(self) -> Seq<TaskView> {
        self.tasks@
    }

    /// The cached wakers.
    pub closed spec fn scache(self) -> Seq<TaskWaker> {
        self.waker_cache@
    }

    /// The executor's internal invariant: identities are unique; the queue
    /// respects its bound; every live computation is well formed; a parked
    /// computation stores exactly its own waker; every computation that is
    /// not parked on an unfired timer is scheduled (its identity is in the
    /// queue), so nothing runnable is ever lost; and each cached waker is
    /// the one belonging to a live task.
    pub open spec fn wf(self) -> bool {
        &&& unique_ids(self.stasks())
        &&& unique_waker_ids(self.scache())
        &&& self.sq().len() <= self.scap()
        &&& 1 <= self.scap()
        &&& forall|id: u64|
            #![trigger find_task(self.stasks(), id)]
            match find_task(self.stasks(), id) {
                Some(tv) => {
                    &&& tv.id.value == id
                    &&& tv.comp.wf()
                    &&& (tv.comp.parked_waiting() ==> tv.comp.stored_waker() == Some(
                        tv.own_waker(),
                    ))
                    &&& (!tv.comp.parked_waiting() ==> self.sq().contains(id))
                },
                None => true,
            }
        &&& forall|id: u64|
            #![trigger find_waker(self.scache(), id)]
            match find_waker(self.scache(), id) {
                Some(w) => w.task_id.value == id && find_task(self.stasks(), id) is Some,
                None => true,
            }
    }

    /// A fresh executor whose readiness queue holds at most `capacity`
    /// identities.
    pub fn with_capacity(capacity: usize) -> (r: Executor)
        requires
            1 <= capacity <= 0x1000_0000,
        ensures
            r.wf(),
            r.stasks().len() == 0,
            r.sq().len() == 0,
            r.scache().len() == 0,
            r.scap() == capacity as nat,
    {
        Executor {
            tasks: TaskTable::new(),
            task_queue: queue_new(capacity),
            waker_cache: WakerCache::new(),
        }
    }

    /// A fresh executor with the default queue capacity.
    pub fn new() -> (r: Executor)
        ensures
            r.wf(),
            r.stasks().len() == 0,
            r.sq().len() == 0,
            r.scache().len() == 0,
            r.scap() == DEFAULT_QUEUE_CAPACITY as nat,
    {
        Executor::with_capacity(DEFAULT_QUEUE_CAPACITY)
    }

    /// The number of live tasks.
    pub fn task_count(&self) -> (r: usize)
        ensures
            r == self.stasks().len(),
    {
        self.tasks.len()
    }

    /// Whether a task with this identity is live.
    pub fn contains_task(&self, id: TaskId) -> (r: bool)
        ensures
            r == (find_task(self.stasks(), id.value) is Some),
    {
        self.tasks.contains(id.value)
    }

    /// How many suspension points the task's computation has run past.
    pub fn progress_of(&self, id: TaskId) -> (r: Option<usize>)
        ensures
            match find_task(self.stasks(), id.value) {
                Some(tv) => r == Some(tv.comp.pc as usize),
                None => r is None,
            },
    {
        self.tasks.progress_of(id.value)
    }

    /// Whether the task is parked on an unfired timer.
    pub fn is_waiting(&self, id: TaskId) -> (r: bool)
        ensures
            r == (find_task(self.stasks(), id.value) matches Some(tv)
                && tv.comp.parked_waiting()),
    {
        self.tasks.is_waiting(id.value)
    }

    /// Whether the readiness queue is empty. The embedding's idle policy
    /// re-checks this with external-event delivery disabled before parking
    /// the hardware thread, to close the lost-wakeup window.
    pub fn queue_is_empty(&self) -> (r: bool)
        ensures
            r == (self.sq().len() == 0),
    {
        queue_is_empty(&self.task_queue)
    }

    /// The cached waker for the given task, if it was ever polled and is still
    /// live: the same capability its computation receives.
    pub fn waker_for(&self, id: TaskId) -> (r: Option<TaskWaker>)
        ensures
            r == find_waker(self.scache(), id.value),
    {
        self.waker_cache.lookup(id.value)
    }

    /// Admit a new task: insert it into the task table under its identity
    /// and admit that identity to the readiness queue. Fails fatally
    /// (reporting the defect, with the scheduler unchanged) on an identity
    /// collision or a full queue.
    pub fn spawn(&mut self, task: TaskAsync) -> (r: Result<(), ExecutorError>)
        requires
            old(self).wf(),
            task@.comp.wf(),
            task@.comp.current is None,
        ensures
            final(self).wf(),
            final(self).scap() == old(self).scap(),
            final(self).scache() == old(self).scache(),
            if find_task(old(self).stasks(), task@.id.value) is Some {
                &&& r == Err::<(), ExecutorError>(ExecutorError::DuplicateTaskId)
                &&& final(self).stasks() == old(self).stasks()
                &&& final(self).sq() == old(self).sq()
            } else if old(self).sq().len() >= old(self).scap() {
                &&& r == Err::<(), ExecutorError>(ExecutorError::QueueFull)
                &&& final(self).stasks() == old(self).stasks()
                &&& final(self).sq() == old(self).sq()
            } else {
                &&& r == Ok::<(), ExecutorError>(())
                &&& final(self).stasks() == old(self).stasks().push(task@)
                &&& final(self).sq() == old(self).sq().push(task@.id.value)
            },
    {
        let id = task.id();
        if self.tasks.contains(id.value) {
            return Err(ExecutorError::DuplicateTaskId);
        }
        match queue_push(&mut self.task_queue, id.value) {
            Err(_) => Err(ExecutorError::QueueFull),
            Ok(()) => {
                let ghost mid = *self;
                self.tasks.insert(task);
                proof {
                    lemma_push_contains_all(old(self).sq(), id.value);
                    assert forall|j: u64| #![trigger find_task(self.stasks(), j)] true implies match find_task(
                        self.stasks(),
                        j,
                    ) {
                        Some(tv) => {
                            &&& tv.id.value == j
                            &&& tv.comp.wf()
                            &&& (tv.comp.parked_waiting() ==> tv.comp.stored_waker() == Some(
                                tv.own_waker(),
                            ))
                            &&& (!tv.comp.parked_waiting() ==> self.sq().contains(j))
                        },
                        None => true,
                    } by {
                        lemma_find_id(self.stasks(), j);
                        if j != task@.id.value {
                            assert(find_task(self.stasks(), j) == find_task(
                                old(self).stasks(),
                                j,
                            ));
                        }
                    }
                }
                Ok(())
            },
        }
    }

    /// Invoke a waker: push the task identity it is bound to onto the
    /// readiness queue. Safe for any holder of the capability to request
    /// from any context (the queue itself is multi-producer); duplicate
    /// invocations at worst add stale entries. Fails fatally when the
    /// bounded queue is at capacity, with the scheduler unchanged.
    pub fn wake(&mut self, waker: &TaskWaker) -> (r: Result<(), ExecutorError>)
        requires
            old(self).wf(),
        ensures
            final(self).wf(),
            final(self).scap() == old(self).scap(),
            final(self).stasks() == old(self).stasks(),
            final(self).scache() == old(self).scache(),
            if old(self).sq().len() >= old(self).scap() {
                &&& r == Err::<(), ExecutorError>(ExecutorError::QueueFull)
                &&& final(self).sq() == old(self).sq()
            } else {
                &&& r == Ok::<(), ExecutorError>(())
                &&& final(self).sq() == old(self).sq().push(waker.task_id.value)
            },
    {
        match queue_push(&mut self.task_queue, waker.task_id.value) {
            Ok(()) => {
                proof {
                    lemma_push_contains_all(old(self).sq(), waker.task_id.value);
                }
                Ok(())
            },
            Err(_) => Err(ExecutorError::QueueFull),
        }
    }

    /// The fired computation state `fire_timer` leaves behind: the awaited
    /// timer completed, its stored waker taken.
    pub open spec fn fired_comp(c: CompView) -> CompView {
        CompView {
            current: Some(
                TimerView {
                    duration: c.cur_timer().duration,
                    completed: true,
                    waker: None,
                },
            ),
            ..c
        }
    }

    /// What a timer's background worker does when its blocking wait ends:
    /// under exclusive access to the shared state, set the completion flag,
    /// take the stored waker, and invoke it — which re-admits the awaiting
    /// task to the readiness queue. A fire for a task that is gone or not
    /// parked is a harmless no-op (the worker outlived its waiter). Fails
    /// fatally on a full queue, with the scheduler unchanged.
    pub fn fire_timer(&mut self, id: TaskId) -> (r: Result<bool, ExecutorError>)
        requires
            old(self).wf(),
        ensures
            final(self).wf(),
            final(self).scap() == old(self).scap(),
            final(self).scache() == old(self).scache(),
            if find_task(old(self).stasks(), id.value) matches Some(tv)
                && tv.comp.parked_waiting() {
                if old(self).sq().len() >= old(self).scap() {
                    &&& r == Err::<bool, ExecutorError>(ExecutorError::QueueFull)
                    &&& final(self).stasks() == old(self).stasks()
                    &&& final(self).sq() == old(self).sq()
                } else {
                    &&& r == Ok::<bool, ExecutorError>(true)
                    &&& final(self).sq() == old(self).sq().push(id.value)
                    &&& find_task(final(self).stasks(), id.value) == Some(
                        TaskView {
                            id: (match find_task(old(self).stasks(), id.value) {
                                Some(tv2) => tv2.id,
                                None => id,
                            }),
                            comp: Executor::fired_comp(
                                match find_task(old(self).stasks(), id.value) {
                                    Some(tv2) => tv2.comp,
                                    None => arbitrary(),
                                },
                            ),
                        },
                    )
                    &&& forall|j: u64|
                        j != id.value ==> find_task(final(self).stasks(), j) == find_task(
                            old(self).stasks(),
                            j,
                        )
                    &&& final(self).stasks().len() == old(self).stasks().len()
                }
            } else {
                &&& r == Ok::<bool, ExecutorError>(false)
                &&& final(self).stasks() == old(self).stasks()
                &&& final(self).sq() == old(self).sq()
            },
    {
        if !self.tasks.is_waiting(id.value) {
            return Ok(false);
        }
        if queue_is_full(&self.task_queue) {
            return Err(ExecutorError::QueueFull);
        }
        proof {
            lemma_find_id(self.stasks(), id.value);
        }
        let ghost tv = find_task(self.stasks(), id.value)->Some_0;
        let mut task = match self.tasks.remove_by_id(id.value) {
            Some(t) => t,
            None => vstd::pervasive::unreached(),
        };
        let w = task.fire();
        let ghost mid = *self;
        self.tasks.insert(task);
        let waker = match w {
            Some(wk) => wk,
            None => vstd::pervasive::unreached(),
        };
        let pushed = queue_push(&mut self.task_queue, waker.task_id.value);
        proof {
            assert(waker == tv.own_waker());
            assert(pushed is Ok);
            lemma_push_contains_all(old(self).sq(), id.value);
            assert(task@ =~= (TaskView { id: tv.id, comp: Executor::fired_comp(tv.comp) }));
            assert forall|j: u64| #![trigger find_task(self.stasks(), j)] true implies match find_task(
                        self.stasks(),
                        j,
                    ) {
                Some(tvj) => {
                    &&& tvj.id.value == j
                    &&& tvj.comp.wf()
                    &&& (tvj.comp.parked_waiting() ==> tvj.comp.stored_waker() == Some(
                        tvj.own_waker(),
                    ))
                    &&& (!tvj.comp.parked_waiting() ==> self.sq().contains(j))
                },
                None => true,
            } by {
                lemma_find_id(self.stasks(), j);
                if j != id.value {
                    assert(find_task(self.stasks(), j) == find_task(old(self).stasks(), j));
                }
            }
        }
        match pushed {
            Ok(()) => Ok(true),
            Err(_) => vstd::pervasive::unreached(),
        }
    }
}

/// One emitted timer request is accounted for: the named task is now parked
/// on exactly the requested timer, storing its own waker, and its state at
/// the start of the pass promised exactly this start.
pub open spec fn action_valid(pre: Executor, cur: Executor, a: TimerRequest) -> bool {
    &&& match find_task(cur.stasks(), a.task_id.value) {
        Some(tv2) => tv2.comp.parked_waiting() && tv2.comp.cur_timer() == (TimerView {
            duration: a.duration,
            completed: false,
            waker: Some(tv2.own_waker()),
        }),
        None => false,
    }
    &&& match find_task(pre.stasks(), a.task_id.value) {
        Some(tv) => settle_task(tv).1 == Some(a.duration),
        None => false,
    }
}

/// The drain pass's invariant, relating the state at the start of the pass
/// (`pre`) to the current state and the timer requests emitted so far.
pub open spec fn drain_inv(pre: Executor, cur: Executor, actions: Seq<TimerRequest>) -> bool {
    &&& cur.wf()
    &&& cur.scap() == pre.scap()
    // no task appears from nowhere; each survivor settles where it always
    // would have; a task parked at the start is untouched
    &&& forall|id: u64|
        #![trigger find_task(pre.stasks(), id)]
        #![trigger find_task(cur.stasks(), id)]
        match (find_task(pre.stasks(), id), find_task(cur.stasks(), id)) {
            (Some(tv), Some(tv2)) => {
                &&& tv2.id == tv.id
                &&& settle_task(tv2).0 == settle_task(tv).0
                &&& (!tv2.comp.parked_waiting() ==> settle_task(tv2).1 == settle_task(tv).1)
                &&& (tv.comp.parked_waiting() ==> tv2 == tv)
            },
            (Some(tv), None) => settle_task(tv).0 is None,
            (None, Some(_)) => false,
            (None, None) => true,
        }
    &&& forall|k: int|
        #![trigger actions[k]]
        0 <= k < actions.len() ==> action_valid(pre, cur, actions[k])
    &&& forall|k1: int, k2: int|
        0 <= k1 < k2 < actions.len() ==> actions[k1].task_id.value != actions[k2].task_id.value
    // a queued task that will start a timer either already got its request,
    // or is still scheduled and has not parked yet
    &&& forall|id: u64|
        #![trigger find_task(pre.stasks(), id)]
        match find_task(pre.stasks(), id) {
            Some(tv) => match settle_task(tv).1 {
                Some(d) => pre.sq().contains(id) ==> (actions.contains(
                    TimerRequest { task_id: tv.id, duration: d },
                ) || (cur.sq().contains(id) && match find_task(cur.stasks(), id) {
                    Some(tv2) => !tv2.comp.parked_waiting(),
                    None => false,
                })),
                None => true,
            },
            None => true,
        }
}

/// What a drain pass guarantees: the queue is empty; each task that was
/// present ended exactly at its settled state (gone if it completed, parked
/// on an unfired timer otherwise, and untouched if it was already parked);
/// nothing was re-inserted from stale entries; and the emitted timer
/// requests are exactly the starts the queued tasks' settlements promised,
/// one per task.
pub open spec fn drain_post(pre: Executor, post: Executor, actions: Seq<TimerRequest>) -> bool {
    &&& post.wf()
    &&& post.scap() == pre.scap()
    &&& post.sq().len() == 0
    &&& forall|id: u64|
        #![trigger find_task(pre.stasks(), id)]
        match find_task(pre.stasks(), id) {
            Some(tv) => match settle_task(tv).0 {
                None => find_task(post.stasks(), id) is None,
                Some(cp) => find_task(post.stasks(), id) == Some(TaskView { id: tv.id, comp: cp }),
            },
            None => find_task(post.stasks(), id) is None,
        }
    &&& forall|id: u64|
        #![trigger find_task(post.stasks(), id)]
        match find_task(post.stasks(), id) {
            Some(tv2) => tv2.comp.parked_waiting(),
            None => true,
        }
    &&& forall|id: u64|
        #![trigger find_task(pre.stasks(), id)]
        match find_task(pre.stasks(), id) {
            Some(tv) => tv.comp.parked_waiting() ==> find_task(post.stasks(), id) == Some(tv),
            None => true,
        }
    &&& forall|k: int|
        #![trigger actions[k]]
        0 <= k < actions.len() ==> action_valid(pre, post, actions[k])
    &&& forall|k1: int, k2: int|
        0 <= k1 < k2 < actions.len() ==> actions[k1].task_id.value != actions[k2].task_id.value
    &&& forall|id: u64|
        #![trigger find_task(pre.stasks(), id)]
        match find_task(pre.stasks(), id) {
            Some(tv) => match settle_task(tv).1 {
                Some(d) => pre.sq().contains(id) ==> actions.contains(
                    TimerRequest { task_id: tv.id, duration: d },
                ),
                None => true,
            },
            None => true,
        }
}

/// Appending to a sequence keeps everything it contained and adds the new
/// element.
pub proof fn lemma_push_contains_all<A>(s: Seq<A>, v: A)
    ensures
        s.push(v).contains(v),
        forall|x: A| #![auto] s.contains(x) ==> s.push(v).contains(x),
{
    assert(s.push(v)[s.len() as int] == v);
    assert forall|x: A| #![auto] s.contains(x) implies s.push(v).contains(x) by {
        let k = choose|k: int| 0 <= k < s.len() && s[k] == x;
        assert(s.push(v)[k] == x);
    }
}

/// Popping the head keeps every other contained element.
pub proof fn lemma_drop_first_contains<A>(s: Seq<A>, x: A)
    requires
        s.len() > 0,
        s.contains(x),
        s[0] != x,
    ensures
        s.drop_first().contains(x),
{
    let k = choose|k: int| 0 <= k < s.len() && s[k] == x;
    assert(s.drop_first()[k - 1] == x);
}

/// Discarding a stale queue entry keeps the drain invariant.
proof fn lemma_drain_step_stale(
    pre: Executor,
    it0: Executor,
    cur: Executor,
    actions: Seq<TimerRequest>,
    idv: u64,
)
    requires
        drain_inv(pre, it0, actions),
        it0.sq().len() > 0,
        it0.sq()[0] == idv,
        find_task(it0.stasks(), idv) is None,
        cur.stasks() == it0.stasks(),
        cur.scache() == it0.scache(),
        cur.sq() == it0.sq().drop_first(),
        cur.scap() == it0.scap(),
    ensures
        drain_inv(pre, cur, actions),
{
    assert forall|id: u64| #![trigger find_task(cur.stasks(), id)] true implies match find_task(
        cur.stasks(),
        id,
    ) {
        Some(tv) => !tv.comp.parked_waiting() ==> cur.sq().contains(id),
        None => true,
    } by {
        match find_task(it0.stasks(), id) {
            Some(tv) => {
                if !tv.comp.parked_waiting() {
                    lemma_drop_first_contains(it0.sq(), id);
                }
            },
            None => {},
        }
    }
    assert(cur.wf());
    assert forall|id: u64| #![trigger find_task(pre.stasks(), id)] true implies match find_task(
        pre.stasks(),
        id,
    ) {
        Some(tv) => match settle_task(tv).1 {
            Some(d) => pre.sq().contains(id) ==> (actions.contains(
                TimerRequest { task_id: tv.id, duration: d },
            ) || (cur.sq().contains(id) && match find_task(cur.stasks(), id) {
                Some(tv2) => !tv2.comp.parked_waiting(),
                None => false,
            })),
            None => true,
        },
        None => true,
    } by {
        match find_task(pre.stasks(), id) {
            Some(tv) => {
                match settle_task(tv).1 {
                    Some(d) => {
                        if pre.sq().contains(id) && !actions.contains(
                            TimerRequest { task_id: tv.id, duration: d },
                        ) {
                            // the pending duty names a live, unparked task,
                            // so it is not the stale identity just popped
                            assert(it0.sq().contains(id) && match find_task(it0.stasks(), id) {
                                Some(tv2) => !tv2.comp.parked_waiting(),
                                None => false,
                            });
                            lemma_drop_first_contains(it0.sq(), id);
                        }
                    },
                    None => {},
                }
            },
            None => {},
        }
    }
}

/// Removing a task whose poll completed keeps the drain invariant.
proof fn lemma_drain_step_complete(
    pre: Executor,
    it0: Executor,
    cur: Executor,
    actions: Seq<TimerRequest>,
    idv: u64,
    tvc: TaskView,
)
    requires
        drain_inv(pre, it0, actions),
        it0.sq().len() > 0,
        it0.sq()[0] == idv,
        find_task(it0.stasks(), idv) == Some(tvc),
        poll_spec(tvc.comp, tvc.own_waker()).1 == PollStatus::Complete,
        unique_ids(cur.stasks()),
        find_task(cur.stasks(), idv) is None,
        forall|j: u64| j != idv ==> find_task(cur.stasks(), j) == find_task(it0.stasks(), j),
        unique_waker_ids(cur.scache()),
        find_waker(cur.scache(), idv) is None,
        forall|j: u64| j != idv ==> find_waker(cur.scache(), j) == find_waker(it0.scache(), j),
        cur.sq() == it0.sq().drop_first(),
        cur.scap() == it0.scap(),
    ensures
        drain_inv(pre, cur, actions),
{
    assert(tvc.id.value == idv && tvc.comp.wf());
    lemma_poll_spec(tvc.comp, tvc.own_waker());
    assert(settle_task(tvc) == (None::<CompView>, None::<usize>));
    assert(!tvc.comp.parked_waiting());
    assert forall|id: u64| #![trigger find_task(cur.stasks(), id)] true implies match find_task(
        cur.stasks(),
        id,
    ) {
        Some(tv) => {
            &&& tv.id.value == id
            &&& tv.comp.wf()
            &&& (tv.comp.parked_waiting() ==> tv.comp.stored_waker() == Some(tv.own_waker()))
            &&& (!tv.comp.parked_waiting() ==> cur.sq().contains(id))
        },
        None => true,
    } by {
        if id != idv {
            match find_task(it0.stasks(), id) {
                Some(tv) => {
                    if !tv.comp.parked_waiting() {
                        lemma_drop_first_contains(it0.sq(), id);
                    }
                },
                None => {},
            }
        }
    }
    assert forall|id: u64| #![trigger find_waker(cur.scache(), id)] true implies match find_waker(
        cur.scache(),
        id,
    ) {
        Some(w) => w.task_id.value == id && find_task(cur.stasks(), id) is Some,
        None => true,
    } by {
        if id != idv {
            assert(find_waker(cur.scache(), id) == find_waker(it0.scache(), id));
            assert(find_task(cur.stasks(), id) == find_task(it0.stasks(), id));
        }
    }
    assert(cur.wf());
    // settlement bookkeeping: the completed task settles to nothing
    assert forall|id: u64|
        #![trigger find_task(pre.stasks(), id)]
        #![trigger find_task(cur.stasks(), id)]
        true implies match (find_task(pre.stasks(), id), find_task(cur.stasks(), id)) {
        (Some(tv), Some(tv2)) => {
            &&& tv2.id == tv.id
            &&& settle_task(tv2).0 == settle_task(tv).0
            &&& (!tv2.comp.parked_waiting() ==> settle_task(tv2).1 == settle_task(tv).1)
            &&& (tv.comp.parked_waiting() ==> tv2 == tv)
        },
        (Some(tv), None) => settle_task(tv).0 is None,
        (None, Some(_)) => false,
        (None, None) => true,
    } by {
        if id != idv {
            assert(find_task(cur.stasks(), id) == find_task(it0.stasks(), id));
        }
    }
    assert forall|k: int| #![trigger actions[k]] 0 <= k < actions.len() implies action_valid(
        pre,
        cur,
        actions[k],
    ) by {
        let a = actions[k];
        assert(action_valid(pre, it0, a));
        // the request's task is parked, the completed one was not
        assert(a.task_id.value != idv);
        assert(find_task(cur.stasks(), a.task_id.value) == find_task(
            it0.stasks(),
            a.task_id.value,
        ));
    }
    assert forall|id: u64| #![trigger find_task(pre.stasks(), id)] true implies match find_task(
        pre.stasks(),
        id,
    ) {
        Some(tv) => match settle_task(tv).1 {
            Some(d) => pre.sq().contains(id) ==> (actions.contains(
                TimerRequest { task_id: tv.id, duration: d },
            ) || (cur.sq().contains(id) && match find_task(cur.stasks(), id) {
                Some(tv2) => !tv2.comp.parked_waiting(),
                None => false,
            })),
            None => true,
        },
        None => true,
    } by {
        match find_task(pre.stasks(), id) {
            Some(tv) => {
                if id == idv {
                    // the polled task just completed, so it never promised a start
                    lemma_settle_parks(tv.comp, tv.own_waker());
                } else {
                    match settle_task(tv).1 {
                        Some(d) => {
                            if pre.sq().contains(id) && !actions.contains(
                                TimerRequest { task_id: tv.id, duration: d },
                            ) {
                                lemma_drop_first_contains(it0.sq(), id);
                                assert(find_task(cur.stasks(), id) == find_task(
                                    it0.stasks(),
                                    id,
                                ));
                            }
                        },
                        None => {},
                    }
                }
            },
            None => {},
        }
    }
}

/// Re-inserting a task whose poll returned pending — parked, self-woken, or
/// newly awaiting a timer — keeps the drain invariant.
proof fn lemma_drain_step_pending(
    pre: Executor,
    it0: Executor,
    cur: Executor,
    actions: Seq<TimerRequest>,
    actions2: Seq<TimerRequest>,
    idv: u64,
    tvc: TaskView,
)
    requires
        drain_inv(pre, it0, actions),
        it0.sq().len() > 0,
        it0.sq()[0] == idv,
        find_task(it0.stasks(), idv) == Some(tvc),
        poll_spec(tvc.comp, tvc.own_waker()).1 == PollStatus::Pending,
        unique_ids(cur.stasks()),
        find_task(cur.stasks(), idv) == Some(
            TaskView { id: tvc.id, comp: poll_spec(tvc.comp, tvc.own_waker()).0 },
        ),
        forall|j: u64| j != idv ==> find_task(cur.stasks(), j) == find_task(it0.stasks(), j),
        unique_waker_ids(cur.scache()),
        find_waker(cur.scache(), idv) == Some(tvc.own_waker()),
        forall|j: u64| j != idv ==> find_waker(cur.scache(), j) == find_waker(it0.scache(), j),
        cur.scap() == it0.scap(),
        (poll_spec(tvc.comp, tvc.own_waker()).2 is WakeSelf ==> cur.sq() == it0.sq().drop_first()
            .push(idv)),
        (!(poll_spec(tvc.comp, tvc.own_waker()).2 is WakeSelf) ==> cur.sq() == it0.sq()
            .drop_first()),
        (poll_spec(tvc.comp, tvc.own_waker()).2 matches PollEffect::StartTimer { duration }
            ==> actions2 == actions.push(
            TimerRequest {
                task_id: tvc.id,
                duration: (match poll_spec(tvc.comp, tvc.own_waker()).2 {
                    PollEffect::StartTimer { duration } => duration,
                    _ => 0,
                }),
            },
        )),
        (!(poll_spec(tvc.comp, tvc.own_waker()).2 matches PollEffect::StartTimer { duration })
            ==> actions2 == actions),
    ensures
        drain_inv(pre, cur, actions2),
{
    assert(tvc.id.value == idv && tvc.comp.wf());
    lemma_poll_spec(tvc.comp, tvc.own_waker());
    let c2 = poll_spec(tvc.comp, tvc.own_waker()).0;
    let eff = poll_spec(tvc.comp, tvc.own_waker()).2;
    let tv2 = TaskView { id: tvc.id, comp: c2 };
    assert(tv2.own_waker() == tvc.own_waker());
    assert(settle_task(tv2).0 == settle_task(tvc).0);
    if eff is WakeSelf {
        lemma_push_contains_all(it0.sq().drop_first(), idv);
    }
    // queue membership of every other unparked task survives the pop
    assert forall|id: u64| #![trigger find_task(cur.stasks(), id)] true implies match find_task(
        cur.stasks(),
        id,
    ) {
        Some(tv) => {
            &&& tv.id.value == id
            &&& tv.comp.wf()
            &&& (tv.comp.parked_waiting() ==> tv.comp.stored_waker() == Some(tv.own_waker()))
            &&& (!tv.comp.parked_waiting() ==> cur.sq().contains(id))
        },
        None => true,
    } by {
        if id == idv {
            assert(find_task(cur.stasks(), idv) == Some(tv2));
            if !c2.parked_waiting() {
                // only a self-wake leaves the task unparked and pending
                assert(eff is WakeSelf);
                assert(cur.sq().contains(idv));
            }
        } else {
            match find_task(it0.stasks(), id) {
                Some(tv) => {
                    if !tv.comp.parked_waiting() {
                        lemma_drop_first_contains(it0.sq(), id);
                    }
                },
                None => {},
            }
        }
    }
    assert forall|id: u64| #![trigger find_waker(cur.scache(), id)] true implies match find_waker(
        cur.scache(),
        id,
    ) {
        Some(w) => w.task_id.value == id && find_task(cur.stasks(), id) is Some,
        None => true,
    } by {
        if id != idv {
            assert(find_waker(cur.scache(), id) == find_waker(it0.scache(), id));
            assert(find_task(cur.stasks(), id) == find_task(it0.stasks(), id));
        }
    }
    assert(cur.wf());
    // settlement bookkeeping
    assert forall|id: u64|
        #![trigger find_task(pre.stasks(), id)]
        #![trigger find_task(cur.stasks(), id)]
        true implies match (find_task(pre.stasks(), id), find_task(cur.stasks(), id)) {
        (Some(tv), Some(tv2x)) => {
            &&& tv2x.id == tv.id
            &&& settle_task(tv2x).0 == settle_task(tv).0
            &&& (!tv2x.comp.parked_waiting() ==> settle_task(tv2x).1 == settle_task(tv).1)
            &&& (tv.comp.parked_waiting() ==> tv2x == tv)
        },
        (Some(tv), None) => settle_task(tv).0 is None,
        (None, Some(_)) => false,
        (None, None) => true,
    } by {
        if id == idv {
            match find_task(pre.stasks(), idv) {
                Some(tv) => {
                    if tv.comp.parked_waiting() {
                        // an already-parked task absorbs the poll unchanged
                        assert(tvc == tv);
                        assert(c2 == tvc.comp);
                        assert(tv2 =~= tvc);
                    }
                    if !c2.parked_waiting() {
                        assert(eff is WakeSelf);
                        assert(!tvc.comp.parked_waiting());
                        assert(settle_task(tv2).1 == settle_task(tvc).1);
                    }
                },
                None => {},
            }
        } else {
            assert(find_task(cur.stasks(), id) == find_task(it0.stasks(), id));
        }
    }
    // emitted requests stay accounted for
    assert forall|k: int| #![trigger actions2[k]] 0 <= k < actions2.len() implies action_valid(
        pre,
        cur,
        actions2[k],
    ) by {
        if k < actions.len() {
            let a = actions[k];
            assert(actions2[k] == a);
            assert(action_valid(pre, it0, a));
            if a.task_id.value == idv {
                // a request already points at the polled task only if it is parked
                assert(tvc.comp.parked_waiting());
                assert(eff is NoEffect);
                assert(c2 == tvc.comp);
                assert(tv2 =~= tvc);
            } else {
                assert(find_task(cur.stasks(), a.task_id.value) == find_task(
                    it0.stasks(),
                    a.task_id.value,
                ));
            }
        } else {
            // the newly emitted request
            match eff {
                PollEffect::StartTimer { duration } => {
                    let a = TimerRequest { task_id: tvc.id, duration };
                    assert(actions2[k] == a);
                    assert(c2.parked_waiting());
                    assert(c2.cur_timer() == (TimerView {
                        duration,
                        completed: false,
                        waker: Some(tvc.own_waker()),
                    }));
                    match find_task(pre.stasks(), idv) {
                        Some(tv) => {
                            assert(!tvc.comp.parked_waiting());
                            assert(settle_task(tvc).1 == settle_task(tv).1);
                            assert(settle_task(tvc).1 == Some(duration));
                        },
                        None => {},
                    }
                },
                _ => {},
            }
        }
    }
    assert forall|k1: int, k2: int| 0 <= k1 < k2 < actions2.len() implies actions2[k1].task_id.value
        != actions2[k2].task_id.value by {
        if k2 < actions.len() {
        } else if k1 < actions.len() {
            let a = actions[k1];
            assert(action_valid(pre, it0, a));
            if a.task_id.value == idv {
                assert(tvc.comp.parked_waiting());
                assert(!(eff matches PollEffect::StartTimer { duration }));
            }
        }
    }
    // pending start duties stay discharged or owed
    assert forall|id: u64| #![trigger find_task(pre.stasks(), id)] true implies match find_task(
        pre.stasks(),
        id,
    ) {
        Some(tv) => match settle_task(tv).1 {
            Some(d) => pre.sq().contains(id) ==> (actions2.contains(
                TimerRequest { task_id: tv.id, duration: d },
            ) || (cur.sq().contains(id) && match find_task(cur.stasks(), id) {
                Some(tv2x) => !tv2x.comp.parked_waiting(),
                None => false,
            })),
            None => true,
        },
        None => true,
    } by {
        match find_task(pre.stasks(), id) {
            Some(tv) => {
                match settle_task(tv).1 {
                    Some(d) => {
                        if pre.sq().contains(id) {
                            let req = TimerRequest { task_id: tv.id, duration: d };
                            if id == idv {
                                assert(tv.id == tvc.id);
                                match eff {
                                    PollEffect::NoEffect => {
                                        // the task is parked: its duty must
                                        // already be on record
                                        assert(tvc.comp.parked_waiting());
                                        assert(actions.contains(req));
                                        if !(actions2 == actions) {
                                        }
                                        assert(actions2.contains(req));
                                    },
                                    PollEffect::WakeSelf => {
                                        if !actions.contains(req) {
                                            assert(cur.sq().contains(idv));
                                            assert(!c2.parked_waiting());
                                        } else {
                                            assert(actions2.contains(req));
                                        }
                                    },
                                    PollEffect::StartTimer { duration } => {
                                        assert(!tvc.comp.parked_waiting());
                                        assert(settle_task(tvc).1 == settle_task(tv).1);
                                        assert(d == duration);
                                        lemma_push_contains_all(actions, req);
                                        assert(actions2.contains(req));
                                    },
                                }
                            } else {
                                if actions.contains(req) {
                                    if eff matches PollEffect::StartTimer { duration } {
                                        lemma_push_contains_all(actions, TimerRequest {
                                            task_id: tvc.id,
                                            duration: (match eff {
                                                PollEffect::StartTimer { duration } => duration,
                                                _ => 0,
                                            }),
                                        });
                                    }
                                    assert(actions2.contains(req));
                                } else if it0.sq().contains(id) {
                                    lemma_drop_first_contains(it0.sq(), id);
                                    if eff is WakeSelf {
                                        lemma_push_contains_all(it0.sq().drop_first(), idv);
                                    }
                                    assert(cur.sq().contains(id));
                                    assert(find_task(cur.stasks(), id) == find_task(
                                        it0.stasks(),
                                        id,
                                    ));
                                }
                            }
                        }
                    },
                    None => {},
                }
            },
            None => {},
        }
    }
}

/// When the queue has drained empty, the invariant yields the pass's full
/// postcondition: every survivor rests at its settled state.
proof fn lemma_drain_finish(pre: Executor, cur: Executor, actions: Seq<TimerRequest>)
    requires
        drain_inv(pre, cur, actions),
        cur.sq().len() == 0,
    ensures
        drain_post(pre, cur, actions),
{
    assert forall|id: u64|
        #![trigger find_task(pre.stasks(), id)]
        true implies match find_task(pre.stasks(), id) {
        Some(tv) => match settle_task(tv).0 {
            None => find_task(cur.stasks(), id) is None,
            Some(cp) => find_task(cur.stasks(), id) == Some(TaskView { id: tv.id, comp: cp }),
        },
        None => find_task(cur.stasks(), id) is None,
    } by {
        match (find_task(pre.stasks(), id), find_task(cur.stasks(), id)) {
            (Some(tv), Some(tv2)) => {
                assert(tv2.comp.parked_waiting());
                lemma_settle_parked_identity(tv2.comp, tv2.own_waker());
                assert(settle_task(tv2) == (Some(tv2.comp), None::<usize>));
                assert(settle_task(tv).0 == Some(tv2.comp));
                assert(tv2 =~= (TaskView { id: tv.id, comp: tv2.comp }));
            },
            (Some(tv), None) => {},
            (None, Some(tv2)) => {},
            (None, None) => {},
        }
    }
    assert forall|id: u64|
        #![trigger find_task(cur.stasks(), id)]
        true implies match find_task(cur.stasks(), id) {
        Some(tv2) => tv2.comp.parked_waiting(),
        None => true,
    } by {}
}

impl Executor {
    /// One drain pass: repeatedly pop the next identity from the readiness
    /// queue until it is observed empty; discard stale entries; poll each
    /// live task with its cached (or lazily created) waker; remove a task
    /// and its waker on completion, leave it in the table on pending. The
    /// returned requests are the background timer work the polled
    /// computations started, for the embedding to run.
    fn run_ready_tasks(&mut self) -> (actions: Vec<TimerRequest>)
        requires
            old(self).wf(),
        ensures
            drain_post(*old(self), *final(self), actions@),
    {
        let mut actions: Vec<TimerRequest> = Vec::new();
        proof {
            assert forall|id: u64|
                #![trigger find_task(self.stasks(), id)]
                true implies match find_task(self.stasks(), id) {
                Some(tv) => match settle_task(tv).1 {
                    Some(d) => self.sq().contains(id) ==> (actions@.contains(
                        TimerRequest { task_id: tv.id, duration: d },
                    ) || (self.sq().contains(id) && match find_task(self.stasks(), id) {
                        Some(tv2) => !tv2.comp.parked_waiting(),
                        None => false,
                    })),
                    None => true,
                },
                None => true,
            } by {
                match find_task(self.stasks(), id) {
                    Some(tv) => {
                        if tv.comp.parked_waiting() {
                            // a parked task promises no start
                            lemma_settle_parked_identity(tv.comp, tv.own_waker());
                        }
                    },
                    None => {},
                }
            }
            assert(drain_inv(*old(self), *self, actions@));
        }
        loop
            invariant
                drain_inv(*old(self), *self, actions@),
            ensures
                drain_inv(*old(self), *self, actions@),
                self.sq().len() == 0,
            decreases table_measure(self.stasks()), self.sq().len(),
        {
            let ghost pre = *old(self);
            let ghost it0 = *self;
            let ghost acts0 = actions@;
            match queue_pop(&mut self.task_queue) {
                None => {
                    break ;
                },
                Some(idv) => {
                    match self.tasks.remove_by_id(idv) {
                        None => {
                            proof {
                                lemma_drain_step_stale(pre, it0, *self, actions@, idv);
                            }
                        },
                        Some(mut task) => {
                            let ghost tvc = task@;
                            proof {
                                assert(find_task(it0.stasks(), idv) == Some(tvc));
                                assert(tvc.id.value == idv && tvc.comp.wf());
                            }
                            let waker = self.waker_cache.get_or_insert(task.id());
                            proof {
                                assert(waker == tvc.own_waker());
                            }
                            let (status, effect) = task.poll(waker);
                            match status {
                                PollStatus::Complete => {
                                    self.waker_cache.remove(idv);
                                    proof {
                                        lemma_drain_step_complete(
                                            pre,
                                            it0,
                                            *self,
                                            actions@,
                                            idv,
                                            tvc,
                                        );
                                        lemma_poll_spec(tvc.comp, tvc.own_waker());
                                    }
                                },
                                PollStatus::Pending => {
                                    match effect {
                                        PollEffect::NoEffect => {},
                                        PollEffect::WakeSelf => {
                                            let res = queue_push(&mut self.task_queue, idv);
                                            proof {
                                                assert(res is Ok);
                                            }
                                        },
                                        PollEffect::StartTimer { duration } => {
                                            let req = TimerRequest {
                                                task_id: task.id(),
                                                duration,
                                            };
                                            actions.push(req);
                                        },
                                    }
                                    self.tasks.insert(task);
                                    proof {
                                        lemma_drain_step_pending(
                                            pre,
                                            it0,
                                            *self,
                                            acts0,
                                            actions@,
                                            idv,
                                            tvc,
                                        );
                                        lemma_poll_spec(tvc.comp, tvc.own_waker());
                                    }
                                },
                            }
                        },
                    }
                },
            }
        }
        proof {
            lemma_drain_finish(*old(self), *self, actions@);
        }
        actions
    }

    /// Drain-and-return: perform a drain pass; report `Completed` when the
    /// task table emptied (every spawned computation ran to completion), or
    /// `Waiting` when tasks remain — each of them parked on an unfired
    /// timer, so the embedding must run the returned timer requests and
    /// deliver their wakes (`fire_timer`), then call `run` again. An
    /// embedding that loops forever instead simply never stops calling.
    pub fn run(&mut self) -> (r: (RunStatus, Vec<TimerRequest>))
        requires
            old(self).wf(),
        ensures
            drain_post(*old(self), *final(self), r.1@),
            (r.0 == RunStatus::Completed) <==> (final(self).stasks().len() == 0),
    {
        let actions = self.run_ready_tasks();
        if self.tasks.is_empty() {
            (RunStatus::Completed, actions)
        } else {
            (RunStatus::Waiting, actions)
        }
    }
}

} // verus!
