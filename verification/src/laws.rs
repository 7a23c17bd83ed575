//! The scheduler's laws: what a drain pass guarantees about completion,
//! wakes, and stale entries, proved once and for all from the contracts of
//! `Executor::run` and the settlement semantics.

use vstd::prelude::*;
use crate::executor::{drain_post, Executor, TimerRequest};
use crate::task_async::{
    lemma_settle_idempotent, lemma_settle_parks, settle, settle_task, CompView, Step, TaskView,
};
use crate::waker::TaskWaker;
use crate::task_table::{find_task, lemma_find_at};

verus! {

/// A computation whose remaining suspension points are all yields settles to
/// completion: it needs no external wake, only a bounded number of polls.
pub proof fn lemma_self_contained_settles(c: CompView, w: TaskWaker)
    requires
        c.wf(),
        !c.parked_waiting(),
        forall|i: int|
            c.pc <= i < c.steps.len() ==> c.steps[i] == Step::Yield,
    ensures
        settle(c, w).0 is None,
    decreases c.measure(),
{
    if c.parked_fired() {
        lemma_self_contained_settles(c.advance(), w);
    } else if c.pc >= c.steps.len() {
    } else {
        lemma_self_contained_settles(c.advance(), w);
    }
}

/// Drain-and-return runs to completion exactly when nothing waits on the
/// outside world: after `run` (whose own termination Verus checks
/// unconditionally), the task table is empty if and only if every task
/// present at the start settles to completion on its own — that is, reaches
/// its end in a bounded number of polls without ever parking on an unfired
/// timer. A task that would park waits for an external wake instead, and
/// `run` reports `Waiting`.
pub proof fn lemma_run_completes_iff_all_settle(
    pre: Executor,
    post: Executor,
    actions: Seq<TimerRequest>,
)
    requires
        pre.wf(),
        drain_post(pre, post, actions),
    ensures
        (post.stasks().len() == 0) <==> (forall|id: u64|
            #![trigger find_task(pre.stasks(), id)]
            match find_task(pre.stasks(), id) {
                Some(tv) => settle_task(tv).0 is None,
                None => true,
            }),
{
    if post.stasks().len() == 0 {
        assert forall|id: u64|
            #![trigger find_task(pre.stasks(), id)]
            true implies match find_task(pre.stasks(), id) {
            Some(tv) => settle_task(tv).0 is None,
            None => true,
        } by {
            match find_task(pre.stasks(), id) {
                Some(tv) => {
                    match settle_task(tv).0 {
                        Some(cp) => {
                            // a surviving settlement would be a live task in
                            // an empty table
                            assert(find_task(post.stasks(), id) is Some);
                            assert(false);
                        },
                        None => {},
                    }
                },
                None => {},
            }
        }
    } else {
        // pick any survivor: its start-of-pass state settles to a parked
        // state, not to completion
        let tv2 = post.stasks()[0];
        let id0 = tv2.id.value;
        lemma_find_at(post.stasks(), 0, id0);
        assert(find_task(post.stasks(), id0) is Some);
        match find_task(pre.stasks(), id0) {
            Some(tv) => {
                match settle_task(tv).0 {
                    Some(cp) => {
                        assert(!(match find_task(pre.stasks(), id0) {
                            Some(tvx) => settle_task(tvx).0 is None,
                            None => true,
                        }));
                    },
                    None => {
                        assert(find_task(post.stasks(), id0) is None);
                        assert(false);
                    },
                }
            },
            None => {
                assert(find_task(post.stasks(), id0) is None);
                assert(false);
            },
        }
    }
}

/// A task that returned pending and is never woken is never polled again:
/// a drain pass leaves a parked task exactly as it was — the executor does
/// not busy-poll it. Only invoking its stored waker (`fire_timer`) can
/// bring it back into a pass.
pub proof fn lemma_unwoken_parked_task_not_polled(
    pre: Executor,
    post: Executor,
    actions: Seq<TimerRequest>,
    id: u64,
)
    requires
        pre.wf(),
        drain_post(pre, post, actions),
        find_task(pre.stasks(), id) matches Some(tv) && tv.comp.parked_waiting(),
    ensures
        find_task(post.stasks(), id) == find_task(pre.stasks(), id),
{
}

/// One wake, one resumption: a task whose awaited timer has fired (its
/// stored waker was invoked exactly once) is polled again in the next drain
/// pass and advances strictly past the await it was parked on — either to
/// rest parked on a strictly later suspension point, where it again needs
/// its own fresh wake, or to completion. A single wake can not make it run
/// twice.
pub proof fn lemma_fired_task_resumes_once(tv: TaskView)
    requires
        tv.comp.wf(),
        tv.comp.parked_fired(),
    ensures
        match settle_task(tv).0 {
            Some(cp) => cp.pc > tv.comp.pc && cp.parked_waiting(),
            None => true,
        },
{
    assert(settle(tv.comp, tv.own_waker()) == settle(tv.comp.advance(), tv.own_waker()));
    lemma_settle_parks(tv.comp.advance(), tv.own_waker());
}

/// Duplicate wakes collapse: the state a drain pass parks a task in is a
/// fixed point of settling, so however many queue entries duplicate wakes
/// produced before the pass, the extra polls they cause move the task
/// nowhere and start nothing.
pub proof fn lemma_duplicate_wakes_collapse(tv: TaskView)
    requires
        tv.comp.wf(),
    ensures
        match settle_task(tv).0 {
            Some(cp) => settle_task(TaskView { id: tv.id, comp: cp }) == (
                Some(cp),
                None::<usize>,
            ),
            None => true,
        },
{
    lemma_settle_idempotent(tv.comp, tv.own_waker());
}

/// Stale queue entries are harmless: an identity whose task was already
/// removed (or never existed) is simply discarded by the drain pass — it
/// is not an error and nothing is re-inserted for it.
pub proof fn lemma_stale_entries_discarded(
    pre: Executor,
    post: Executor,
    actions: Seq<TimerRequest>,
    id: u64,
)
    requires
        pre.wf(),
        drain_post(pre, post, actions),
        find_task(pre.stasks(), id) is None,
    ensures
        find_task(post.stasks(), id) is None,
{
}

} // verus!
