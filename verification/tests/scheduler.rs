use coop_executor::Computation;
use coop_executor::Executor;
use coop_executor::ExecutorError;
use coop_executor::RunStatus;
use coop_executor::Step;
use coop_executor::TaskAsync;
use coop_executor::TaskId;
use coop_executor::TaskIdAllocator;
use coop_executor::TaskWaker;

fn task(ids: &mut TaskIdAllocator, steps: Vec<Step>) -> TaskAsync {
    TaskAsync::new(Computation::new(steps), ids)
}

#[test]
fn run_completes_self_contained_tasks() {
    // tasks that only yield finish in one drain-and-return call
    let mut ids = TaskIdAllocator::new();
    let mut e = Executor::new();
    e.spawn(task(&mut ids, vec![])).unwrap();
    e.spawn(task(&mut ids, vec![Step::Yield])).unwrap();
    e.spawn(task(&mut ids, vec![Step::Yield, Step::Yield, Step::Yield])).unwrap();
    assert_eq!(e.task_count(), 3);
    assert!(!e.queue_is_empty());

    let (status, actions) = e.run();
    assert_eq!(status, RunStatus::Completed);
    assert!(actions.is_empty());
    assert_eq!(e.task_count(), 0);
    assert!(e.queue_is_empty());
}

#[test]
fn spawn_rejects_duplicate_identity() {
    // two allocators handing out the same identity signal a defect, which
    // spawn reports fatally without touching the scheduler
    let mut ids_a = TaskIdAllocator::new();
    let mut ids_b = TaskIdAllocator::new();
    let mut e = Executor::new();
    e.spawn(task(&mut ids_a, vec![Step::Yield])).unwrap();
    let twin = task(&mut ids_b, vec![Step::Yield]);
    assert_eq!(twin.id().value, 0);
    assert_eq!(e.spawn(twin), Err(ExecutorError::DuplicateTaskId));
    assert_eq!(e.task_count(), 1);
}

#[test]
fn spawn_overflowing_the_queue_is_fatal() {
    // more concurrently pending tasks than the queue's fixed capacity hit
    // the documented fatal overflow, not silent loss
    let mut ids = TaskIdAllocator::new();
    let mut e = Executor::with_capacity(2);
    assert_eq!(e.spawn(task(&mut ids, vec![Step::Yield])), Ok(()));
    assert_eq!(e.spawn(task(&mut ids, vec![Step::Yield])), Ok(()));
    assert_eq!(
        e.spawn(task(&mut ids, vec![Step::Yield])),
        Err(ExecutorError::QueueFull)
    );
    // the failed spawn left no half-inserted task behind
    assert_eq!(e.task_count(), 2);
    let (status, _) = e.run();
    assert_eq!(status, RunStatus::Completed);
}

#[test]
fn wake_overflowing_the_queue_is_fatal() {
    let mut ids = TaskIdAllocator::new();
    let mut e = Executor::with_capacity(1);
    e.spawn(task(&mut ids, vec![Step::Yield])).unwrap();
    let stranger = TaskWaker::new(TaskId::new(42));
    assert_eq!(e.wake(&stranger), Err(ExecutorError::QueueFull));
}

#[test]
fn parked_task_is_never_polled_without_a_wake() {
    // a task awaiting a timer that never fires is left exactly as it is:
    // repeated drains neither poll it nor emit new timer requests
    let mut ids = TaskIdAllocator::new();
    let mut e = Executor::new();
    e.spawn(task(&mut ids, vec![Step::Timer { duration: 2000 }])).unwrap();
    let id = TaskId::new(0);

    let (status, actions) = e.run();
    assert_eq!(status, RunStatus::Waiting);
    assert_eq!(actions.len(), 1);
    assert_eq!(actions[0].task_id.value, 0);
    assert_eq!(actions[0].duration, 2000);
    assert!(e.is_waiting(id));
    assert_eq!(e.progress_of(id), Some(0));

    for _ in 0..3 {
        let (status, actions) = e.run();
        assert_eq!(status, RunStatus::Waiting);
        assert!(actions.is_empty());
        assert!(e.is_waiting(id));
        assert_eq!(e.progress_of(id), Some(0));
    }
}

#[test]
fn one_wake_resumes_exactly_one_step() {
    // each fired timer lets the task advance past exactly the await it was
    // parked on, then park on the next one
    let mut ids = TaskIdAllocator::new();
    let mut e = Executor::new();
    e.spawn(task(
        &mut ids,
        vec![Step::Timer { duration: 10 }, Step::Timer { duration: 20 }],
    ))
    .unwrap();
    let id = TaskId::new(0);

    let (status, actions) = e.run();
    assert_eq!(status, RunStatus::Waiting);
    assert_eq!(actions.len(), 1);
    assert_eq!(actions[0].duration, 10);
    assert_eq!(e.progress_of(id), Some(0));

    assert_eq!(e.fire_timer(id), Ok(true));
    let (status, actions) = e.run();
    assert_eq!(status, RunStatus::Waiting);
    assert_eq!(actions.len(), 1);
    assert_eq!(actions[0].duration, 20);
    assert_eq!(e.progress_of(id), Some(1));

    assert_eq!(e.fire_timer(id), Ok(true));
    let (status, actions) = e.run();
    assert_eq!(status, RunStatus::Completed);
    assert!(actions.is_empty());
    assert_eq!(e.task_count(), 0);
}

#[test]
fn duplicate_wakes_collapse_to_one_effective_poll() {
    // waking the same waker many times before a drain moves the parked task
    // nowhere: the spurious polls are absorbed without progress or new
    // timer requests
    let mut ids = TaskIdAllocator::new();
    let mut e = Executor::new();
    e.spawn(task(&mut ids, vec![Step::Timer { duration: 10 }])).unwrap();
    let id = TaskId::new(0);
    e.run();
    let w = e.waker_for(id).expect("polled task has a cached waker");
    assert_eq!(w.task_id.value, 0);

    e.wake(&w).unwrap();
    e.wake(&w).unwrap();
    e.wake(&w).unwrap();
    let (status, actions) = e.run();
    assert_eq!(status, RunStatus::Waiting);
    assert!(actions.is_empty());
    assert_eq!(e.progress_of(id), Some(0));
    assert!(e.is_waiting(id));

    assert_eq!(e.fire_timer(id), Ok(true));
    let (status, _) = e.run();
    assert_eq!(status, RunStatus::Completed);
}

#[test]
fn stale_queue_entries_are_discarded() {
    // a wake delivered after its task already completed leaves a stale
    // entry, which the next drain silently skips: no crash, no
    // re-insertion
    let mut ids = TaskIdAllocator::new();
    let mut e = Executor::new();
    e.spawn(task(&mut ids, vec![Step::Timer { duration: 10 }])).unwrap();
    let id = TaskId::new(0);
    e.run();
    let w = e.waker_for(id).expect("polled task has a cached waker");
    assert_eq!(e.fire_timer(id), Ok(true));
    let (status, _) = e.run();
    assert_eq!(status, RunStatus::Completed);
    assert_eq!(e.task_count(), 0);
    assert!(e.waker_for(id).is_none());

    // the stored waker outlived its task; invoking it is tolerated
    e.wake(&w).unwrap();
    assert!(!e.queue_is_empty());
    let (status, actions) = e.run();
    assert_eq!(status, RunStatus::Completed);
    assert!(actions.is_empty());
    assert_eq!(e.task_count(), 0);
    assert!(!e.contains_task(id));
    assert!(e.queue_is_empty());
}

#[test]
fn firing_an_unknown_or_unparked_timer_is_a_no_op() {
    let mut ids = TaskIdAllocator::new();
    let mut e = Executor::new();
    assert_eq!(e.fire_timer(TaskId::new(5)), Ok(false));
    e.spawn(task(&mut ids, vec![Step::Yield])).unwrap();
    // the task is ready, not parked: nothing to fire
    assert_eq!(e.fire_timer(TaskId::new(0)), Ok(false));
    let (status, _) = e.run();
    assert_eq!(status, RunStatus::Completed);
}

#[test]
fn timer_requests_come_out_in_admission_order() {
    // within one drain pass, tasks are serviced in the order their
    // identities were admitted to the queue
    let mut ids = TaskIdAllocator::new();
    let mut e = Executor::new();
    e.spawn(task(&mut ids, vec![Step::Timer { duration: 111 }])).unwrap();
    e.spawn(task(&mut ids, vec![Step::Timer { duration: 222 }])).unwrap();
    e.spawn(task(&mut ids, vec![Step::Yield, Step::Timer { duration: 333 }])).unwrap();
    let (status, actions) = e.run();
    assert_eq!(status, RunStatus::Waiting);
    let seen: Vec<(u64, usize)> = actions.iter().map(|a| (a.task_id.value, a.duration)).collect();
    // the third task yielded once, so its request comes after the others
    assert_eq!(seen, vec![(0, 111), (1, 222), (2, 333)]);
}

#[test]
fn two_timer_loops_complete_in_duration_order() {
    // the end-to-end scenario: task A loops three times over a 2000-unit
    // timer, task B three times over a 500-unit timer; a virtual clock
    // runs the requested background work and fires each timer at its
    // deadline. Both finish, and all of B's loop iterations complete
    // before A's first one, because readiness follows each task's own
    // timer, not queue order.
    let mut ids = TaskIdAllocator::new();
    let mut e = Executor::new();
    e.spawn(task(
        &mut ids,
        vec![
            Step::Timer { duration: 2000 },
            Step::Timer { duration: 2000 },
            Step::Timer { duration: 2000 },
        ],
    ))
    .unwrap();
    e.spawn(task(
        &mut ids,
        vec![
            Step::Timer { duration: 500 },
            Step::Timer { duration: 500 },
            Step::Timer { duration: 500 },
        ],
    ))
    .unwrap();
    let a = TaskId::new(0);
    let b = TaskId::new(1);

    let mut now: u64 = 0;
    let mut sleeping: Vec<(u64, TaskId)> = Vec::new();
    let mut fires: Vec<(u64, u64)> = Vec::new();
    let mut guard = 0;
    loop {
        let (status, actions) = e.run();
        for req in &actions {
            sleeping.push((now + req.duration as u64, req.task_id));
        }
        if status == RunStatus::Completed {
            break;
        }
        // advance the clock to the earliest deadline and fire that timer
        let (pos, _) = sleeping
            .iter()
            .enumerate()
            .min_by_key(|(_, (deadline, _))| *deadline)
            .expect("waiting tasks imply a pending timer");
        let (deadline, tid) = sleeping.remove(pos);
        now = deadline;
        fires.push((tid.value, now));
        assert_eq!(e.fire_timer(tid), Ok(true));
        guard += 1;
        assert!(guard < 100, "the scenario must settle in a few passes");
    }

    assert_eq!(e.task_count(), 0);
    assert!(!e.contains_task(a));
    assert!(!e.contains_task(b));
    // three fires each; B's three all precede A's first
    let order: Vec<u64> = fires.iter().map(|(id, _)| *id).collect();
    assert_eq!(order, vec![1, 1, 1, 0, 0, 0]);
    let times: Vec<u64> = fires.iter().map(|(_, t)| *t).collect();
    assert_eq!(times, vec![500, 1000, 1500, 2000, 4000, 6000]);
}

#[test]
fn waker_cache_holds_one_waker_per_live_task() {
    let mut ids = TaskIdAllocator::new();
    let mut e = Executor::new();
    e.spawn(task(&mut ids, vec![Step::Timer { duration: 10 }])).unwrap();
    let id = TaskId::new(0);
    // before the first poll, no waker exists yet
    assert!(e.waker_for(id).is_none());
    e.run();
    let w = e.waker_for(id).expect("first poll caches the waker");
    assert_eq!(w.task_id, id);
    // completion removes the cached waker with the task
    assert_eq!(e.fire_timer(id), Ok(true));
    e.run();
    assert!(e.waker_for(id).is_none());
}
