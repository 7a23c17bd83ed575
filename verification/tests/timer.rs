use coop_executor::PollStatus;
use coop_executor::TaskId;
use coop_executor::TaskIdAllocator;
use coop_executor::TaskWaker;
use coop_executor::TimerFuture;

#[test]
fn timer_new_is_not_completed() {
    let tf = TimerFuture::new(1000);
    assert_eq!(tf.duration(), 1000);
    assert!(!tf.is_completed());
}

#[test]
fn timer_polled_immediately_is_pending_then_complete_after_fire() {
    // a fresh timer polled at once reports pending and stores the waker;
    // once the background worker fires, the next poll reports complete, and
    // so does every later one
    let w = TaskWaker::new(TaskId::new(7));
    let mut tf = TimerFuture::new(1000);
    assert_eq!(tf.poll(w), PollStatus::Pending);
    assert!(!tf.is_completed());

    let stored = tf.fire();
    assert_eq!(stored, Some(w));
    assert_eq!(stored.unwrap().task_id.value, 7);

    assert_eq!(tf.poll(w), PollStatus::Complete);
    assert_eq!(tf.poll(w), PollStatus::Complete);
    assert!(tf.is_completed());
}

#[test]
fn timer_fire_surrenders_waker_only_once() {
    let w = TaskWaker::new(TaskId::new(3));
    let mut tf = TimerFuture::new(50);
    assert_eq!(tf.poll(w), PollStatus::Pending);
    assert_eq!(tf.fire(), Some(w));
    // the waker was taken: a second fire finds none
    assert_eq!(tf.fire(), None);
}

#[test]
fn timer_fire_before_first_poll_has_no_waker() {
    // the background worker can finish before the future is first polled
    let mut tf = TimerFuture::new(1);
    assert_eq!(tf.fire(), None);
    let w = TaskWaker::new(TaskId::new(0));
    assert_eq!(tf.poll(w), PollStatus::Complete);
}

#[test]
fn timer_poll_overwrites_stored_waker() {
    // only one task may await a timer; a later poll's waker replaces the
    // earlier one
    let w1 = TaskWaker::new(TaskId::new(1));
    let w2 = TaskWaker::new(TaskId::new(2));
    let mut tf = TimerFuture::new(10);
    assert_eq!(tf.poll(w1), PollStatus::Pending);
    assert_eq!(tf.poll(w2), PollStatus::Pending);
    assert_eq!(tf.fire(), Some(w2));
}

#[test]
fn task_ids_are_monotonic_and_never_reused() {
    let mut ids = TaskIdAllocator::new();
    let a = ids.allocate();
    let b = ids.allocate();
    let c = ids.allocate();
    assert_eq!(a.value, 0);
    assert_eq!(b.value, 1);
    assert_eq!(c.value, 2);
    assert!(a.value < b.value && b.value < c.value);
}
