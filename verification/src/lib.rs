//! A cooperative task-scheduling core: a minimal single-threaded async
//! executor, its waker protocol, and a timer future that bridges cooperative
//! execution with a preemptive task system running blocking work.
//!
//! The executor owns a task table and a bounded readiness queue of task
//! identities (crossbeam's lock-free `ArrayQueue`, so wakers are safe to
//! invoke from any execution context). A drain pass pops identities, skips
//! stale ones, polls each live task with its cached waker, and removes
//! completed tasks; a task that reports pending is re-admitted only by
//! whoever later invokes its waker. Timer futures park a task until a
//! background worker — run by the embedding on its preemptive task facility
//! — fires them.

mod executor;
mod laws;
mod ready_queue;
mod task_async;
mod task_id;
mod task_table;
mod timer_future;
mod waker;

pub use executor::action_valid;
pub use executor::drain_post;
pub use executor::Executor;
pub use executor::ExecutorError;
pub use executor::RunStatus;
pub use executor::TimerRequest;
pub use executor::DEFAULT_QUEUE_CAPACITY;
pub use laws::lemma_duplicate_wakes_collapse;
pub use laws::lemma_fired_task_resumes_once;
pub use laws::lemma_run_completes_iff_all_settle;
pub use laws::lemma_self_contained_settles;
pub use laws::lemma_stale_entries_discarded;
pub use laws::lemma_unwoken_parked_task_not_polled;
pub use task_async::lemma_poll_spec;
pub use task_async::lemma_settle_idempotent;
pub use task_async::lemma_settle_parked_identity;
pub use task_async::lemma_settle_parks;
pub use task_async::poll_spec;
pub use task_async::settle;
pub use task_async::settle_task;
pub use task_async::CompView;
pub use task_async::Computation;
pub use task_async::PollEffect;
pub use task_async::Step;
pub use task_async::TaskAsync;
pub use task_async::TaskView;
pub use task_id::TaskId;
pub use task_id::TaskIdAllocator;
pub use task_table::find_task;
pub use task_table::lemma_find_at;
pub use task_table::lemma_find_id;
pub use task_table::lemma_find_none_iff;
pub use task_table::lemma_find_push;
pub use task_table::lemma_find_remove;
pub use task_table::table_measure;
pub use task_table::unique_ids;
pub use timer_future::PollStatus;
pub use timer_future::TimerFuture;
pub use timer_future::TimerView;
pub use waker::find_waker;
pub use waker::unique_waker_ids;
pub use waker::TaskWaker;
