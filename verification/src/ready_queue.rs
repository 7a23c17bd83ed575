//! The readiness queue: a bounded FIFO of task identities.
//!
//! The queue itself is crossbeam's lock-free bounded MPMC `ArrayQueue`,
//! which is what makes a waker safe to invoke from any execution context
//! without caller-side synchronization. Verus cannot look inside it, so
//! this module declares the type, names its contents and capacity, and
//! states the sequential behaviour of the few operations the executor
//! uses, each checked against the crate's source. Within the verified
//! library the executor holds the queue exclusively, so the stronger
//! concurrent guarantees of the structure are not relied upon here.

use vstd::prelude::*;

verus! {

#[verifier::external_type_specification]
#[verifier::external_body]
#[verifier::reject_recursive_types(T)]
pub struct ExArrayQueue<T>(crossbeam_queue::ArrayQueue<T>);

/// The identities currently in the queue, oldest (next to pop) first.
pub uninterp spec fn queue_entries(q: crossbeam_queue::ArrayQueue<u64>) -> Seq<u64>;

/// The fixed capacity the queue was constructed with.
pub uninterp spec fn queue_capacity(q: crossbeam_queue::ArrayQueue<u64>) -> nat;

/// Relies on crossbeam_queue::ArrayQueue::new: an empty queue of the given
/// capacity. It panics on a zero or enormous capacity, which the requires
/// excludes.
#[verifier::external_body]
pub(crate) fn queue_new(cap: usize) -> (q: crossbeam_queue::ArrayQueue<u64>)
    requires
        1 <= cap <= 0x1000_0000,
    ensures
        queue_entries(q) == Seq::<u64>::empty(),
        queue_capacity(q) == cap as nat,
{
    crossbeam_queue::ArrayQueue::new(cap)
}

/// Relies on crossbeam_queue::ArrayQueue::push: appends the value at the
/// tail, or hands it back as the error when the queue already holds
/// capacity-many entries.
#[verifier::external_body]
pub(crate) fn queue_push(q: &mut crossbeam_queue::ArrayQueue<u64>, v: u64) -> (r: Result<(), u64>)
    ensures
        queue_capacity(*final(q)) == queue_capacity(*old(q)),
        r == (if queue_entries(*old(q)).len() < queue_capacity(*old(q)) {
            Ok::<(), u64>(())
        } else {
            Err::<(), u64>(v)
        }),
        queue_entries(*final(q)) == (if queue_entries(*old(q)).len() < queue_capacity(*old(q)) {
            queue_entries(*old(q)).push(v)
        } else {
            queue_entries(*old(q))
        }),
{
    q.push(v)
}

/// Relies on crossbeam_queue::ArrayQueue::pop: removes and returns the
/// oldest entry, or returns nothing from an empty queue.
#[verifier::external_body]
pub(crate) fn queue_pop(q: &mut crossbeam_queue::ArrayQueue<u64>) -> (r: Option<u64>)
    ensures
        queue_capacity(*final(q)) == queue_capacity(*old(q)),
        r == (if queue_entries(*old(q)).len() == 0 {
            None::<u64>
        } else {
            Some(queue_entries(*old(q))[0])
        }),
        queue_entries(*final(q)) == (if queue_entries(*old(q)).len() == 0 {
            queue_entries(*old(q))
        } else {
            queue_entries(*old(q)).drop_first()
        }),
{
    q.pop()
}

/// Relies on crossbeam_queue::ArrayQueue::is_empty: whether head and tail
/// coincide, i.e. no entry is queued.
#[verifier::external_body]
pub(crate) fn queue_is_empty(q: &crossbeam_queue::ArrayQueue<u64>) -> (r: bool)
    ensures
        r == (queue_entries(*q).len() == 0),
{
    q.is_empty()
}

/// Relies on crossbeam_queue::ArrayQueue::is_full: whether the queue holds
/// capacity-many entries.
#[verifier::external_body]
pub(crate) fn queue_is_full(q: &crossbeam_queue::ArrayQueue<u64>) -> (r: bool)
    ensures
        r == (queue_entries(*q).len() == queue_capacity(*q)),
{
    q.is_full()
}

} // verus!
