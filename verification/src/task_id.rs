//! Task identities and their allocator.

use vstd::prelude::*;

verus! {

/// An opaque 64-bit task identity: a table key and queue payload, never
/// dereferenced. Values are totally ordered by their `value` field and are
/// never reused by one allocator.
#[derive(Clone, Copy, Debug, PartialEq, Eq, Structural, Hash)]
pub struct TaskId {
    pub value: u64,
}

impl TaskId {
    /// Wraps a raw 64-bit value as a task identity.
    pub fn new(value: u64) -> (r: TaskId)
        ensures
            r.value == value,
    {
        TaskId { value }
    }
}

/// A monotonically increasing generator of task identities. The original
/// design hid this counter in a process-wide static; here it is an explicit
/// object so its lifecycle is visible and testable in isolation.
pub struct TaskIdAllocator {
    next: u64,
}

impl TaskIdAllocator {
    /// The value the next allocated identity will carry.
    pub closed spec fn spec_next(self) -> u64 {
        self.next
    }

    /// A fresh allocator, handing out identities from zero upward.
    pub fn new() -> (r: TaskIdAllocator)
        ensures
            r.spec_next() == 0,
    {
        TaskIdAllocator { next: 0 }
    }

    /// Allocates the next identity. Identities are strictly increasing, so
    /// one allocator never hands out the same identity twice.
    pub fn allocate(&mut self) -> (r: TaskId)
        requires
            old(self).spec_next() < u64::MAX,
        ensures
            r.value == old(self).spec_next(),
            final(self).spec_next() == old(self).spec_next() + 1,
    {
        let id = TaskId { value: self.next };
        self.next = self.next + 1;
        id
    }
}

} // verus!
