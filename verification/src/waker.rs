//! The waker: a capability bound to one task identity.

use vstd::prelude::*;
use crate::task_id::TaskId;

verus! {

/// A capability that re-admits one task to the readiness queue.
///
/// It is modelled explicitly as a small value type carrying the identity of
/// the task it belongs to; the shared readiness-queue handle of the original
/// design is the executor that issued the waker, so invoking the capability
/// means handing it back to that executor's `wake` method (directly, or via
/// `fire_timer` for a waker stored in a timer). A waker may be copied freely
/// and invoked more than once: duplicate deliveries at worst add stale queue
/// entries, which the drain pass tolerates.
#[derive(Clone, Copy, Debug, PartialEq, Eq, Structural)]
pub struct TaskWaker {
    /// The identity of the task this capability re-admits.
    pub task_id: TaskId,
}

impl TaskWaker {
    /// Binds a waker to a task identity. The executor issues one per live
    /// task, cached from the task's first poll onward; one bound to an
    /// identity the executor does not know produces stale queue entries at
    /// worst.
    pub fn new(task_id: TaskId) -> (r: TaskWaker)
        ensures
            r.task_id == task_id,
    {
        TaskWaker { task_id }
    }
}

/// Every cached waker is bound to a distinct task identity.
pub open spec fn unique_waker_ids(s: Seq<TaskWaker>) -> bool {
    forall|i: int, j: int|
        0 <= i < j < s.len() ==> s[i].task_id.value != s[j].task_id.value
}

/// The cached waker bound to the given identity, if any.
pub open spec fn find_waker(s: Seq<TaskWaker>, id: u64) -> Option<TaskWaker>
    decreases s.len(),
{
    if s.len() == 0 {
        None
    } else if s[0].task_id.value == id {
        Some(s[0])
    } else {
        find_waker(s.drop_first(), id)
    }
}

proof fn lemma_find_waker_none_iff(s: Seq<TaskWaker>, id: u64)
    ensures
        (find_waker(s, id) is None) <==> (forall|j: int|
            0 <= j < s.len() ==> s[j].task_id.value != id),
    decreases s.len(),
{
    if s.len() == 0 {
    } else {
        lemma_find_waker_none_iff(s.drop_first(), id);
        if find_waker(s, id) is None {
            assert forall|j: int| 0 <= j < s.len() implies s[j].task_id.value != id by {
                if j > 0 {
                    assert(s.drop_first()[j - 1] == s[j]);
                }
            }
        }
        if forall|j: int| 0 <= j < s.len() ==> s[j].task_id.value != id {
            assert forall|j: int|
                0 <= j < s.drop_first().len() implies s.drop_first()[j].task_id.value != id by {
                assert(s.drop_first()[j] == s[j + 1]);
            }
        }
    }
}

proof fn lemma_find_waker_at(s: Seq<TaskWaker>, i: int, id: u64)
    requires
        0 <= i < s.len(),
        s[i].task_id.value == id,
        forall|j: int| 0 <= j < i ==> s[j].task_id.value != id,
    ensures
        find_waker(s, id) == Some(s[i]),
    decreases i,
{
    if i == 0 {
    } else {
        assert(forall|j: int| 0 <= j < s.drop_first().len() ==> s.drop_first()[j] == s[j + 1]);
        lemma_find_waker_at(s.drop_first(), i - 1, id);
    }
}

proof fn lemma_find_waker_push(s: Seq<TaskWaker>, t: TaskWaker, id: u64)
    ensures
        find_waker(s.push(t), id) == (if find_waker(s, id) is Some {
            find_waker(s, id)
        } else if t.task_id.value == id {
            Some(t)
        } else {
            None::<TaskWaker>
        }),
    decreases s.len(),
{
    if s.len() == 0 {
        assert(s.push(t)[0] == t);
        assert(s.push(t).drop_first() =~= Seq::<TaskWaker>::empty());
    } else {
        assert(s.push(t)[0] == s[0]);
        assert(s.push(t).drop_first() =~= s.drop_first().push(t));
        lemma_find_waker_push(s.drop_first(), t, id);
    }
}

proof fn lemma_find_waker_remove(s: Seq<TaskWaker>, i: int, id: u64)
    requires
        unique_waker_ids(s),
        0 <= i < s.len(),
    ensures
        find_waker(s.remove(i), id) == (if s[i].task_id.value == id {
            None::<TaskWaker>
        } else {
            find_waker(s, id)
        }),
    decreases s.len(),
{
    if i == 0 {
        assert(s.remove(0) =~= s.drop_first());
        if s[0].task_id.value == id {
            lemma_find_waker_none_iff(s.drop_first(), id);
            assert(forall|j: int|
                0 <= j < s.drop_first().len() ==> s.drop_first()[j] == s[j + 1]);
        }
    } else {
        assert(s.remove(i)[0] == s[0]);
        assert(s.remove(i).drop_first() =~= s.drop_first().remove(i - 1));
        assert(forall|j: int| 0 <= j < s.drop_first().len() ==> s.drop_first()[j] == s[j + 1]);
        lemma_find_waker_remove(s.drop_first(), i - 1, id);
    }
}

/// The executor's waker cache: at most one live waker per live task,
/// created lazily the first time a task is polled and removed when the task
/// completes, so a capability object need not be rebuilt on every poll.
pub struct WakerCache {
    items: Vec<TaskWaker>,
}

impl View for WakerCache {
    type V = Seq<TaskWaker>;

    closed spec fn view(&self) -> Seq<TaskWaker> {
        self.items@
    }
}

impl WakerCache {
    /// An empty cache.
    pub fn new() -> (r: WakerCache)
        ensures
            r@ =~= Seq::<TaskWaker>::empty(),
    {
        WakerCache { items: Vec::new() }
    }

    fn index_of(&self, id: u64) -> (r: Option<usize>)
        ensures
            match r {
                Some(i) => i < self@.len() && self@[i as int].task_id.value == id && find_waker(
                    self@,
                    id,
                ) == Some(self@[i as int]),
                None => find_waker(self@, id) is None,
            },
    {
        let n = self.items.len();
        let mut i: usize = 0;
        while i < n
            invariant
                i <= n,
                n == self@.len(),
                forall|j: int| 0 <= j < i ==> self@[j].task_id.value != id,
            decreases n - i,
        {
            if self.items[i].task_id.value == id {
                proof {
                    lemma_find_waker_at(self@, i as int, id);
                }
                return Some(i);
            }
            i = i + 1;
        }
        proof {
            lemma_find_waker_none_iff(self@, id);
        }
        None
    }

    /// The cached waker for this identity, if one is live.
    pub fn lookup(&self, id: u64) -> (r: Option<TaskWaker>)
        ensures
            r == find_waker(self@, id),
    {
        match self.index_of(id) {
            Some(i) => Some(self.items[i]),
            None => None,
        }
    }

    /// The waker for this identity: the cached one, or a freshly bound one
    /// that is cached from now on.
    pub fn get_or_insert(&mut self, id: TaskId) -> (w: TaskWaker)
        requires
            unique_waker_ids(old(self)@),
        ensures
            w == (TaskWaker { task_id: id }),
            unique_waker_ids(final(self)@),
            find_waker(final(self)@, id.value) == Some(w),
            forall|j: u64|
                j != id.value ==> find_waker(final(self)@, j) == find_waker(old(self)@, j),
    {
        let ghost pre = self@;
        match self.index_of(id.value) {
            Some(i) => {
                let w = self.items[i];
                proof {
                    assert(unique_waker_ids(pre));
                    // the cached waker carries exactly the identity it is
                    // filed under, being a one-field value
                    assert(w == (TaskWaker { task_id: id }));
                }
                w
            },
            None => {
                let w = TaskWaker::new(id);
                self.items.push(w);
                proof {
                    lemma_find_waker_none_iff(pre, id.value);
                    assert(unique_waker_ids(self@)) by {
                        assert(forall|j: int| 0 <= j < pre.len() ==> self@[j] == pre[j]);
                        assert(self@[pre.len() as int] == w);
                    }
                    assert forall|j: u64| true implies find_waker(self@, j) == (if j == id.value {
                        Some(w)
                    } else {
                        find_waker(pre, j)
                    }) by {
                        lemma_find_waker_push(pre, w, j);
                    }
                }
                w
            },
        }
    }

    /// Drop the cached waker for this identity, if any; done when its task
    /// completes.
    pub fn remove(&mut self, id: u64)
        requires
            unique_waker_ids(old(self)@),
        ensures
            unique_waker_ids(final(self)@),
            find_waker(final(self)@, id) is None,
            forall|j: u64| j != id ==> find_waker(final(self)@, j) == find_waker(old(self)@, j),
    {
        let ghost pre = self@;
        match self.index_of(id) {
            Some(i) => {
                let _ = self.items.remove(i);
                proof {
                    assert(unique_waker_ids(self@)) by {
                        assert(forall|j: int|
                            0 <= j < self@.len() ==> self@[j] == (if j < i {
                                pre[j]
                            } else {
                                pre[j + 1]
                            }));
                    }
                    assert forall|j: u64| true implies find_waker(self@, j) == (if j == id {
                        None::<TaskWaker>
                    } else {
                        find_waker(pre, j)
                    }) by {
                        lemma_find_waker_remove(pre, i as int, j);
                    }
                }
            },
            None => {},
        }
    }
}

} // verus!
