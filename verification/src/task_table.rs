//! The executor's task table: a mapping from task identity to task, keys
//! unique, iteration order irrelevant.

use vstd::prelude::*;
use crate::task_async::{TaskAsync, TaskView};

verus! {

/// Every task in the sequence carries a distinct identity.
pub open spec fn unique_ids(s: Seq<TaskView>) -> bool {
    forall|i: int, j: int|
        0 <= i < j < s.len() ==> s[i].id.value != s[j].id.value
}

/// The task with the given identity, if present (the first occurrence;
/// under `unique_ids` the only one).
pub open spec fn find_task(s: Seq<TaskView>, id: u64) -> Option<TaskView>
    decreases s.len(),
{
    if s.len() == 0 {
        None
    } else if s[0].id.value == id {
        Some(s[0])
    } else {
        find_task(s.drop_first(), id)
    }
}

/// The polls the whole table can absorb before every task is parked or
/// complete; drives termination of a drain pass.
pub open spec fn table_measure(s: Seq<TaskView>) -> nat
    decreases s.len(),
{
    if s.len() == 0 {
        0
    } else {
        s[0].comp.measure() + table_measure(s.drop_first())
    }
}

/// `find_task` misses exactly when no entry carries the identity.
pub proof fn lemma_find_none_iff(s: Seq<TaskView>, id: u64)
    ensures
        (find_task(s, id) is None) <==> (forall|j: int|
            0 <= j < s.len() ==> s[j].id.value != id),
    decreases s.len(),
{
    if s.len() == 0 {
    } else {
        lemma_find_none_iff(s.drop_first(), id);
        if find_task(s, id) is None {
            assert forall|j: int| 0 <= j < s.len() implies s[j].id.value != id by {
                if j > 0 {
                    assert(s.drop_first()[j - 1] == s[j]);
                }
            }
        }
        if forall|j: int| 0 <= j < s.len() ==> s[j].id.value != id {
            assert forall|j: int|
                0 <= j < s.drop_first().len() implies s.drop_first()[j].id.value != id by {
                assert(s.drop_first()[j] == s[j + 1]);
            }
        }
    }
}

/// `find_task` returns the entry at the first index carrying the identity.
pub proof fn lemma_find_at(s: Seq<TaskView>, i: int, id: u64)
    requires
        0 <= i < s.len(),
        s[i].id.value == id,
        forall|j: int| 0 <= j < i ==> s[j].id.value != id,
    ensures
        find_task(s, id) == Some(s[i]),
    decreases i,
{
    if i == 0 {
    } else {
        assert(s[0].id.value != id);
        assert(forall|j: int| 0 <= j < s.drop_first().len() ==> s.drop_first()[j] == s[j + 1]);
        lemma_find_at(s.drop_first(), i - 1, id);
    }
}

/// A found task carries the identity it was looked up by.
pub proof fn lemma_find_id(s: Seq<TaskView>, id: u64)
    ensures
        match find_task(s, id) {
            Some(tv) => tv.id.value == id,
            None => true,
        },
    decreases s.len(),
{
    if s.len() == 0 {
    } else if s[0].id.value == id {
    } else {
        lemma_find_id(s.drop_first(), id);
    }
}

/// How appending affects lookups: present entries shadow the new one; an
/// absent identity is found exactly when the new entry carries it.
pub proof fn lemma_find_push(s: Seq<TaskView>, t: TaskView, id: u64)
    ensures
        find_task(s.push(t), id) == (if find_task(s, id) is Some {
            find_task(s, id)
        } else if t.id.value == id {
            Some(t)
        } else {
            None::<TaskView>
        }),
    decreases s.len(),
{
    if s.len() == 0 {
        assert(s.push(t)[0] == t);
        assert(s.push(t).drop_first() =~= Seq::<TaskView>::empty());
    } else {
        assert(s.push(t)[0] == s[0]);
        assert(s.push(t).drop_first() =~= s.drop_first().push(t));
        lemma_find_push(s.drop_first(), t, id);
    }
}

/// How removal affects lookups, for a table with unique identities: only
/// the removed identity disappears.
pub proof fn lemma_find_remove(s: Seq<TaskView>, i: int, id: u64)
    requires
        unique_ids(s),
        0 <= i < s.len(),
    ensures
        find_task(s.remove(i), id) == (if s[i].id.value == id {
            None::<TaskView>
        } else {
            find_task(s, id)
        }),
    decreases s.len(),
{
    if i == 0 {
        assert(s.remove(0) =~= s.drop_first());
        if s[0].id.value == id {
            lemma_find_none_iff(s.drop_first(), id);
            assert(forall|j: int|
                0 <= j < s.drop_first().len() ==> s.drop_first()[j] == s[j + 1]);
        }
    } else {
        assert(s.remove(i)[0] == s[0]);
        assert(s.remove(i).drop_first() =~= s.drop_first().remove(i - 1));
        assert(forall|j: int| 0 <= j < s.drop_first().len() ==> s.drop_first()[j] == s[j + 1]);
        lemma_find_remove(s.drop_first(), i - 1, id);
    }
}

/// Appending adds the new task's polls to the table's budget.
pub proof fn lemma_measure_push(s: Seq<TaskView>, t: TaskView)
    ensures
        table_measure(s.push(t)) == table_measure(s) + t.comp.measure(),
    decreases s.len(),
{
    if s.len() == 0 {
        assert(s.push(t)[0] == t);
        assert(s.push(t).drop_first() =~= Seq::<TaskView>::empty());
        assert(table_measure(s.push(t).drop_first()) == 0);
        assert(table_measure(s.push(t)) == t.comp.measure() + table_measure(
            s.push(t).drop_first(),
        ));
    } else {
        assert(s.push(t)[0] == s[0]);
        assert(s.push(t).drop_first() =~= s.drop_first().push(t));
        lemma_measure_push(s.drop_first(), t);
        assert(table_measure(s.push(t)) == s[0].comp.measure() + table_measure(
            s.drop_first().push(t),
        ));
        assert(table_measure(s) == s[0].comp.measure() + table_measure(s.drop_first()));
    }
}

/// Removing a task subtracts its polls from the table's budget.
pub proof fn lemma_measure_remove(s: Seq<TaskView>, i: int)
    requires
        0 <= i < s.len(),
    ensures
        table_measure(s.remove(i)) + s[i].comp.measure() == table_measure(s),
    decreases s.len(),
{
    if i == 0 {
        assert(s.remove(0) =~= s.drop_first());
    } else {
        assert(s.remove(i)[0] == s[0]);
        assert(s.remove(i).drop_first() =~= s.drop_first().remove(i - 1));
        lemma_measure_remove(s.drop_first(), i - 1);
    }
}

/// The task table. Entries are created on spawn and removed when the owned
/// computation completes; lookups go by identity.
pub struct TaskTable {
    items: Vec<TaskAsync>,
}

impl View for TaskTable {
    type V = Seq<TaskView>;

    closed spec fn view(&self) -> Seq<TaskView> {
        self.items@.map_values(|t: TaskAsync| t@)
    }
}

impl TaskTable {
    /// An empty table.
    pub fn new() -> (r: TaskTable)
        ensures
            r@ =~= Seq::<TaskView>::empty(),
    {
        TaskTable { items: Vec::new() }
    }

    /// The number of live tasks.
    pub fn len(&self) -> (r: usize)
        ensures
            r == self@.len(),
    {
        self.items.len()
    }

    /// Whether no task is live.
    pub fn is_empty(&self) -> (r: bool)
        ensures
            r == (self@.len() == 0),
    {
        self.items.is_empty()
    }

    /// The index of the task with this identity.
    fn index_of(&self, id: u64) -> (r: Option<usize>)
        ensures
            match r {
                Some(i) => i < self@.len() && self@[i as int].id.value == id && find_task(
                    self@,
                    id,
                ) == Some(self@[i as int]),
                None => find_task(self@, id) is None,
            },
    {
        let n = self.items.len();
        let mut i: usize = 0;
        while i < n
            invariant
                i <= n,
                n == self@.len(),
                forall|j: int| 0 <= j < i ==> self@[j].id.value != id,
            decreases n - i,
        {
            if self.items[i].id().value == id {
                proof {
                    lemma_find_at(self@, i as int, id);
                }
                return Some(i);
            }
            i = i + 1;
        }
        proof {
            lemma_find_none_iff(self@, id);
        }
        None
    }

    /// Whether a task with this identity is live.
    pub fn contains(&self, id: u64) -> (r: bool)
        ensures
            r == (find_task(self@, id) is Some),
    {
        self.index_of(id).is_some()
    }

    /// How far the computation of the task with this identity has
    /// progressed.
    pub fn progress_of(&self, id: u64) -> (r: Option<usize>)
        ensures
            match find_task(self@, id) {
                Some(tv) => r == Some(tv.comp.pc as usize),
                None => r is None,
            },
    {
        match self.index_of(id) {
            Some(i) => Some(self.items[i].progress()),
            None => None,
        }
    }

    /// Whether the task with this identity is parked on an unfired timer.
    pub fn is_waiting(&self, id: u64) -> (r: bool)
        ensures
            r == (find_task(self@, id) matches Some(tv) && tv.comp.parked_waiting()),
    {
        match self.index_of(id) {
            Some(i) => self.items[i].is_waiting(),
            None => false,
        }
    }

    /// Insert a task under its identity, which must not be present.
    pub fn insert(&mut self, t: TaskAsync)
        requires
            unique_ids(old(self)@),
            find_task(old(self)@, t@.id.value) is None,
        ensures
            final(self)@ == old(self)@.push(t@),
            unique_ids(final(self)@),
            find_task(final(self)@, t@.id.value) == Some(t@),
            forall|j: u64|
                j != t@.id.value ==> find_task(final(self)@, j) == find_task(old(self)@, j),
            table_measure(final(self)@) == table_measure(old(self)@) + t@.comp.measure(),
    {
        let ghost pre = self@;
        let ghost tv = t@;
        self.items.push(t);
        proof {
            assert(self@ =~= pre.push(tv));
            lemma_find_none_iff(pre, tv.id.value);
            assert(unique_ids(self@)) by {
                assert(forall|j: int| 0 <= j < pre.len() ==> self@[j] == pre[j]);
            }
            assert forall|j: u64| true implies find_task(self@, j) == (if j == tv.id.value {
                Some(tv)
            } else {
                find_task(pre, j)
            }) by {
                lemma_find_push(pre, tv, j);
            }
            lemma_measure_push(pre, tv);
        }
    }

    /// Take the task with this identity out of the table, handing the
    /// caller exclusive access; absent identities (stale queue entries)
    /// yield `None` and change nothing.
    pub fn remove_by_id(&mut self, id: u64) -> (r: Option<TaskAsync>)
        requires
            unique_ids(old(self)@),
        ensures
            unique_ids(final(self)@),
            match find_task(old(self)@, id) {
                None => r is None && final(self)@ == old(self)@,
                Some(tv) => {
                    &&& r matches Some(task) && task@ == tv
                    &&& find_task(final(self)@, id) is None
                    &&& forall|j: u64|
                        j != id ==> find_task(final(self)@, j) == find_task(old(self)@, j)
                    &&& table_measure(final(self)@) + tv.comp.measure() == table_measure(
                        old(self)@,
                    )
                    &&& final(self)@.len() + 1 == old(self)@.len()
                },
            },
    {
        let ghost pre = self@;
        match self.index_of(id) {
            Some(i) => {
                let task = self.items.remove(i);
                proof {
                    assert(self@ =~= pre.remove(i as int));
                    assert(unique_ids(self@)) by {
                        assert(forall|j: int|
                            0 <= j < self@.len() ==> self@[j] == (if j < i {
                                pre[j]
                            } else {
                                pre[j + 1]
                            }));
                    }
                    assert forall|j: u64| true implies find_task(self@, j) == (if j == id {
                        None::<TaskView>
                    } else {
                        find_task(pre, j)
                    }) by {
                        lemma_find_remove(pre, i as int, j);
                    }
                    lemma_measure_remove(pre, i as int);
                }
                Some(task)
            },
            None => None,
        }
    }
}

} // verus!
