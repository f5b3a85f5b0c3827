//! The fixed-size list that holds the tasks of a runtime. Every slot carries a
//! status that says whether it is empty, being filled, holding a task, or
//! holding a task that someone is accessing through a guard; only one guard
//! exists per task at any time.
use vstd::prelude::*;

use super::TaskID;

pub mod status;

use status::{AtomicStatus, SlotStatus};

verus! {

struct TaskSlot<T> {
    status: AtomicStatus,
    task: Option<T>,
}

/// A list with room for `N` tasks.
pub struct TaskList<T, const N: usize> {
    slots: Vec<TaskSlot<T>>,
}

/// Exclusive access to a single task of a list, obtained through
/// [`TaskList::get_task`] and handed back through [`TaskList::release`].
pub struct TaskGuard<T> {
    index: usize,
    task: T,
}

/// The model of a slot: its status and the task it holds in place.
pub type SlotView<T> = (SlotStatus, Option<T>);

/// A slot is consistent when it holds a task in place exactly when its status
/// is `Stored`, and it is never left `Locked`.
pub open spec fn slot_consistent<T>(s: SlotView<T>) -> bool {
    &&& s.0 != SlotStatus::Locked
    &&& (s.0 == SlotStatus::Stored <==> s.1 is Some)
}

/// Every slot of the model is consistent.
pub open spec fn slots_consistent<T>(s: Seq<SlotView<T>>) -> bool {
    forall|i: int| 0 <= i < s.len() ==> #[trigger] slot_consistent(s[i])
}

/// `i` is the first empty slot of the model.
pub open spec fn is_first_empty<T>(s: Seq<SlotView<T>>, i: int) -> bool {
    &&& 0 <= i < s.len()
    &&& s[i].0 == SlotStatus::Empty
    &&& forall|j: int| 0 <= j < i ==> #[trigger] s[j].0 != SlotStatus::Empty
}

/// The model has no empty slot.
pub open spec fn is_full<T>(s: Seq<SlotView<T>>) -> bool {
    forall|j: int| 0 <= j < s.len() ==> #[trigger] s[j].0 != SlotStatus::Empty
}

/// The model after the slot `i` was filled with `task`.
pub open spec fn filled<T>(s: Seq<SlotView<T>>, i: int, task: T) -> Seq<SlotView<T>> {
    s.update(i, (SlotStatus::Stored, Some(task)))
}

/// The model after the task of slot `i` was handed out to a guard.
pub open spec fn checked_out<T>(s: Seq<SlotView<T>>, i: int) -> Seq<SlotView<T>> {
    s.update(i, (SlotStatus::Accessed, None))
}

/// The model after a guard handed the task `task` back to slot `i`.
pub open spec fn checked_in<T>(s: Seq<SlotView<T>>, i: int, task: T) -> Seq<SlotView<T>> {
    s.update(i, (SlotStatus::Stored, Some(task)))
}

/// A guard can be obtained for slot `i` exactly when it holds a task nobody is
/// accessing.
pub open spec fn obtainable<T>(s: Seq<SlotView<T>>, i: int) -> bool {
    0 <= i < s.len() && s[i].0 == SlotStatus::Stored
}

impl<T> TaskGuard<T> {
    /// The ID of the task this guard gives access to.
    pub closed spec fn id(self) -> TaskID {
        TaskID(self.index)
    }

    /// The task this guard gives access to.
    pub closed spec fn value(self) -> T {
        self.task
    }

    /// Marks the slot as accessed and takes its task out, when the slot holds a
    /// task that nobody is accessing.
    fn obtain(slot: &mut TaskSlot<T>, index: usize) -> (r: Option<Self>)
        requires
            slot_consistent((old(slot).status@, old(slot).task)),
        ensures
            old(slot).status@ == SlotStatus::Stored ==> r == Some(
                TaskGuard { index, task: old(slot).task->0 },
            ) && final(slot).status@ == SlotStatus::Accessed && final(slot).task is None,
            old(slot).status@ != SlotStatus::Stored ==> r is None && *final(slot) == *old(slot),
    {
        if slot.status.compare_exchange(SlotStatus::Stored, SlotStatus::Accessed).is_err() {
            return None;
        }
        match slot.task.take() {
            Some(task) => Some(TaskGuard { index, task }),
            None => None,
        }
    }

    /// The task this guard gives access to.
    pub fn task(&self) -> (r: &T)
        ensures
            *r == self.value(),
    {
        &self.task
    }

    /// Mutable access to the task this guard gives access to.
    pub fn task_mut(&mut self) -> (r: &mut T)
        ensures
            *r == old(self).value(),
            final(self).value() == *final(r),
            final(self).id() == old(self).id(),
    {
        &mut self.task
    }

    /// The ID of the task this guard gives access to.
    pub fn task_id(&self) -> (r: TaskID)
        ensures
            r == self.id(),
    {
        TaskID(self.index)
    }
}

impl<T, const N: usize> TaskList<T, N> {
    /// The slots of the list, in order.
    pub closed spec fn view(self) -> Seq<SlotView<T>> {
        Seq::new(self.slots@.len(), |i: int| (self.slots@[i].status@, self.slots@[i].task))
    }

    /// The list has `N` slots, each of them consistent.
    pub open spec fn wf(self) -> bool {
        &&& self.view().len() == N
        &&& slots_consistent(self.view())
    }

    /// Creates a list with `N` empty slots.
    pub fn new() -> (l: Self)
        ensures
            l.wf(),
            forall|i: int| 0 <= i < N ==> #[trigger] l.view()[i] == (SlotStatus::Empty, None::<T>),
    {
        let mut slots: Vec<TaskSlot<T>> = Vec::new();
        let mut i: usize = 0;
        while i < N
            invariant
                i <= N,
                slots@.len() == i,
                forall|j: int|
                    0 <= j < i ==> #[trigger] slots@[j].status@ == SlotStatus::Empty
                        && slots@[j].task is None,
            decreases N - i,
        {
            slots.push(TaskSlot { status: AtomicStatus::new(SlotStatus::Empty), task: None });
            i += 1;
        }
        TaskList { slots }
    }

    /// Whether some slot is empty.
    pub fn has_empty_slot(&self) -> (r: bool)
        requires
            self.wf(),
        ensures
            r == !is_full(self.view()),
    {
        let mut i: usize = 0;
        while i < self.slots.len()
            invariant
                self.wf(),
                i <= N,
                forall|j: int| 0 <= j < i ==> #[trigger] self.view()[j].0 != SlotStatus::Empty,
            decreases N - i,
        {
            assert(self.view()[i as int] == (self.slots@[i as int].status@, self.slots@[i as int].task));
            if self.slots[i].status.load() == SlotStatus::Empty {
                assert(self.view()[i as int].0 == SlotStatus::Empty);
                return true;
            }
            i += 1;
        }
        false
    }

    /// Stores `task` in the first empty slot and returns that slot's ID, or
    /// fails when no slot is empty.
    pub fn add_task(&mut self, task: T) -> (r: Result<TaskID, ()>)
        requires
            old(self).wf(),
        ensures
            final(self).wf(),
            match r {
                Ok(id) => is_first_empty(old(self).view(), id.0 as int) && final(self).view()
                    == filled(old(self).view(), id.0 as int, task),
                Err(_) => is_full(old(self).view()) && final(self).view() == old(self).view(),
            },
    {
        let ghost pre = self.view();
        let len = self.slots.len();
        let mut index: usize = 0;
        while index < len
            invariant
                len == N,
                index <= len,
                self.view() == pre,
                pre == old(self).view(),
                self.wf(),
                forall|j: int| 0 <= j < index ==> #[trigger] pre[j].0 != SlotStatus::Empty,
            decreases len - index,
        {
            assert(self.view()[index as int] == (self.slots@[index as int].status@, self.slots@[index as int].task));
            let ghost before = self.slots@;
            if self.slots[index].status.compare_exchange(SlotStatus::Empty, SlotStatus::Locked).is_ok() {
                // The slot is now locked by us: fill it and publish it.
                self.slots[index].task = Some(task);
                self.slots[index].status.store(SlotStatus::Stored);
                proof {
                    assert(self.view() =~= filled(pre, index as int, task));
                }
                return Ok(TaskID(index));
            }
            assert(self.slots@ =~= before);
            index += 1;
        }
        Err(())
    }

    /// Obtains the guard of the task `id`, when its slot holds a task that
    /// nobody is accessing.
    pub fn get_task(&mut self, id: TaskID) -> (r: Option<TaskGuard<T>>)
        requires
            old(self).wf(),
        ensures
            final(self).wf(),
            obtainable(old(self).view(), id.0 as int) ==> (r matches Some(g) && g.id() == id
                && Some(g.value()) == old(self).view()[id.0 as int].1 && final(self).view()
                == checked_out(old(self).view(), id.0 as int)),
            !obtainable(old(self).view(), id.0 as int) ==> r is None && final(self).view() == old(self).view(),
    {
        let index = id.0;
        if index >= self.slots.len() {
            return None;
        }
        let ghost pre = self.view();
        assert(pre[index as int] == (self.slots@[index as int].status@, self.slots@[index as int].task));
        assert(slot_consistent(pre[index as int]));
        let r = TaskGuard::obtain(&mut self.slots[index], index);
        proof {
            if r is Some {
                assert(self.view() =~= checked_out(pre, index as int));
            } else {
                assert(self.view() =~= pre);
            }
        }
        r
    }

    /// Hands the task of `guard` back to its slot, which becomes obtainable again.
    pub fn release(&mut self, guard: TaskGuard<T>)
        requires
            old(self).wf(),
            0 <= guard.id().0 < N,
            old(self).view()[guard.id().0 as int].0 == SlotStatus::Accessed,
        ensures
            final(self).wf(),
            final(self).view() == checked_in(old(self).view(), guard.id().0 as int, guard.value()),
    {
        let ghost pre = self.view();
        let TaskGuard { index, task } = guard;
        self.slots[index].task = Some(task);
        self.slots[index].status.store(SlotStatus::Stored);
        proof {
            assert(self.view() =~= checked_in(pre, index as int, task));
        }
    }
}

/// Handing out a task to a guard and taking it back leaves the list as it was.
pub proof fn lemma_obtain_release_roundtrip<T>(s: Seq<SlotView<T>>, i: int)
    requires
        obtainable(s, i),
        slots_consistent(s),
    ensures
        checked_in(checked_out(s, i), i, s[i].1->0) == s,
{
    assert(slot_consistent(s[i]));
    assert(checked_in(checked_out(s, i), i, s[i].1->0) =~= s);
}

/// While a guard for a task is out, no second guard can be obtained for it;
/// once it is handed back, a guard can be obtained again.
pub proof fn lemma_guard_exclusive<T>(s: Seq<SlotView<T>>, i: int, task: T)
    requires
        obtainable(s, i),
    ensures
        !obtainable(checked_out(s, i), i),
        obtainable(checked_in(checked_out(s, i), i, task), i),
{
}

/// Filling a slot keeps the list consistent, and the filled slot is obtainable.
pub proof fn lemma_fill_keeps_consistency<T>(s: Seq<SlotView<T>>, i: int, task: T)
    requires
        slots_consistent(s),
        is_first_empty(s, i),
    ensures
        slots_consistent(filled(s, i, task)),
        obtainable(filled(s, i, task), i),
        forall|j: int| 0 <= j < s.len() && j != i ==> #[trigger] filled(s, i, task)[j] == s[j],
{
}

/// Tasks are never removed: adding a task, handing one out to a guard, and
/// taking it back never make a slot that was not empty empty again.
pub proof fn lemma_no_removal<T>(s: Seq<SlotView<T>>, i: int, task: T, j: int)
    requires
        0 <= i < s.len(),
        0 <= j < s.len(),
        s[j].0 != SlotStatus::Empty,
    ensures
        filled(s, i, task)[j].0 != SlotStatus::Empty,
        checked_out(s, i)[j].0 != SlotStatus::Empty,
        checked_in(s, i, task)[j].0 != SlotStatus::Empty,
{
}

/// The first empty slot is unique.
pub proof fn lemma_first_empty_unique<T>(s: Seq<SlotView<T>>, i: int, j: int)
    requires
        is_first_empty(s, i),
        is_first_empty(s, j),
    ensures
        i == j,
{
    if i < j {
        assert(s[i].0 != SlotStatus::Empty);
    } else if j < i {
        assert(s[j].0 != SlotStatus::Empty);
    }
}

} // verus!
