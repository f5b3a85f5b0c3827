//! The single-threaded runtime and the parts it is built from.
//!
//! The runtime holds its tasks in a fixed-size [`TaskList`] and the IDs of the
//! tasks that are ready to make progress in a bounded [`TaskQueue`]. Running it
//! is a loop that the caller drives: [`Runtime::start`] once, then repeatedly
//! [`Runtime::next_task`], poll the task's future, and hand the task back with
//! [`Runtime::complete_poll`], which says when the last task has completed;
//! `next_task` answers `Finished` when no task is ready and none is running.
//! Waking a task is [`Runtime::wake`].
use vstd::prelude::*;

pub mod executor;
pub mod multithreaded;
pub mod task;
pub mod tasklist;
pub mod taskqueue;
pub mod waker;

use task::Task;
use tasklist::status::SlotStatus;
use tasklist::{
    checked_in, checked_out, is_first_empty, is_full, obtainable, SlotView, TaskGuard, TaskList,
};
use taskqueue::mpmc::enqueue_admitted;
use taskqueue::TaskQueue;
use waker::RWaker;

verus! {

/// The ID of a task: the index of its slot in the task list.
#[derive(Debug, Clone, Copy, PartialEq, Eq, Structural)]
pub struct TaskID(pub usize);

/// The error returned when a task cannot be added.
#[derive(Debug, Clone, Copy, PartialEq, Eq, Structural)]
pub enum AddTaskError {
    /// The runtime already holds its maximum number of tasks.
    TooManyTasks,
}

/// The error returned when a runtime cannot be started.
#[derive(Debug, Clone, Copy, PartialEq, Eq, Structural)]
pub enum RunError {
    /// The runtime was already started once.
    AlreadyRunning,
}

/// What a runtime's loop does next.
pub enum Step<T> {
    /// Poll the task held by the guard, then hand it back.
    Poll(TaskGuard<T>),
    /// No task is ready: sleep, then try again.
    Idle,
    /// Every task has completed: stop.
    Finished,
    /// The task with this ID was ready but its guard could not be obtained.
    Unavailable(TaskID),
}

/// A counter after an atomic increment, which wraps around at the top.
pub open spec fn counter_incremented(x: usize) -> usize {
    if x == usize::MAX {
        0
    } else {
        (x + 1) as usize
    }
}

/// A counter after an atomic decrement, which wraps around at zero.
pub open spec fn counter_decremented(x: usize) -> usize {
    if x == 0 {
        usize::MAX
    } else {
        (x - 1) as usize
    }
}

/// An increment below the top adds one, and a decrement above zero takes one
/// away: the count of running tasks follows the tasks added and completed.
pub proof fn lemma_counter_steps(x: usize)
    ensures
        x < usize::MAX ==> counter_incremented(x) == x + 1,
        x > 0 ==> counter_decremented(x) == x - 1,
        x > 0 ==> counter_incremented(counter_decremented(x)) == x,
        x < usize::MAX ==> counter_decremented(counter_incremented(x)) == x,
{
}

/// The slots `new` are the slots `old` with slot `i` now holding a fresh task
/// for `fut`, whose waker puts it back on queue `queue` under its own ID.
pub open spec fn stored_fresh<F>(
    new: Seq<SlotView<Task<F>>>,
    old: Seq<SlotView<Task<F>>>,
    i: int,
    fut: F,
    queue: usize,
) -> bool {
    &&& 0 <= i < old.len()
    &&& new == old.update(i, (SlotStatus::Stored, new[i].1))
    &&& new[i].1 matches Some(t) && t.future() == fut && t.waker() == (RWaker {
        queue,
        id: TaskID(i as usize),
    })
}

/// Every task held in place in `slots` has a waker that puts it back on the
/// queue `queue` under its own ID.
pub open spec fn wakers_name_their_slots<F>(slots: Seq<SlotView<Task<F>>>, queue: usize) -> bool {
    forall|i: int|
        0 <= i < slots.len() ==> ((#[trigger] slots[i]).1 matches Some(t) ==> t.waker() == (RWaker {
            queue,
            id: TaskID(i as usize),
        }))
}

/// Adding a task keeps every stored task's waker pointing at its own slot, and
/// so does handing a task out to a guard and taking back a task whose waker
/// points at its slot.
pub proof fn lemma_wakers_name_their_slots<F>(
    old_slots: Seq<SlotView<Task<F>>>,
    new_slots: Seq<SlotView<Task<F>>>,
    i: int,
    fut: F,
    queue: usize,
    back: Task<F>,
)
    requires
        wakers_name_their_slots(old_slots, queue),
        0 <= i < old_slots.len(),
    ensures
        stored_fresh(new_slots, old_slots, i, fut, queue) ==> wakers_name_their_slots(new_slots, queue),
        wakers_name_their_slots(checked_out(old_slots, i), queue),
        back.waker() == (RWaker { queue, id: TaskID(i as usize) }) ==> wakers_name_their_slots(
            checked_in(old_slots, i, back),
            queue,
        ),
{
    if stored_fresh(new_slots, old_slots, i, fut, queue) {
        assert forall|j: int| 0 <= j < new_slots.len() implies ((#[trigger] new_slots[j]).1 matches Some(t)
            ==> t.waker() == (RWaker { queue, id: TaskID(j as usize) })) by {
            if j != i {
                assert(new_slots[j] == old_slots[j]);
            }
        }
    }
    let out = checked_out(old_slots, i);
    assert forall|j: int| 0 <= j < out.len() implies ((#[trigger] out[j]).1 matches Some(t) ==> t.waker() == (
    RWaker { queue, id: TaskID(j as usize) })) by {
        if j != i {
            assert(out[j] == old_slots[j]);
        }
    }
    if back.waker() == (RWaker { queue, id: TaskID(i as usize) }) {
        let inn = checked_in(old_slots, i, back);
        assert forall|j: int| 0 <= j < inn.len() implies ((#[trigger] inn[j]).1 matches Some(t) ==> t.waker() == (
        RWaker { queue, id: TaskID(j as usize) })) by {
            if j != i {
                assert(inn[j] == old_slots[j]);
            }
        }
    }
}

/// The single-threaded runtime, with room for `TASKS` tasks running futures of type `F`.
pub struct Runtime<F, const TASKS: usize> {
    queue: TaskQueue<TASKS>,
    task_list: TaskList<Task<F>, TASKS>,
    running: bool,
    running_tasks: usize,
}

impl<F, const N: usize> Runtime<F, N> {
    /// The IDs of the tasks that are ready, head first.
    pub closed spec fn queue_view(self) -> Seq<TaskID> {
        self.queue.view()
    }

    /// The slots of the task list.
    pub closed spec fn slots(self) -> Seq<SlotView<Task<F>>> {
        self.task_list.view()
    }

    /// The runtime was started.
    pub closed spec fn started(self) -> bool {
        self.running
    }

    /// The number of tasks added and not yet completed.
    pub closed spec fn running_tasks(self) -> usize {
        self.running_tasks
    }

    /// How many IDs were ever put on the ready queue; each uses up a position.
    pub closed spec fn positions_used(self) -> nat {
        self.queue.enqueued_total()
    }

    /// The ready queue's position counters leave room for one more operation.
    pub open spec fn has_headroom(self) -> bool {
        self.positions_used() + N < usize::MAX
    }

    /// The queue and the task list are well formed.
    pub closed spec fn wf(self) -> bool {
        &&& self.queue.wf()
        &&& self.task_list.wf()
    }

    /// The task list has `N` consistent slots, and the queue never holds more than `N` IDs.
    pub proof fn lemma_wf_facts(self)
        requires
            self.wf(),
        ensures
            self.slots().len() == N,
            tasklist::slots_consistent(self.slots()),
            self.queue_view().len() <= N,
    {
        self.queue.lemma_bounded();
    }

    /// Creates a new runtime with no tasks, not yet started.
    pub fn new() -> (r: Self)
        ensures
            r.wf(),
            r.queue_view() == Seq::<TaskID>::empty(),
            forall|i: int| 0 <= i < N ==> #[trigger] r.slots()[i] == (SlotStatus::Empty, None::<Task<F>>),
            r.slots().len() == N,
            !r.started(),
            r.running_tasks() == 0,
            r.positions_used() == 0,
    {
        Runtime {
            queue: TaskQueue::new(),
            task_list: TaskList::new(),
            running: false,
            running_tasks: 0,
        }
    }

    /// Whether the ready queue's position counters leave room for one more operation.
    pub fn within_position_limit(&self) -> (r: bool)
        ensures
            r == self.has_headroom(),
    {
        self.queue.within_position_limit()
    }

    /// Whether the task list has an empty slot.
    pub fn has_free_slot(&self) -> (r: bool)
        requires
            self.wf(),
        ensures
            r == !is_full(self.slots()),
    {
        self.task_list.has_empty_slot()
    }

    /// Whether an enqueue onto the ready queue is admitted in its current state.
    pub fn enqueue_admitted(&self) -> (r: bool)
        requires
            self.wf(),
        ensures
            r == enqueue_admitted(N as nat, self.queue_view()),
            N >= 2 ==> r,
            self.queue_view().len() == 0 ==> r,
            !r ==> N < 2 && self.queue_view().len() > 0,
    {
        N >= 2 || self.queue.is_empty()
    }

    /// Adds a task running `fut`: it is stored in the first empty slot with a
    /// waker for its own ID and put on the ready queue. Fails with
    /// `TooManyTasks` when no slot is empty, and also when the ready queue is
    /// full, in which case the task stays stored but is not scheduled.
    pub fn add_task(&mut self, fut: F) -> (r: Result<TaskID, AddTaskError>)
        requires
            old(self).wf(),
            is_full(old(self).slots()) || (old(self).has_headroom() && enqueue_admitted(
                N as nat,
                old(self).queue_view(),
            )),
        ensures
            final(self).wf(),
            r is Err ==> r == Err::<TaskID, AddTaskError>(AddTaskError::TooManyTasks),
            final(self).started() == old(self).started(),
            r is Ok <==> !is_full(old(self).slots()) && old(self).queue_view().len() < N,
            r matches Ok(id) ==> {
                &&& is_first_empty(old(self).slots(), id.0 as int)
                &&& stored_fresh(final(self).slots(), old(self).slots(), id.0 as int, fut, 0)
                &&& final(self).queue_view() == old(self).queue_view().push(id)
                &&& final(self).running_tasks() == counter_incremented(old(self).running_tasks())
                &&& old(self).running_tasks() < usize::MAX ==> final(self).running_tasks() == old(self).running_tasks() + 1
                &&& final(self).positions_used() == old(self).positions_used() + 1
            },
            r is Err ==> {
                &&& final(self).queue_view() == old(self).queue_view()
                &&& final(self).running_tasks() == old(self).running_tasks()
                &&& final(self).positions_used() == old(self).positions_used()
            },
            r is Err && is_full(old(self).slots()) ==> final(self).slots() == old(self).slots(),
            r is Err && !is_full(old(self).slots()) ==> exists|i: int|
                is_first_empty(old(self).slots(), i) && stored_fresh(
                    final(self).slots(),
                    old(self).slots(),
                    i,
                    fut,
                    0,
                ),
    {
        proof {
            self.queue.lemma_bounded();
        }
        let ghost pre_slots = self.task_list.view();
        let waker = RWaker::new(0, TaskID(0));
        let task = Task::new(fut, waker);
        let task_id = match self.task_list.add_task(task) {
            Ok(id) => id,
            Err(_) => return Err(AddTaskError::TooManyTasks),
        };
        proof {
            tasklist::lemma_fill_keeps_consistency(pre_slots, task_id.0 as int, task);
        }
        let mut task_ref = match self.task_list.get_task(task_id) {
            Some(g) => g,
            None => return Err(AddTaskError::TooManyTasks),
        };
        task_ref.task_mut().update_waker(RWaker::new(0, task_id));
        let ghost stored = task_ref.value();
        self.task_list.release(task_ref);
        proof {
            assert(self.task_list.view() =~= pre_slots.update(
                task_id.0 as int,
                (SlotStatus::Stored, Some(stored)),
            ));
        }
        if self.queue_sender().enqueue(task_id).is_err() {
            return Err(AddTaskError::TooManyTasks);
        }
        self.running_tasks = self.running_tasks.wrapping_add(1);
        Ok(task_id)
    }

    /// A sender for the ready queue.
    fn queue_sender(&mut self) -> (s: taskqueue::QueueSender<'_, N>)
        ensures
            *s.queue == old(self).queue,
            final(self).queue == *final(s.queue),
            final(self).task_list == old(self).task_list,
            final(self).running == old(self).running,
            final(self).running_tasks == old(self).running_tasks,
    {
        self.queue.sender()
    }

    /// Marks the runtime as started; fails when it was started before, whether
    /// or not it is still running.
    pub fn start(&mut self) -> (r: Result<(), RunError>)
        ensures
            old(self).started() ==> r == Err::<(), RunError>(RunError::AlreadyRunning) && *final(self) == *old(self),
            !old(self).started() ==> r is Ok && final(self).started() && final(self).slots()
                == old(self).slots() && final(self).queue_view() == old(self).queue_view()
                && final(self).running_tasks() == old(self).running_tasks()
                && final(self).positions_used() == old(self).positions_used() && (old(self).wf()
                ==> final(self).wf()),
    {
        if self.running {
            return Err(RunError::AlreadyRunning);
        }
        self.running = true;
        Ok(())
    }

    /// Takes the next ready task off the queue and hands it out for polling.
    /// When no task is ready, the answer is `Finished` if no task is running
    /// any more (so a runtime without tasks finishes at once), and `Idle`
    /// otherwise, on which the loop should sleep; when the dequeued task's
    /// guard cannot be obtained its ID is returned as unavailable.
    pub fn next_task(&mut self) -> (r: Step<Task<F>>)
        requires
            old(self).wf(),
            old(self).has_headroom(),
        ensures
            final(self).wf(),
            final(self).started() == old(self).started(),
            final(self).running_tasks() == old(self).running_tasks(),
            final(self).positions_used() == old(self).positions_used(),
            old(self).queue_view().len() == 0 ==> final(self).slots() == old(self).slots() && final(self).queue_view() == old(self).queue_view(),
            old(self).queue_view().len() == 0 && old(self).running_tasks() == 0 ==> r is Finished,
            old(self).queue_view().len() == 0 && old(self).running_tasks() != 0 ==> r is Idle,
            r is Finished ==> old(self).queue_view().len() == 0 && old(self).running_tasks() == 0,
            r is Idle ==> old(self).queue_view().len() == 0 && old(self).running_tasks() != 0,
            old(self).queue_view().len() > 0 ==> final(self).queue_view() == old(self).queue_view().drop_first(),
            old(self).queue_view().len() > 0 && obtainable(
                old(self).slots(),
                old(self).queue_view()[0].0 as int,
            ) ==> (r matches Step::Poll(g) && g.id() == old(self).queue_view()[0] && Some(g.value())
                == old(self).slots()[g.id().0 as int].1 && final(self).slots() == checked_out(
                old(self).slots(),
                g.id().0 as int,
            )),
            old(self).queue_view().len() > 0 && !obtainable(
                old(self).slots(),
                old(self).queue_view()[0].0 as int,
            ) ==> r == Step::<Task<F>>::Unavailable(old(self).queue_view()[0]) && final(self).slots()
                == old(self).slots(),
    {
        proof {
            self.queue.lemma_bounded();
        }
        if self.queue.is_empty() {
            if self.running_tasks == 0 {
                return Step::Finished;
            }
            return Step::Idle;
        }
        match self.queue.dequeue() {
            None => Step::Idle,
            Some(id) => match self.task_list.get_task(id) {
                Some(g) => Step::Poll(g),
                None => Step::Unavailable(id),
            },
        }
    }

    /// Hands a polled task back to its slot. When its future completed, the
    /// count of running tasks drops by one, and the result says whether that
    /// task was the last one running.
    pub fn complete_poll(&mut self, guard: TaskGuard<Task<F>>, ready: bool) -> (finished: bool)
        requires
            old(self).wf(),
            0 <= guard.id().0 < N,
            old(self).slots()[guard.id().0 as int].0 == SlotStatus::Accessed,
        ensures
            final(self).wf(),
            final(self).started() == old(self).started(),
            final(self).queue_view() == old(self).queue_view(),
            final(self).positions_used() == old(self).positions_used(),
            final(self).slots() == checked_in(old(self).slots(), guard.id().0 as int, guard.value()),
            ready ==> final(self).running_tasks() == counter_decremented(old(self).running_tasks())
                && finished == (old(self).running_tasks() == 1),
            !ready ==> final(self).running_tasks() == old(self).running_tasks() && !finished,
            ready && old(self).running_tasks() > 0 ==> final(self).running_tasks() == old(self).running_tasks() - 1,
            finished <==> ready && final(self).running_tasks() == 0 && old(self).running_tasks() == 1,
    {
        self.task_list.release(guard);
        if ready {
            let prev = self.running_tasks;
            self.running_tasks = prev.wrapping_sub(1);
            prev == 1
        } else {
            false
        }
    }

    /// Puts the task of `waker` back on the ready queue; hands its ID back when
    /// the queue is full.
    pub fn wake(&mut self, waker: &RWaker) -> (r: Result<(), TaskID>)
        requires
            old(self).wf(),
            old(self).has_headroom(),
            N > 0,
            enqueue_admitted(N as nat, old(self).queue_view()),
        ensures
            final(self).wf(),
            final(self).started() == old(self).started(),
            final(self).running_tasks() == old(self).running_tasks(),
            final(self).slots() == old(self).slots(),
            old(self).queue_view().len() < N ==> r is Ok && final(self).queue_view() == old(self).queue_view().push(waker.id)
                && final(self).positions_used() == old(self).positions_used() + 1,
            old(self).queue_view().len() >= N ==> r == Err::<(), TaskID>(waker.id) && final(self).queue_view() == old(self).queue_view() && final(self).positions_used() == old(self).positions_used(),
    {
        self.queue.enqueue(waker.id)
    }
}

} // verus!
