//! An executor of the multi-threaded runtime: an ID and its own queue of ready tasks.
use vstd::prelude::*;

use super::taskqueue::mpmc::enqueue_admitted;
use super::taskqueue::TaskQueue;
use super::{RunError, TaskID};

verus! {

/// An executor with its own queue of ready tasks, with room for `TASKS` IDs.
pub struct Executor<const TASKS: usize> {
    id: usize,
    queue: TaskQueue<TASKS>,
    running: bool,
}

impl<const TASKS: usize> Executor<TASKS> {
    /// The executor's ID.
    pub closed spec fn id(self) -> usize {
        self.id
    }

    /// The IDs of the tasks on this executor's queue, head first.
    pub closed spec fn queue_view(self) -> Seq<TaskID> {
        self.queue.view()
    }

    /// The executor was started.
    pub closed spec fn started(self) -> bool {
        self.running
    }

    /// How many IDs were ever enqueued on this executor's queue; each uses up a position.
    pub closed spec fn positions_used(self) -> nat {
        self.queue.enqueued_total()
    }

    /// The queue's position counters leave room for one more operation.
    pub open spec fn has_headroom(self) -> bool {
        self.positions_used() + TASKS < usize::MAX
    }

    /// The executor's queue is well formed.
    pub closed spec fn wf(self) -> bool {
        self.queue.wf()
    }

    /// The queue never holds more than `TASKS` IDs.
    pub proof fn lemma_bounded(self)
        requires
            self.wf(),
        ensures
            self.queue_view().len() <= TASKS,
    {
        self.queue.lemma_bounded();
    }

    /// Creates an executor with the given ID, an empty queue, not yet started.
    pub fn new(id: usize) -> (e: Self)
        ensures
            e.wf(),
            e.id() == id,
            e.queue_view() == Seq::<TaskID>::empty(),
            !e.started(),
            e.positions_used() == 0,
    {
        Executor { id, queue: TaskQueue::new(), running: false }
    }

    /// Sets the executor's ID.
    pub fn set_id(&mut self, n_id: usize)
        ensures
            final(self).id() == n_id,
            final(self).queue_view() == old(self).queue_view(),
            final(self).started() == old(self).started(),
            final(self).positions_used() == old(self).positions_used(),
            final(self).wf() == old(self).wf(),
    {
        self.id = n_id;
    }

    /// The executor's ID.
    pub fn get_id(&self) -> (r: usize)
        ensures
            r == self.id(),
    {
        self.id
    }

    /// Marks the executor as started; fails when it was started before.
    pub fn start(&mut self) -> (r: Result<(), RunError>)
        ensures
            old(self).started() ==> r == Err::<(), RunError>(RunError::AlreadyRunning) && *final(self) == *old(self),
            !old(self).started() ==> r is Ok && final(self).started() && final(self).id() == old(self).id()
                && final(self).queue_view() == old(self).queue_view()
                && final(self).positions_used() == old(self).positions_used()
                && final(self).wf() == old(self).wf(),
    {
        if self.running {
            return Err(RunError::AlreadyRunning);
        }
        self.running = true;
        Ok(())
    }

    /// Whether the queue's position counters leave room for one more operation.
    pub fn within_position_limit(&self) -> (r: bool)
        ensures
            r == self.has_headroom(),
    {
        self.queue.within_position_limit()
    }

    /// Whether an enqueue onto this executor's queue is admitted in its current state.
    pub fn enqueue_admitted(&self) -> (r: bool)
        requires
            self.wf(),
        ensures
            r == enqueue_admitted(TASKS as nat, self.queue_view()),
            TASKS >= 2 ==> r,
            self.queue_view().len() == 0 ==> r,
            !r ==> TASKS < 2 && self.queue_view().len() > 0,
    {
        TASKS >= 2 || self.queue.is_empty()
    }

    /// Takes the ID at the head of this executor's queue, if any.
    pub fn dequeue(&mut self) -> (r: Option<TaskID>)
        requires
            old(self).wf(),
            old(self).has_headroom(),
            TASKS > 0,
        ensures
            final(self).wf(),
            final(self).id() == old(self).id(),
            final(self).started() == old(self).started(),
            final(self).positions_used() == old(self).positions_used(),
            old(self).queue_view().len() > 0 ==> r == Some(old(self).queue_view()[0])
                && final(self).queue_view() == old(self).queue_view().drop_first(),
            old(self).queue_view().len() == 0 ==> r is None && *final(self) == *old(self),
    {
        self.queue.dequeue()
    }

    /// Appends `id` to this executor's queue, or hands it back when the queue is full.
    pub fn enqueue(&mut self, id: TaskID) -> (r: Result<(), TaskID>)
        requires
            old(self).wf(),
            old(self).has_headroom(),
            TASKS > 0,
            enqueue_admitted(TASKS as nat, old(self).queue_view()),
        ensures
            final(self).wf(),
            final(self).id() == old(self).id(),
            final(self).started() == old(self).started(),
            old(self).queue_view().len() < TASKS ==> r is Ok && final(self).queue_view() == old(self).queue_view().push(id)
                && final(self).positions_used() == old(self).positions_used() + 1,
            old(self).queue_view().len() >= TASKS ==> r == Err::<(), TaskID>(id) && *final(self) == *old(self),
    {
        self.queue.sender().enqueue(id)
    }
}

} // verus!
