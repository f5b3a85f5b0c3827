//! The queue of task IDs that are ready to be polled.
use vstd::prelude::*;

use super::TaskID;

pub mod mpmc;

verus! {

/// The queue of task IDs that are ready to be polled, with room for `N` IDs.
pub struct TaskQueue<const N: usize>(mpmc::Queue<TaskID, N>);

/// A handle that enqueues task IDs onto a task queue.
pub struct QueueSender<'s, const N: usize> {
    pub queue: &'s mut TaskQueue<N>,
}

impl<const N: usize> TaskQueue<N> {
    /// The ring invariant of the underlying queue.
    pub closed spec fn wf(self) -> bool {
        self.0.wf()
    }

    /// The IDs in the queue, head first.
    pub closed spec fn view(self) -> Seq<TaskID> {
        self.0.view()
    }

    /// The position counters leave room for one more operation.
    pub open spec fn has_headroom(self) -> bool {
        self.enqueued_total() + N < usize::MAX
    }

    /// How many IDs have ever been enqueued.
    pub closed spec fn enqueued_total(self) -> nat {
        self.0.enqueued_total()
    }

    /// The queue never holds more than `N` IDs.
    pub proof fn lemma_bounded(self)
        requires
            self.wf(),
        ensures
            self.view().len() <= N,
    {
        self.0.lemma_len_bounded();
    }

    /// Creates an empty task queue.
    pub fn new() -> (q: Self)
        ensures
            q.wf(),
            q.view() == Seq::<TaskID>::empty(),
            q.enqueued_total() == 0,
            q.has_headroom() <==> N < usize::MAX,
    {
        TaskQueue(mpmc::Queue::new())
    }

    /// Whether the queue holds no ID.
    pub fn is_empty(&self) -> (r: bool)
        requires
            self.wf(),
        ensures
            r == (self.view().len() == 0),
    {
        self.0.is_empty()
    }

    /// Whether the position counters leave room for one more operation.
    pub fn within_position_limit(&self) -> (r: bool)
        ensures
            r == self.has_headroom(),
    {
        self.0.within_position_limit()
    }

    /// A sender for this queue.
    pub fn sender(&mut self) -> (s: QueueSender<'_, N>)
        ensures
            *s.queue == *old(self),
            *final(self) == *final(s.queue),
    {
        QueueSender { queue: self }
    }

    /// Takes the ID at the head, if any.
    pub fn dequeue(&mut self) -> (r: Option<TaskID>)
        requires
            old(self).wf(),
            old(self).has_headroom(),
            N > 0,
        ensures
            final(self).wf(),
            final(self).enqueued_total() == old(self).enqueued_total(),
            final(self).has_headroom() == old(self).has_headroom(),
            old(self).view().len() > 0 ==> r == Some(old(self).view()[0]) && final(self).view()
                == old(self).view().drop_first(),
            old(self).view().len() == 0 ==> r is None && *final(self) == *old(self),
    {
        match self.0.dequeue() {
            Ok(id) => Some(id),
            Err(_) => None,
        }
    }

    /// Appends `id` at the tail, or hands it back when the queue is full.
    pub fn enqueue(&mut self, id: TaskID) -> (r: Result<(), TaskID>)
        requires
            old(self).wf(),
            old(self).has_headroom(),
            N > 0,
            mpmc::enqueue_admitted(N as nat, old(self).view()),
        ensures
            final(self).wf(),
            old(self).view().len() < N ==> r is Ok && final(self).view() == old(self).view().push(id)
                && final(self).enqueued_total() == old(self).enqueued_total() + 1,
            old(self).view().len() >= N ==> r == Err::<(), TaskID>(id) && *final(self) == *old(self),
    {
        self.0.sender().enqueue(id)
    }
}

impl<'s, const N: usize> QueueSender<'s, N> {
    /// Enqueues the ID on the queue, or hands it back when the queue is full.
    pub fn enqueue(self, id: TaskID) -> (r: Result<(), TaskID>)
        requires
            self.queue.wf(),
            self.queue.has_headroom(),
            N > 0,
            mpmc::enqueue_admitted(N as nat, self.queue.view()),
        ensures
            final(self.queue).wf(),
            old(self.queue).view().len() < N ==> r is Ok && final(self.queue).view() == old(self.queue).view().push(id) && final(self.queue).enqueued_total() == old(self.queue).enqueued_total()
                + 1,
            old(self.queue).view().len() >= N ==> r == Err::<(), TaskID>(id) && *final(self.queue)
                == *old(self.queue),
    {
        self.queue.enqueue(id)
    }
}

} // verus!
