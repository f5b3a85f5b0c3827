//! The data behind a task's waker: which queue to put the task back on, and
//! which task it is.
use vstd::prelude::*;

use super::TaskID;

verus! {

/// What a task's waker needs to reschedule it: the index of the queue the task
/// is put back on when woken (0 for the single-threaded runtime, the executor's
/// index for the multi-threaded one), and the task's ID.
#[derive(Debug, Clone, Copy, PartialEq, Eq, Structural)]
pub struct RWaker {
    pub queue: usize,
    pub id: TaskID,
}

impl RWaker {
    /// The waker that puts the task `id` back on the queue `queue`.
    pub fn new(queue: usize, id: TaskID) -> (r: Self)
        ensures
            r == (RWaker { queue, id }),
    {
        RWaker { queue, id }
    }
}

} // verus!
