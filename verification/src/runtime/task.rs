//! A task: the future it runs, as an opaque value, and the waker that
//! reschedules it.
use vstd::prelude::*;

use super::waker::RWaker;

verus! {

/// A task holding the future `F` that it runs and its waker.
pub struct Task<F> {
    fut: F,
    waker: RWaker,
}

impl<F> Task<F> {
    /// The future the task runs.
    pub closed spec fn future(self) -> F {
        self.fut
    }

    /// The waker of the task.
    pub closed spec fn waker(self) -> RWaker {
        self.waker
    }

    /// Creates a task for `fut` with the given waker.
    pub fn new(fut: F, waker: RWaker) -> (t: Self)
        ensures
            t.future() == fut,
            t.waker() == waker,
    {
        Task { fut, waker }
    }

    /// Replaces the waker of the task by `nwaker`.
    pub fn update_waker(&mut self, nwaker: RWaker)
        ensures
            final(self).waker() == nwaker,
            final(self).future() == old(self).future(),
    {
        self.waker = nwaker;
    }

    /// The waker of the task.
    pub fn waker_ptr(&self) -> (r: &RWaker)
        ensures
            *r == self.waker(),
    {
        &self.waker
    }

    /// Mutable access to the future of the task, to poll it; the waker stays.
    pub fn future_mut(&mut self) -> (r: &mut F)
        ensures
            *r == old(self).future(),
            final(self).future() == *final(r),
            final(self).waker() == old(self).waker(),
    {
        &mut self.fut
    }
}

} // verus!
