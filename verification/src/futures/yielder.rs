//! A yield point: a future that is pending once, waking its task right away,
//! and ready on the next poll. It lets a long running computation give the
//! runtime a chance to run other tasks.
use vstd::prelude::*;

verus! {

/// The state of a yield point.
pub struct Yielder {
    polled: bool,
}

/// Creates a yield point; the same as [`Yielder::new`].
pub fn yield_now() -> (y: Yielder)
    ensures
        !y.was_polled(),
{
    Yielder::new()
}

impl Yielder {
    /// The yield point was polled before.
    pub closed spec fn was_polled(self) -> bool {
        self.polled
    }

    /// Creates a yield point that was not polled yet.
    pub fn new() -> (y: Self)
        ensures
            !y.was_polled(),
    {
        Yielder { polled: false }
    }

    /// Polls the yield point: the first poll returns not ready, and the caller
    /// then wakes the task before returning pending; every later poll returns
    /// ready.
    pub fn poll(&mut self) -> (ready: bool)
        ensures
            ready == old(self).was_polled(),
            final(self).was_polled(),
    {
        if !self.polled {
            self.polled = true;
            false
        } else {
            true
        }
    }
}

impl Default for Yielder {
    fn default() -> (y: Self)
        ensures
            !y.was_polled(),
    {
        Yielder::new()
    }
}

} // verus!
