//! A waker for tests, which counts how often it was woken.
use vstd::prelude::*;

use std::sync::atomic::{AtomicUsize, Ordering};
use std::sync::Arc;

verus! {

/// A waker that counts its wake-ups in a shared counter.
pub struct TestWaker {
    wake_count: Arc<AtomicUsize>,
}

impl TestWaker {
    /// The shared counter.
    pub closed spec fn counter(self) -> Arc<AtomicUsize> {
        self.wake_count
    }

    /// A waker counting into `wake_count`.
    pub fn new(wake_count: Arc<AtomicUsize>) -> (w: Self)
        ensures
            w.counter() == wake_count,
    {
        TestWaker { wake_count }
    }

    /// Records one wake-up in the shared counter.
    pub fn wake_by_ref(&self) {
        self.wake_count.fetch_add(1, Ordering::SeqCst);
    }
}

} // verus!
