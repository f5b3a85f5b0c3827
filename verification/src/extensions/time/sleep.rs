//! The sleep future's state: how long to sleep and, once it was first polled,
//! the timer entry it waits on.
//!
//! The timer only starts when the sleep is first polled, so a sleep at the very
//! start of a task completes `time_to_first_poll + duration` after the task was
//! added. Its accuracy is the timer's interval.
use vstd::prelude::*;

use super::{target_laps, target_slot, EntryID, EntryView, Timer};

verus! {

/// A sleep of a given number of milliseconds, counted from its first poll.
pub struct Sleep {
    sleep_ms: u128,
    id: Option<EntryID>,
}

/// Creates a sleep of `sleep_ms` milliseconds; the same as [`Sleep::new`].
pub fn sleep(sleep_ms: u128) -> (s: Sleep)
    ensures
        s.duration() == sleep_ms,
        s.entry() is None,
{
    Sleep::new(sleep_ms)
}

impl Sleep {
    /// The length of the sleep in milliseconds.
    pub closed spec fn duration(self) -> u128 {
        self.sleep_ms
    }

    /// The timer entry the sleep waits on, once it was first polled.
    pub closed spec fn entry(self) -> Option<EntryID> {
        self.id
    }

    /// The sleep can be polled now without a precondition failing: on the first
    /// poll its timer can be registered; on later polls its entry is one of the timer's.
    pub open spec fn pollable<W, const T: usize, const S: usize>(self, timer: Timer<W, T, S>) -> bool {
        match self.entry() {
            None => timer.registrable(self.duration()),
            Some(id) => id.slot < S && id.task < T,
        }
    }

    /// Creates a sleep of `sleep_ms` milliseconds that will be ready once that
    /// time has passed from its first poll.
    pub fn new(sleep_ms: u128) -> (s: Self)
        ensures
            s.duration() == sleep_ms,
            s.entry() is None,
    {
        Sleep { sleep_ms, id: None }
    }

    /// The length of the sleep in milliseconds.
    pub fn duration_ms(&self) -> (r: u128)
        ensures
            r == self.duration(),
    {
        self.sleep_ms
    }

    /// The timer entry the sleep waits on, once it was first polled.
    pub fn entry_id(&self) -> (r: Option<EntryID>)
        ensures
            r == self.entry(),
    {
        self.id
    }

    /// Polls the sleep. The first poll registers its timer for `waker` and
    /// returns not ready; a later poll returns whether the timer has fired,
    /// and changes nothing.
    pub fn poll<W, const T: usize, const S: usize>(&mut self, timer: &mut Timer<W, T, S>, waker: W) -> (ready: bool)
        requires
            old(timer).wf(),
            old(self).pollable(*old(timer)),
        ensures
            final(timer).wf(),
            final(self).duration() == old(self).duration(),
            final(timer).current() == old(timer).current(),
            final(timer).interval() == old(timer).interval(),
            old(self).entry() matches Some(id) ==> ready == old(timer).wheel()[id.slot as int][id.task as int].fired
                && *final(self) == *old(self) && final(timer).wheel() == old(timer).wheel(),
            old(self).entry() is None ==> !ready && (final(self).entry() matches Some(id) && {
                &&& id.slot == target_slot(old(timer).current() as int, old(self).duration() as int, old(timer).interval() as int, S as int)
                &&& id.task < T
                &&& old(timer).wheel()[id.slot as int][id.task as int].status == 0
                &&& forall|j: int| 0 <= j < id.task ==> #[trigger] old(timer).wheel()[id.slot as int][j].status != 0
                &&& final(timer).wheel() == old(timer).wheel().update(
                    id.slot as int,
                    old(timer).wheel()[id.slot as int].update(
                        id.task as int,
                        EntryView {
                            status: 2,
                            waker: Some(waker),
                            count: target_laps(old(self).duration() as int, old(timer).interval() as int, S as int),
                            fired: false,
                        },
                    ),
                )
            }),
    {
        match self.id {
            None => {
                let n_id = timer.register_timer(self.sleep_ms, waker);
                self.id = Some(n_id);
                false
            },
            Some(id) => {
                let fired = id.has_fired(timer);
                fired
            },
        }
    }

    /// Drops the sleep's timer, if it registered one: its entry is freed.
    pub fn cancel<W, const T: usize, const S: usize>(&mut self, timer: &mut Timer<W, T, S>)
        requires
            old(timer).wf(),
            old(self).entry() matches Some(id) ==> id.slot < S && id.task < T,
        ensures
            *final(self) == *old(self),
            final(timer).wf(),
            final(timer).current() == old(timer).current(),
            final(timer).interval() == old(timer).interval(),
            old(self).entry() is None ==> final(timer).wheel() == old(timer).wheel(),
            old(self).entry() matches Some(id) ==> (old(timer).wheel()[id.slot as int][id.task as int].status == 2
                ==> final(timer).wheel() == old(timer).wheel().update(
                id.slot as int,
                old(timer).wheel()[id.slot as int].update(id.task as int, super::free_entry::<W>()),
            )),
            old(self).entry() matches Some(id) ==> (old(timer).wheel()[id.slot as int][id.task as int].status != 2
                ==> final(timer).wheel() == old(timer).wheel()),
    {
        match self.id {
            Some(id) => {
                let mut id = id;
                id.clear(timer);
            },
            None => {},
        }
    }
}

} // verus!
