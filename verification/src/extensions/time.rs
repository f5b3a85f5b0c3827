//! Time related futures, like sleep, driven by a timer wheel.
//!
//! A [`Timer`] has `SLOTS` slots of `TASKS` entries each and a current slot.
//! [`Timer::update`] must be called at the interval the timer was created with:
//! every call fires the entries of the current slot and moves on to the next
//! slot. A timer of `target_ms` goes into the slot `target_ms / interval - 1`
//! places ahead, with a count of the laps it has to wait; it fires on the
//! `target_ms / interval`-th update after it was registered. Timers are thus
//! rounded down to the interval: with an interval of 10ms, timers of 10ms,
//! 12ms, 15ms and 19ms all fire on the same update.
//!
//! The wakers are held as opaque values of type `W`; [`Timer::update`] returns
//! the entries that fired, and the caller wakes their wakers.
use vstd::prelude::*;

pub mod schedule;
pub mod sleep;
pub use sleep::{sleep, Sleep};

verus! {

/// The model of a wheel entry: its status (0 free, 1 being filled, 2 holding
/// a timer), its waker, the laps left, and whether it has fired.
pub struct EntryView<W> {
    pub status: u8,
    pub waker: Option<W>,
    pub count: usize,
    pub fired: bool,
}

/// An entry is consistent when it is free, with no waker, no laps and not
/// fired, or holds a timer with a waker.
pub open spec fn entry_consistent<W>(e: EntryView<W>) -> bool {
    e == free_entry::<W>() || (e.status == 2 && e.waker is Some)
}

/// A free entry, as created or cleared.
pub open spec fn free_entry<W>() -> EntryView<W> {
    EntryView { status: 0, waker: None, count: 0, fired: false }
}

/// A laps counter after an atomic decrement, which wraps around at zero.
pub open spec fn laps_decremented(x: usize) -> usize {
    if x == 0 {
        usize::MAX
    } else {
        (x - 1) as usize
    }
}

/// The entry after its slot was visited by an update, and whether its waker
/// is to be woken: an entry holding a timer that has not fired yet counts down
/// one lap, and fires when it was on its last lap.
pub open spec fn entry_fire<W>(e: EntryView<W>) -> (EntryView<W>, bool) {
    if e.status != 2 || e.fired {
        (e, false)
    } else if e.count > 1 {
        (EntryView { count: laps_decremented(e.count), ..e }, false)
    } else {
        (EntryView { count: laps_decremented(e.count), fired: true, ..e }, true)
    }
}

/// Where a timer sits in the wheel.
#[derive(Debug, Clone, Copy, PartialEq, Eq, Structural)]
pub struct EntryID {
    pub slot: usize,
    pub task: usize,
}

/// A single entry of a wheel slot.
pub struct WheelEntry<W> {
    status: u8,
    waker: Option<W>,
    count: usize,
    fired: bool,
}

/// A slot of the wheel, with room for `TASKS` timers.
pub struct WheelSlot<W, const TASKS: usize> {
    tasks: Vec<WheelEntry<W>>,
}

/// The wheel: `SLOTS` slots of `TASKS` entries each.
pub struct TimerWheel<W, const TASKS: usize, const SLOTS: usize> {
    slots: Vec<WheelSlot<W, TASKS>>,
}

/// The timer behind all time related futures.
pub struct Timer<W, const TASKS: usize, const SLOTS: usize> {
    wheel: TimerWheel<W, TASKS, SLOTS>,
    current_slot: usize,
    steps_ms: u128,
}

impl<W> WheelEntry<W> {
    /// The model of this entry.
    pub closed spec fn view(self) -> EntryView<W> {
        EntryView { status: self.status, waker: self.waker, count: self.count, fired: self.fired }
    }

    /// A free entry.
    pub fn new() -> (e: Self)
        ensures
            e.view() == free_entry::<W>(),
    {
        WheelEntry { status: 0, waker: None, count: 0, fired: false }
    }

    /// Visits this entry on an update; returns whether its waker is to be woken.
    pub fn fire(&mut self) -> (wake: bool)
        ensures
            (final(self).view(), wake) == entry_fire(old(self).view()),
    {
        if self.status != 2 {
            return false;
        }
        if self.fired {
            return false;
        }
        let prev_count = self.count;
        self.count = prev_count.wrapping_sub(1);
        if prev_count > 1 {
            return false;
        }
        self.fired = true;
        true
    }

    /// Fills this free entry with a timer of `count` laps for `waker`.
    fn fill(&mut self, count: usize, waker: W)
        ensures
            final(self).view() == (EntryView { status: 2, waker: Some(waker), count, fired: false }),
    {
        self.status = 1;
        self.waker = Some(waker);
        self.count = count;
        self.fired = false;
        self.status = 2;
    }

    /// Frees this entry if it holds a timer.
    fn clear(&mut self)
        ensures
            old(self).view().status == 2 ==> final(self).view() == free_entry::<W>(),
            old(self).view().status != 2 ==> final(self).view() == old(self).view(),
    {
        if self.status != 2 {
            return;
        }
        self.fired = false;
        self.count = 0;
        self.waker = None;
        self.status = 0;
    }
}

impl<W, const TASKS: usize> WheelSlot<W, TASKS> {
    /// The entries of this slot.
    pub closed spec fn view(self) -> Seq<EntryView<W>> {
        Seq::new(self.tasks@.len(), |i: int| self.tasks@[i].view())
    }

    /// The slot has `TASKS` consistent entries.
    pub open spec fn wf(self) -> bool {
        &&& self.view().len() == TASKS
        &&& forall|i: int| 0 <= i < TASKS ==> #[trigger] entry_consistent(self.view()[i])
    }

    /// A slot of free entries.
    pub fn new() -> (s: Self)
        ensures
            s.wf(),
            forall|i: int| 0 <= i < TASKS ==> #[trigger] s.view()[i] == free_entry::<W>(),
    {
        let mut tasks: Vec<WheelEntry<W>> = Vec::new();
        let mut i: usize = 0;
        while i < TASKS
            invariant
                i <= TASKS,
                tasks@.len() == i,
                forall|j: int| 0 <= j < i ==> #[trigger] tasks@[j].view() == free_entry::<W>(),
            decreases TASKS - i,
        {
            tasks.push(WheelEntry::new());
            i += 1;
        }
        let s = WheelSlot { tasks };
        assert forall|j: int| 0 <= j < TASKS implies #[trigger] entry_consistent(s.view()[j]) by {
            assert(s.view()[j] == s.tasks@[j].view());
        }
        s
    }

    /// Whether the slot has a free entry.
    pub fn has_free(&self) -> (r: bool)
        requires
            self.wf(),
        ensures
            r == exists|i: int| 0 <= i < TASKS && #[trigger] self.view()[i].status == 0,
    {
        let mut i: usize = 0;
        while i < self.tasks.len()
            invariant
                self.wf(),
                i <= TASKS,
                forall|j: int| 0 <= j < i ==> #[trigger] self.view()[j].status != 0,
            decreases TASKS - i,
        {
            assert(self.view()[i as int] == self.tasks@[i as int].view());
            if self.tasks[i].status == 0 {
                assert(self.view()[i as int].status == 0);
                return true;
            }
            i += 1;
        }
        false
    }

    /// Puts a timer of `count` laps for `waker` into the first free entry and
    /// returns that entry's index.
    pub fn insert(&mut self, count: usize, waker: W) -> (index: usize)
        requires
            old(self).wf(),
            exists|i: int| 0 <= i < TASKS && #[trigger] old(self).view()[i].status == 0,
        ensures
            final(self).wf(),
            index < TASKS,
            old(self).view()[index as int].status == 0,
            forall|j: int| 0 <= j < index ==> #[trigger] old(self).view()[j].status != 0,
            final(self).view() == old(self).view().update(
                index as int,
                EntryView { status: 2, waker: Some(waker), count, fired: false },
            ),
    {
        let ghost pre = self.view();
        let mut i: usize = 0;
        while i < self.tasks.len()
            invariant
                self.wf(),
                self.view() == pre,
                pre == old(self).view(),
                i <= TASKS,
                exists|k: int| 0 <= k < TASKS && #[trigger] pre[k].status == 0,
                forall|j: int| 0 <= j < i ==> #[trigger] pre[j].status != 0,
            decreases TASKS - i,
        {
            assert(self.view()[i as int] == self.tasks@[i as int].view());
            if self.tasks[i].status == 0 {
                self.tasks[i].fill(count, waker);
                proof {
                    let e = EntryView { status: 2u8, waker: Some(waker), count, fired: false };
                    assert(self.view() =~= pre.update(i as int, e));
                    assert forall|j: int| 0 <= j < TASKS implies #[trigger] entry_consistent(self.view()[j]) by {
                        if j != i {
                            assert(self.view()[j] == pre[j]);
                        }
                    }
                }
                return i;
            }
            i += 1;
        }
        proof {
            let k = choose|k: int| 0 <= k < TASKS && #[trigger] pre[k].status == 0;
            assert(pre[k].status != 0);
        }
        0
    }

    /// Visits every entry of this slot, in order; returns the indices of the
    /// entries whose wakers are to be woken, in increasing order.
    pub fn fire(&mut self) -> (woken: Vec<usize>)
        requires
            old(self).wf(),
        ensures
            final(self).wf(),
            final(self).view().len() == TASKS,
            forall|i: int| 0 <= i < TASKS ==> #[trigger] final(self).view()[i] == entry_fire(old(self).view()[i]).0,
            forall|k: int, l: int| 0 <= k < l < woken@.len() ==> woken@[k] < woken@[l],
            forall|k: int| 0 <= k < woken@.len() ==> woken@[k] < TASKS,
            forall|i: int| 0 <= i < TASKS ==> (woken@.contains(i as usize) <==> #[trigger] entry_fire(old(self).view()[i]).1),
    {
        let ghost pre = self.view();
        let mut woken: Vec<usize> = Vec::new();
        let mut i: usize = 0;
        while i < self.tasks.len()
            invariant
                pre == old(self).view(),
                pre.len() == TASKS,
                self.view().len() == TASKS,
                i <= TASKS,
                forall|j: int| 0 <= j < TASKS ==> #[trigger] entry_consistent(pre[j]),
                forall|j: int| 0 <= j < i ==> #[trigger] self.view()[j] == entry_fire(pre[j]).0,
                forall|j: int| i <= j < TASKS ==> #[trigger] self.view()[j] == pre[j],
                forall|k: int, l: int| 0 <= k < l < woken@.len() ==> woken@[k] < woken@[l],
                forall|k: int| 0 <= k < woken@.len() ==> woken@[k] < i,
                forall|j: int| 0 <= j < i ==> (woken@.contains(j as usize) <==> #[trigger] entry_fire(pre[j]).1),
            decreases TASKS - i,
        {
            let ghost before = self.view();
            assert(before[i as int] == self.tasks@[i as int].view());
            let wake = self.tasks[i].fire();
            proof {
                assert forall|j: int| 0 <= j < TASKS && j != i implies #[trigger] self.view()[j] == before[j] by {
                    assert(self.view()[j] == self.tasks@[j].view());
                }
            }
            if wake {
                let ghost w0 = woken@;
                woken.push(i);
                proof {
                    assert forall|j: int| 0 <= j < i + 1 implies (woken@.contains(j as usize) <==> #[trigger] entry_fire(pre[j]).1) by {
                        if j < i {
                            if w0.contains(j as usize) {
                                let k = choose|k: int| 0 <= k < w0.len() && w0[k] == j as usize;
                                assert(woken@[k] == j as usize);
                            }
                            if woken@.contains(j as usize) {
                                let k = choose|k: int| 0 <= k < woken@.len() && woken@[k] == j as usize;
                                assert(k < w0.len());
                                assert(w0[k] == j as usize);
                            }
                        } else {
                            assert(woken@[w0.len() as int] == i);
                        }
                    }
                }
            } else {
                proof {
                    assert(!woken@.contains(i));
                }
            }
            i += 1;
        }
        proof {
            assert forall|j: int| 0 <= j < TASKS implies #[trigger] entry_consistent(self.view()[j]) by {
                assert(entry_consistent(pre[j]));
            }
        }
        woken
    }
}

impl<W, const TASKS: usize, const SLOTS: usize> TimerWheel<W, TASKS, SLOTS> {
    /// The slots of the wheel, each as its entries.
    pub closed spec fn view(self) -> Seq<Seq<EntryView<W>>> {
        Seq::new(self.slots@.len(), |i: int| self.slots@[i].view())
    }

    /// The wheel has `SLOTS` well-formed slots.
    pub closed spec fn wf(self) -> bool {
        &&& self.slots@.len() == SLOTS
        &&& forall|i: int| 0 <= i < SLOTS ==> (#[trigger] self.slots@[i]).wf()
    }

    /// Consequences of well-formedness on the model.
    pub proof fn lemma_wf_view(self)
        requires
            self.wf(),
        ensures
            self.view().len() == SLOTS,
            forall|s: int| 0 <= s < SLOTS ==> (#[trigger] self.view()[s]).len() == TASKS,
            forall|s: int, i: int|
                0 <= s < SLOTS && 0 <= i < TASKS ==> #[trigger] entry_consistent(self.view()[s][i]),
    {
        assert forall|s: int, i: int| 0 <= s < SLOTS && 0 <= i < TASKS implies #[trigger] entry_consistent(self.view()[s][i]) by {
            assert(self.slots@[s].wf());
        }
    }

    /// A wheel of free entries.
    pub fn new() -> (w: Self)
        ensures
            w.wf(),
            w.view().len() == SLOTS,
            forall|s: int, i: int|
                0 <= s < SLOTS && 0 <= i < TASKS ==> #[trigger] w.view()[s][i] == free_entry::<W>(),
    {
        let mut slots: Vec<WheelSlot<W, TASKS>> = Vec::new();
        let mut i: usize = 0;
        while i < SLOTS
            invariant
                i <= SLOTS,
                slots@.len() == i,
                forall|j: int| 0 <= j < i ==> (#[trigger] slots@[j]).wf(),
                forall|j: int, k: int| 0 <= j < i && 0 <= k < TASKS ==> #[trigger] slots@[j].view()[k] == free_entry::<W>(),
            decreases SLOTS - i,
        {
            slots.push(WheelSlot::new());
            i += 1;
        }
        TimerWheel { slots }
    }

    /// Whether the slot `slot` has a free entry.
    pub fn slot_has_free(&self, slot: usize) -> (r: bool)
        requires
            self.wf(),
            slot < SLOTS,
        ensures
            r == exists|i: int| 0 <= i < TASKS && #[trigger] self.view()[slot as int][i].status == 0,
    {
        assert(self.slots@[slot as int].wf());
        self.slots[slot].has_free()
    }

    /// Puts a timer of `count` laps for `waker` into the first free entry of the slot `slot`.
    pub fn insert_slot(&mut self, slot: usize, count: usize, waker: W) -> (id: EntryID)
        requires
            old(self).wf(),
            slot < SLOTS,
            exists|i: int| 0 <= i < TASKS && #[trigger] old(self).view()[slot as int][i].status == 0,
        ensures
            final(self).wf(),
            id.slot == slot,
            id.task < TASKS,
            old(self).view()[slot as int][id.task as int].status == 0,
            forall|j: int| 0 <= j < id.task ==> #[trigger] old(self).view()[slot as int][j].status != 0,
            final(self).view() == old(self).view().update(
                slot as int,
                old(self).view()[slot as int].update(
                    id.task as int,
                    EntryView { status: 2, waker: Some(waker), count, fired: false },
                ),
            ),
    {
        let ghost pre = self.slots@;
        assert(self.slots@[slot as int].wf());
        let task_index = self.slots[slot].insert(count, waker);
        proof {
            assert forall|i: int| 0 <= i < SLOTS implies (#[trigger] self.slots@[i]).wf() by {
                if i != slot {
                    assert(self.slots@[i] == pre[i]);
                }
            }
            assert(self.view() =~= old(self).view().update(slot as int, self.slots@[slot as int].view()));
        }
        EntryID { slot, task: task_index }
    }

    /// Visits every entry of the slot `slot`; returns the indices of the entries
    /// whose wakers are to be woken, in increasing order.
    pub fn fire_slot(&mut self, slot: usize) -> (woken: Vec<usize>)
        requires
            old(self).wf(),
            slot < SLOTS,
        ensures
            final(self).wf(),
            final(self).view().len() == SLOTS,
            forall|s: int| 0 <= s < SLOTS && s != slot ==> #[trigger] final(self).view()[s] == old(self).view()[s],
            final(self).view()[slot as int].len() == TASKS,
            forall|i: int|
                0 <= i < TASKS ==> #[trigger] final(self).view()[slot as int][i] == entry_fire(old(self).view()[slot as int][i]).0,
            forall|k: int, l: int| 0 <= k < l < woken@.len() ==> woken@[k] < woken@[l],
            forall|k: int| 0 <= k < woken@.len() ==> woken@[k] < TASKS,
            forall|i: int|
                0 <= i < TASKS ==> (woken@.contains(i as usize) <==> #[trigger] entry_fire(old(self).view()[slot as int][i]).1),
    {
        let ghost pre = self.slots@;
        assert(self.slots@[slot as int].wf());
        let woken = self.slots[slot].fire();
        proof {
            assert forall|i: int| 0 <= i < SLOTS implies (#[trigger] self.slots@[i]).wf() by {
                if i != slot {
                    assert(self.slots@[i] == pre[i]);
                }
            }
            assert forall|s: int| 0 <= s < SLOTS && s != slot implies #[trigger] self.view()[s] == old(self).view()[s] by {
                assert(self.slots@[s] == pre[s]);
            }
        }
        woken
    }

    /// The entry `id`.
    fn entry(&self, id: EntryID) -> (e: &WheelEntry<W>)
        requires
            self.wf(),
            id.slot < SLOTS,
            id.task < TASKS,
        ensures
            e.view() == self.view()[id.slot as int][id.task as int],
    {
        assert(self.slots@[id.slot as int].wf());
        &self.slots[id.slot].tasks[id.task]
    }

    /// Frees the entry `id` if it holds a timer.
    fn clear_entry(&mut self, id: EntryID)
        requires
            old(self).wf(),
            id.slot < SLOTS,
            id.task < TASKS,
        ensures
            final(self).wf(),
            old(self).view()[id.slot as int][id.task as int].status == 2 ==> final(self).view() == old(self).view().update(
                id.slot as int,
                old(self).view()[id.slot as int].update(id.task as int, free_entry::<W>()),
            ),
            old(self).view()[id.slot as int][id.task as int].status != 2 ==> final(self).view() == old(self).view(),
            final(self).view() == old(self).view().update(
                id.slot as int,
                old(self).view()[id.slot as int].update(id.task as int, free_entry::<W>()),
            ),
    {
        let ghost pre = self.slots@;
        let ghost pre_view = self.view();
        assert(self.slots@[id.slot as int].wf());
        let ghost pre_tasks = self.slots@[id.slot as int].tasks@;
        self.slots[id.slot].tasks[id.task].clear();
        proof {
            let s = id.slot as int;
            let t = id.task as int;
            assert(self.slots@[s].tasks@ == pre_tasks.update(t, self.slots@[s].tasks@[t]));
            assert forall|i: int| 0 <= i < SLOTS implies (#[trigger] self.slots@[i]).wf() by {
                if i != s {
                    assert(self.slots@[i] == pre[i]);
                } else {
                    assert forall|j: int| 0 <= j < TASKS implies #[trigger] entry_consistent(self.slots@[s].view()[j]) by {
                        assert(entry_consistent(pre[s].view()[j]));
                        if j != t {
                            assert(self.slots@[s].view()[j] == pre[s].view()[j]);
                        }
                    }
                }
            }
            if pre_view[s][t].status == 2 {
                assert(self.slots@[s].view() =~= pre_view[s].update(t, free_entry::<W>()));
                assert(self.view() =~= pre_view.update(s, pre_view[s].update(t, free_entry::<W>())));
            } else {
                assert(self.slots@[s].view() =~= pre_view[s]);
                assert(self.view() =~= pre_view);
                assert(entry_consistent(pre[s].view()[t]));
                assert(pre_view[s][t] == free_entry::<W>());
                assert(pre_view[s].update(t, free_entry::<W>()) =~= pre_view[s]);
                assert(pre_view.update(s, pre_view[s].update(t, free_entry::<W>())) =~= pre_view);
            }
        }
    }
}

/// The slot a timer of `target_ms` goes into, registered when the current slot
/// is `current`: `target_ms / steps_ms - 1` slots ahead, around the wheel.
pub open spec fn target_slot(current: int, target_ms: int, steps_ms: int, slots: int) -> int {
    (current + (target_ms / steps_ms - 1)) % slots
}

/// The laps a timer of `target_ms` waits: one more than the full turns of the
/// wheel before its slot comes up, as a `usize`.
pub open spec fn target_laps(target_ms: int, steps_ms: int, slots: int) -> usize {
    ((target_ms / steps_ms - 1) / slots + 1) as usize
}

impl<W, const TASKS: usize, const SLOTS: usize> Timer<W, TASKS, SLOTS> {
    /// The slots of the wheel, each as its entries.
    pub closed spec fn wheel(self) -> Seq<Seq<EntryView<W>>> {
        self.wheel.view()
    }

    /// The slot that the next update fires.
    pub closed spec fn current(self) -> usize {
        self.current_slot
    }

    /// The interval in milliseconds at which the timer is updated.
    pub closed spec fn interval(self) -> u128 {
        self.steps_ms
    }

    /// The wheel has `SLOTS` slots of `TASKS` consistent entries, and the
    /// current slot is one of them.
    pub closed spec fn wf(self) -> bool {
        &&& self.wheel.wf()
        &&& (SLOTS == 0 || self.current_slot < SLOTS)
    }

    /// Consequences of well-formedness on the model.
    pub proof fn lemma_wf_view(self)
        requires
            self.wf(),
        ensures
            self.wheel().len() == SLOTS,
            SLOTS > 0 ==> self.current() < SLOTS,
            forall|s: int| 0 <= s < SLOTS ==> (#[trigger] self.wheel()[s]).len() == TASKS,
            forall|s: int, i: int|
                0 <= s < SLOTS && 0 <= i < TASKS ==> #[trigger] entry_consistent(self.wheel()[s][i]),
    {
        self.wheel.lemma_wf_view();
    }

    /// A timer of `target_ms` can be registered now without a precondition
    /// failing: the interval is not zero, the target is at least one interval,
    /// the slot arithmetic does not overflow, and the target slot has a free entry.
    pub open spec fn registrable(self, target_ms: u128) -> bool {
        &&& SLOTS > 0
        &&& self.interval() > 0
        &&& target_ms / self.interval() >= 1
        &&& self.current() + (target_ms / self.interval() - 1) <= u128::MAX
        &&& exists|i: int|
            0 <= i < TASKS && #[trigger] self.wheel()[target_slot(
                self.current() as int,
                target_ms as int,
                self.interval() as int,
                SLOTS as int,
            )][i].status == 0
    }

    /// Creates a timer to be updated every `interval_ms` milliseconds, with all
    /// entries free and the first slot current.
    pub fn new(interval_ms: u128) -> (t: Self)
        ensures
            t.wf(),
            t.current() == 0,
            t.interval() == interval_ms,
            t.wheel().len() == SLOTS,
            forall|s: int, i: int|
                0 <= s < SLOTS && 0 <= i < TASKS ==> #[trigger] t.wheel()[s][i] == free_entry::<W>(),
    {
        let wheel = TimerWheel::new();
        Timer { wheel, current_slot: 0, steps_ms: interval_ms }
    }

    /// Any target of at least one interval can be registered when its slot,
    /// `target_ms / interval - 1` slots ahead of the current one, has a free
    /// entry; and no target below one interval can.
    pub proof fn lemma_registrable_when(self, target_ms: u128)
        ensures
            ({
                let ahead = target_ms / self.interval() - 1;
                SLOTS > 0 && self.interval() > 0 && target_ms >= self.interval()
                    && self.current() + ahead <= u128::MAX && (exists|i: int|
                    0 <= i < TASKS && #[trigger] self.wheel()[(self.current() + ahead) % (SLOTS as int)][i].status == 0)
                    ==> self.registrable(target_ms)
            }),
            self.registrable(target_ms) ==> SLOTS > 0 && self.interval() > 0 && target_ms >= self.interval(),
    {
        if self.interval() > 0 {
            let q = target_ms / self.interval();
            vstd::arithmetic::div_mod::lemma_fundamental_div_mod(target_ms as int, self.interval() as int);
            let r = target_ms % self.interval();
            assert(q >= 1 <==> target_ms >= self.interval()) by (nonlinear_arith)
                requires
                    target_ms == self.interval() * q + r,
                    0 <= r < self.interval(),
                    q >= 0,
            ;
        }
    }

    /// Whether a timer of `target_ms` can be registered now.
    pub fn can_register(&self, target_ms: u128) -> (r: bool)
        requires
            self.wf(),
        ensures
            r == self.registrable(target_ms),
            r ==> target_ms >= self.interval() && self.interval() > 0,
            ({
                let ahead = target_ms / self.interval() - 1;
                SLOTS > 0 && self.interval() > 0 && target_ms >= self.interval()
                    && self.current() + ahead <= u128::MAX && (exists|i: int|
                    0 <= i < TASKS && #[trigger] self.wheel()[(self.current() + ahead) % (SLOTS as int)][i].status == 0)
                    ==> r
            }),
    {
        proof {
            self.lemma_registrable_when(target_ms);
        }
        if SLOTS == 0 || self.steps_ms == 0 {
            return false;
        }
        let steps = target_ms / self.steps_ms;
        if steps < 1 {
            return false;
        }
        let current = self.current_slot as u128;
        if current > u128::MAX - (steps - 1) {
            return false;
        }
        let slot = ((current + (steps - 1)) % (SLOTS as u128)) as usize;
        self.wheel.slot_has_free(slot)
    }

    /// Registers a timer of `target_ms` for `waker`; it goes into the first free
    /// entry of its target slot.
    pub fn register_timer(&mut self, target_ms: u128, waker: W) -> (id: EntryID)
        requires
            old(self).wf(),
            old(self).registrable(target_ms),
        ensures
            final(self).wf(),
            final(self).current() == old(self).current(),
            final(self).interval() == old(self).interval(),
            id.slot == target_slot(old(self).current() as int, target_ms as int, old(self).interval() as int, SLOTS as int),
            id.task < TASKS,
            old(self).wheel()[id.slot as int][id.task as int].status == 0,
            forall|j: int| 0 <= j < id.task ==> #[trigger] old(self).wheel()[id.slot as int][j].status != 0,
            final(self).wheel() == old(self).wheel().update(
                id.slot as int,
                old(self).wheel()[id.slot as int].update(
                    id.task as int,
                    EntryView {
                        status: 2,
                        waker: Some(waker),
                        count: target_laps(target_ms as int, old(self).interval() as int, SLOTS as int),
                        fired: false,
                    },
                ),
            ),
    {
        let current_slot = self.current_slot as u128;
        let slot_offset = target_ms / self.steps_ms - 1;
        let target = (current_slot + slot_offset) % (SLOTS as u128);
        let count = slot_offset / (SLOTS as u128) + 1;
        self.wheel.insert_slot(target as usize, count as usize, waker)
    }

    /// Advances the timer by one interval: fires the entries of the current
    /// slot and makes the next slot current. Returns the entries whose wakers
    /// are to be woken, in order.
    pub fn update(&mut self) -> (fired: Vec<EntryID>)
        requires
            old(self).wf(),
            SLOTS > 0,
        ensures
            final(self).wf(),
            final(self).interval() == old(self).interval(),
            final(self).current() == (old(self).current() + 1) % (SLOTS as int),
            final(self).wheel().len() == SLOTS,
            forall|s: int|
                0 <= s < SLOTS && s != old(self).current() ==> #[trigger] final(self).wheel()[s] == old(self).wheel()[s],
            final(self).wheel()[old(self).current() as int].len() == TASKS,
            forall|i: int|
                0 <= i < TASKS ==> #[trigger] final(self).wheel()[old(self).current() as int][i] == entry_fire(
                    old(self).wheel()[old(self).current() as int][i],
                ).0,
            schedule::wheel_step(old(self).wheel(), old(self).current() as int, final(self).wheel(), SLOTS as int, TASKS as int),
            forall|k: int| 0 <= k < fired@.len() ==> #[trigger] fired@[k].slot == old(self).current(),
            forall|k: int| 0 <= k < fired@.len() ==> #[trigger] fired@[k].task < TASKS,
            forall|k: int, l: int| 0 <= k < l < fired@.len() ==> fired@[k].task < fired@[l].task,
            forall|i: int|
                0 <= i < TASKS ==> (fired@.contains(EntryID { slot: old(self).current(), task: i as usize })
                    <==> #[trigger] entry_fire(old(self).wheel()[old(self).current() as int][i]).1),
    {
        let current_slot = self.current_slot;
        let next_slot = (current_slot + 1) % SLOTS;
        self.current_slot = next_slot;
        let woken = self.wheel.fire_slot(current_slot);
        let mut fired: Vec<EntryID> = Vec::new();
        let mut k: usize = 0;
        while k < woken.len()
            invariant
                k <= woken@.len(),
                fired@.len() == k,
                forall|m: int| 0 <= m < k ==> #[trigger] fired@[m] == (EntryID { slot: current_slot, task: woken@[m] }),
            decreases woken@.len() - k,
        {
            fired.push(EntryID { slot: current_slot, task: woken[k] });
            k += 1;
        }
        proof {
            assert forall|i: int| 0 <= i < TASKS implies (fired@.contains(EntryID { slot: current_slot, task: i as usize })
                <==> #[trigger] woken@.contains(i as usize)) by {
                if woken@.contains(i as usize) {
                    let m = choose|m: int| 0 <= m < woken@.len() && woken@[m] == i as usize;
                    assert(fired@[m] == EntryID { slot: current_slot, task: i as usize });
                }
                if fired@.contains(EntryID { slot: current_slot, task: i as usize }) {
                    let m = choose|m: int| 0 <= m < fired@.len() && fired@[m] == EntryID { slot: current_slot, task: i as usize };
                    assert(woken@[m] == i as usize);
                }
            }
        }
        fired
    }

    /// The waker held by the entry `id`, if any.
    pub fn waker(&self, id: EntryID) -> (w: Option<&W>)
        requires
            self.wf(),
            id.slot < SLOTS,
            id.task < TASKS,
        ensures
            w matches Some(r) ==> Some(*r) == self.wheel()[id.slot as int][id.task as int].waker,
            w is None <==> self.wheel()[id.slot as int][id.task as int].waker is None,
    {
        let e = self.wheel.entry(id);
        match &e.waker {
            Some(w) => Some(w),
            None => None,
        }
    }
}

impl EntryID {
    /// Whether the timer in this entry has fired.
    pub fn has_fired<W, const T: usize, const S: usize>(&self, timer: &Timer<W, T, S>) -> (r: bool)
        requires
            timer.wf(),
            self.slot < S,
            self.task < T,
        ensures
            r == timer.wheel()[self.slot as int][self.task as int].fired,
    {
        let e = timer.wheel.entry(*self);
        e.fired
    }

    /// Frees this entry of the timer if it holds a timer.
    pub fn clear<W, const T: usize, const S: usize>(&mut self, timer: &mut Timer<W, T, S>)
        requires
            old(timer).wf(),
            old(self).slot < S,
            old(self).task < T,
        ensures
            *final(self) == *old(self),
            final(timer).wf(),
            final(timer).current() == old(timer).current(),
            final(timer).interval() == old(timer).interval(),
            old(timer).wheel()[old(self).slot as int][old(self).task as int].status == 2 ==> final(timer).wheel()
                == old(timer).wheel().update(
                old(self).slot as int,
                old(timer).wheel()[old(self).slot as int].update(old(self).task as int, free_entry::<W>()),
            ),
            old(timer).wheel()[old(self).slot as int][old(self).task as int].status != 2 ==> final(timer).wheel()
                == old(timer).wheel(),
            final(timer).wheel() == old(timer).wheel().update(
                old(self).slot as int,
                old(timer).wheel()[old(self).slot as int].update(old(self).task as int, free_entry::<W>()),
            ),
            final(timer).wheel()[old(self).slot as int][old(self).task as int] == free_entry::<W>(),
            !final(timer).wheel()[old(self).slot as int][old(self).task as int].fired,
    {
        timer.wheel.clear_entry(*self);
        proof {
            timer.wheel.lemma_wf_view();
        }
    }
}

} // verus!
