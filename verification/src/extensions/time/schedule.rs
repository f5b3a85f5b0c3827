//! When a registered timer fires: the arithmetic of the wheel over a run of
//! updates.
//!
//! Each [`Timer::update`](super::Timer::update) visits the current slot and
//! moves one slot on, so the `k`-th update after the current slot was `c`
//! visits the slot `(c + k) % SLOTS`; an entry changes only when its slot is
//! visited, by [`entry_fire`]. A timer of `target_ms` registered while the slot
//! `c` was current sits in the slot `(c + o) % SLOTS`, where
//! `o = target_ms / interval - 1`, waiting `o / SLOTS + 1` laps. The laws here
//! show that it fires on exactly the `o + 1`-th update, that is the
//! `target_ms / interval`-th one.
use vstd::prelude::*;

use super::{entry_fire, free_entry, target_laps, target_slot, EntryView};

verus! {

/// The current slot after `k` updates, starting from the slot `c` of a wheel of `n` slots.
pub open spec fn current_after(c: int, n: int, k: nat) -> int
    decreases k,
{
    if k == 0 {
        c
    } else {
        (current_after(c, n, (k - 1) as nat) + 1) % n
    }
}

/// How many of the first `m` updates, starting from the slot `c` of a wheel of
/// `n` slots, visit the slot `s`.
pub open spec fn visits(c: int, s: int, n: int, m: nat) -> nat
    decreases m,
{
    if m == 0 {
        0
    } else {
        visits(c, s, n, (m - 1) as nat) + if current_after(c, n, (m - 1) as nat) == s {
            1nat
        } else {
            0nat
        }
    }
}

/// An entry after its slot was visited `v` times.
pub open spec fn entry_after<W>(e: EntryView<W>, v: nat) -> EntryView<W>
    decreases v,
{
    if v == 0 {
        e
    } else {
        entry_fire(entry_after(e, (v - 1) as nat)).0
    }
}

/// The entry a timer of `target_ms` for `waker` is registered as.
pub open spec fn registered_entry<W>(target_ms: int, steps_ms: int, slots: int, waker: W) -> EntryView<W> {
    EntryView { status: 2, waker: Some(waker), count: target_laps(target_ms, steps_ms, slots), fired: false }
}

/// The `k`-th update after the current slot was `c` visits the slot `(c + k) % n`.
pub proof fn lemma_current_after(c: int, n: int, k: nat)
    requires
        n > 0,
        0 <= c < n,
    ensures
        current_after(c, n, k) == (c + k) % n,
    decreases k,
{
    if k > 0 {
        lemma_current_after(c, n, (k - 1) as nat);
        vstd::arithmetic::div_mod::lemma_add_mod_noop_right(1, c + k - 1, n);
        assert(current_after(c, n, (k - 1) as nat) == (c + k - 1) % n);
        assert(1 + (c + k - 1) == c + k);
    } else {
        vstd::arithmetic::div_mod::lemma_small_mod(c as nat, n as nat);
    }
}

/// `(c + k) % n` and `(c + o) % n` agree exactly when `k % n` and `o % n` do.
proof fn lemma_shifted_residues(c: int, k: int, o: int, n: int)
    requires
        n > 0,
        c >= 0,
        k >= 0,
        o >= 0,
    ensures
        ((c + k) % n == (c + o) % n) <==> (k % n == o % n),
{
    vstd::arithmetic::div_mod::lemma_add_mod_noop(c, k, n);
    vstd::arithmetic::div_mod::lemma_add_mod_noop(c, o, n);
    let a = c % n;
    let x = k % n;
    let y = o % n;
    vstd::arithmetic::div_mod::lemma_mod_bound(c, n);
    vstd::arithmetic::div_mod::lemma_mod_bound(k, n);
    vstd::arithmetic::div_mod::lemma_mod_bound(o, n);
    lemma_reduce_once(a + x, n);
    lemma_reduce_once(a + y, n);
}

/// A value below `2 * n` reduces modulo `n` by at most one subtraction.
proof fn lemma_reduce_once(x: int, n: int)
    requires
        n > 0,
        0 <= x < 2 * n,
    ensures
        x % n == (if x < n { x } else { x - n }),
{
    if x < n {
        vstd::arithmetic::div_mod::lemma_fundamental_div_mod_converse_mod(x, n, 0, x);
    } else {
        vstd::arithmetic::div_mod::lemma_fundamental_div_mod_converse_mod(x, n, 1, x - n);
    }
}

/// For `x >= 1`, `x / n` is `(x - 1) / n`, plus one exactly when `n` divides `x`.
proof fn lemma_div_step(x: int, n: int)
    requires
        n > 0,
        x >= 1,
    ensures
        x / n == (x - 1) / n + (if x % n == 0 { 1int } else { 0int }),
{
    vstd::arithmetic::div_mod::lemma_fundamental_div_mod(x, n);
    vstd::arithmetic::div_mod::lemma_mod_bound(x, n);
    let q = x / n;
    let t = x % n;
    if t > 0 {
        assert(x - 1 == q * n + (t - 1)) by (nonlinear_arith)
            requires
                x == n * q + t,
        ;
        vstd::arithmetic::div_mod::lemma_fundamental_div_mod_converse_div(x - 1, n, q, t - 1);
    } else {
        assert(x - 1 == (q - 1) * n + (n - 1)) by (nonlinear_arith)
            requires
                x == n * q + t,
                t == 0,
        ;
        vstd::arithmetic::div_mod::lemma_fundamental_div_mod_converse_div(x - 1, n, q - 1, n - 1);
    }
}

/// The number of visits of the slot `(c + o) % n` among the first `m` updates
/// from the slot `c`, in closed form.
pub proof fn lemma_visits_closed_form(c: int, o: int, n: int, m: nat)
    requires
        n > 0,
        0 <= c < n,
        o >= 0,
    ensures
        visits(c, (c + o) % n, n, m) == (if m <= o % n { 0int } else { (m - 1 - o % n) / n + 1 }),
    decreases m,
{
    let r = o % n;
    vstd::arithmetic::div_mod::lemma_mod_bound(o, n);
    if m > 0 {
        lemma_visits_closed_form(c, o, n, (m - 1) as nat);
        lemma_current_after(c, n, (m - 1) as nat);
        lemma_shifted_residues(c, m - 1, o, n);
        let k = m - 1;
        if k < r {
            vstd::arithmetic::div_mod::lemma_small_mod(k as nat, n as nat);
        } else if k == r {
            vstd::arithmetic::div_mod::lemma_small_mod(k as nat, n as nat);
            assert(0int / n == 0) by (nonlinear_arith)
                requires
                    n > 0,
            ;
        } else {
            let x = k - r;
            lemma_div_step(x, n);
            vstd::arithmetic::div_mod::lemma_add_mod_noop(r, x, n);
            vstd::arithmetic::div_mod::lemma_small_mod(r as nat, n as nat);
            vstd::arithmetic::div_mod::lemma_mod_bound(x, n);
            lemma_reduce_once(r + x % n, n);
        }
    }
}

/// The slot of a timer `o` slots ahead is visited at least `o / n + 1` times
/// among the first `m` updates exactly when `m > o`.
pub proof fn lemma_enough_visits(c: int, o: int, n: int, m: nat)
    requires
        n > 0,
        0 <= c < n,
        o >= 0,
    ensures
        visits(c, (c + o) % n, n, m) >= o / n + 1 <==> m >= o + 1,
{
    lemma_visits_closed_form(c, o, n, m);
    vstd::arithmetic::div_mod::lemma_fundamental_div_mod(o, n);
    vstd::arithmetic::div_mod::lemma_mod_bound(o, n);
    let q = o / n;
    let r = o % n;
    if m > r {
        let y = m - 1 - r;
        vstd::arithmetic::div_mod::lemma_fundamental_div_mod(y, n);
        vstd::arithmetic::div_mod::lemma_mod_bound(y, n);
        let qy = y / n;
        let ry = y % n;
        assert(qy >= q <==> y >= q * n) by (nonlinear_arith)
            requires
                y == n * qy + ry,
                0 <= ry < n,
                n > 0,
        ;
        assert(o == q * n + r) by (nonlinear_arith)
            requires
                o == n * q + r,
        ;
    } else {
        assert(q >= 0) by (nonlinear_arith)
            requires
                o == n * q + r,
                o >= 0,
                0 <= r < n,
                n > 0,
        ;
    }
}

/// A timer entry waiting `laps >= 1` laps has not fired after fewer visits,
/// counts down one lap per visit, and has fired from its `laps`-th visit on;
/// its waker is to be woken on exactly that visit.
pub proof fn lemma_entry_after_visits<W>(e: EntryView<W>, v: nat)
    requires
        e.status == 2,
        !e.fired,
        e.count >= 1,
    ensures
        entry_after(e, v).status == 2,
        entry_after(e, v).waker == e.waker,
        entry_after(e, v).fired <==> v >= e.count,
        v < e.count ==> entry_after(e, v).count == e.count - v,
        v >= 1 ==> (entry_fire(entry_after(e, (v - 1) as nat)).1 <==> v == e.count),
    decreases v,
{
    if v > 0 {
        lemma_entry_after_visits(e, (v - 1) as nat);
    }
}

/// The central law of the timer: a timer of `target_ms`, registered while the
/// slot `c` is current in a wheel of `slots` slots updated every `steps_ms`
/// milliseconds, has fired after `m` updates exactly when `m` is at least
/// `target_ms / steps_ms`, and its waker is to be woken on exactly that update.
/// (Its laps must fit in a `usize`, which holds for any target below
/// `usize::MAX` intervals.)
pub proof fn lemma_timer_fires_on_its_update<W>(
    c: int,
    target_ms: int,
    steps_ms: int,
    slots: int,
    waker: W,
    m: nat,
)
    requires
        slots > 0,
        0 <= c < slots,
        steps_ms > 0,
        target_ms / steps_ms >= 1,
        (target_ms / steps_ms - 1) / slots + 1 <= usize::MAX,
    ensures
        ({
            let e = registered_entry(target_ms, steps_ms, slots, waker);
            let v = visits(c, target_slot(c, target_ms, steps_ms, slots), slots, m);
            &&& entry_after(e, v).fired <==> m >= target_ms / steps_ms
            &&& m >= 1 ==> (current_after(c, slots, (m - 1) as nat) == target_slot(c, target_ms, steps_ms, slots)
                && entry_fire(entry_after(e, visits(c, target_slot(c, target_ms, steps_ms, slots), slots, (m - 1) as nat))).1
                <==> m == target_ms / steps_ms)
        }),
{
    let o = target_ms / steps_ms - 1;
    let e = registered_entry(target_ms, steps_ms, slots, waker);
    let s = target_slot(c, target_ms, steps_ms, slots);
    assert(e.count == o / slots + 1);
    lemma_enough_visits(c, o, slots, m);
    let v = visits(c, s, slots, m);
    lemma_entry_after_visits(e, v);
    if m >= 1 {
        let v0 = visits(c, s, slots, (m - 1) as nat);
        lemma_enough_visits(c, o, slots, (m - 1) as nat);
        lemma_entry_after_visits(e, v0);
        lemma_entry_after_visits(e, v0 + 1);
        if current_after(c, slots, (m - 1) as nat) == s {
            assert(v == v0 + 1);
        } else {
            assert(v == v0);
            if !entry_after(e, v0).fired {
                assert(m < o + 1);
            }
        }
    }
}

/// Timers are rounded down to the interval: two targets in the same interval
/// bucket go into the same slot with the same laps, and so fire on the same update.
pub proof fn lemma_same_bucket(c: int, t1: int, t2: int, steps_ms: int, slots: int)
    requires
        steps_ms > 0,
        t1 / steps_ms == t2 / steps_ms,
    ensures
        target_slot(c, t1, steps_ms, slots) == target_slot(c, t2, steps_ms, slots),
        target_laps(t1, steps_ms, slots) == target_laps(t2, steps_ms, slots),
{
}

/// The wheel `post` is the wheel `pre` after one update made while the slot
/// `cur` was current: only that slot's entries change, each by [`entry_fire`].
/// [`Timer::update`](super::Timer::update) ensures this of its wheels.
pub open spec fn wheel_step<W>(
    pre: Seq<Seq<EntryView<W>>>,
    cur: int,
    post: Seq<Seq<EntryView<W>>>,
    slots: int,
    tasks: int,
) -> bool {
    &&& post.len() == slots
    &&& forall|s: int| 0 <= s < slots && s != cur ==> #[trigger] post[s] == pre[s]
    &&& post[cur].len() == tasks
    &&& forall|i: int| 0 <= i < tasks ==> #[trigger] post[cur][i] == entry_fire(pre[cur][i]).0
}

/// `wheels` is the run of wheels that `m` updates go through, starting from
/// the current slot `c`: each wheel is the one before after an update.
pub open spec fn update_run<W>(wheels: Seq<Seq<Seq<EntryView<W>>>>, c: int, slots: int, tasks: int) -> bool {
    forall|k: int|
        0 <= k < wheels.len() - 1 ==> #[trigger] wheel_step(
            wheels[k],
            current_after(c, slots, k as nat),
            wheels[k + 1],
            slots,
            tasks,
        )
}

/// Over a run of updates, an entry changes only when its slot is visited: after
/// `m` updates it is the entry it started as, visited as often as its slot was.
pub proof fn lemma_updates_track_entry<W>(
    wheels: Seq<Seq<Seq<EntryView<W>>>>,
    c: int,
    slots: int,
    tasks: int,
    s: int,
    i: int,
    m: nat,
)
    requires
        slots > 0,
        0 <= c < slots,
        0 <= s < slots,
        0 <= i < tasks,
        m < wheels.len(),
        update_run(wheels, c, slots, tasks),
    ensures
        wheels[m as int][s][i] == entry_after(wheels[0][s][i], visits(c, s, slots, m)),
    decreases m,
{
    if m > 0 {
        let k = (m - 1) as nat;
        lemma_updates_track_entry(wheels, c, slots, tasks, s, i, k);
        let cur = current_after(c, slots, k);
        assert(wheel_step(wheels[k as int], cur, wheels[k as int + 1], slots, tasks));
        assert(k + 1 == m);
        if cur == s {
            assert(wheels[m as int][s][i] == entry_fire(wheels[k as int][s][i]).0);
        } else {
            assert(wheels[m as int][s] == wheels[k as int][s]);
        }
    }
}

/// An entry that has fired, or is free, stays as it is on every visit and is
/// never to be woken.
pub proof fn lemma_settled_entry_stays<W>(e: EntryView<W>, v: nat)
    requires
        e.fired || e == free_entry::<W>(),
    ensures
        entry_after(e, v) == e,
        !entry_fire(e).1,
    decreases v,
{
    if v > 0 {
        lemma_settled_entry_stays(e, (v - 1) as nat);
    }
}

/// A timer registered for `target_ms` and then left to a run of updates (with
/// no clearing in between) has fired after `m` updates exactly when `m` is at
/// least `target_ms / steps_ms`, and the update that returns it for waking is
/// exactly the `target_ms / steps_ms`-th one: its waker is woken once, on that
/// update, also when the timer waits more than one lap.
pub proof fn lemma_registered_timer_wakes_once<W>(
    wheels: Seq<Seq<Seq<EntryView<W>>>>,
    c: int,
    slots: int,
    tasks: int,
    i: int,
    target_ms: int,
    steps_ms: int,
    waker: W,
    m: nat,
)
    requires
        slots > 0,
        0 <= c < slots,
        0 <= i < tasks,
        steps_ms > 0,
        target_ms / steps_ms >= 1,
        (target_ms / steps_ms - 1) / slots + 1 <= usize::MAX,
        m < wheels.len(),
        update_run(wheels, c, slots, tasks),
        wheels[0][target_slot(c, target_ms, steps_ms, slots)][i] == registered_entry(target_ms, steps_ms, slots, waker),
    ensures
        ({
            let s = target_slot(c, target_ms, steps_ms, slots);
            &&& wheels[m as int][s][i].fired <==> m >= target_ms / steps_ms
            &&& m >= 1 ==> (current_after(c, slots, (m - 1) as nat) == s && entry_fire(wheels[m - 1][s][i]).1
                <==> m == target_ms / steps_ms)
        }),
{
    let s = target_slot(c, target_ms, steps_ms, slots);
    lemma_updates_track_entry(wheels, c, slots, tasks, s, i, m);
    lemma_timer_fires_on_its_update(c, target_ms, steps_ms, slots, waker, m);
    if m >= 1 {
        lemma_updates_track_entry(wheels, c, slots, tasks, s, i, (m - 1) as nat);
    }
}

/// Over a run of updates, an entry that has fired, or was cleared, stays as it
/// is and no update returns it for waking: a timer wakes its waker at most once,
/// and a cleared timer never.
pub proof fn lemma_settled_entry_never_woken<W>(
    wheels: Seq<Seq<Seq<EntryView<W>>>>,
    c: int,
    slots: int,
    tasks: int,
    s: int,
    i: int,
)
    requires
        slots > 0,
        0 <= c < slots,
        0 <= s < slots,
        0 <= i < tasks,
        update_run(wheels, c, slots, tasks),
        wheels.len() > 0,
        wheels[0][s][i].fired || wheels[0][s][i] == free_entry::<W>(),
    ensures
        forall|m: int| 0 <= m < wheels.len() ==> #[trigger] wheels[m][s][i] == wheels[0][s][i],
        forall|m: int| 0 <= m < wheels.len() ==> !(#[trigger] entry_fire(wheels[m][s][i])).1,
{
    assert forall|m: int| 0 <= m < wheels.len() implies #[trigger] wheels[m][s][i] == wheels[0][s][i] by {
        lemma_updates_track_entry(wheels, c, slots, tasks, s, i, m as nat);
        lemma_settled_entry_stays(wheels[0][s][i], visits(c, s, slots, m as nat));
    }
    assert forall|m: int| 0 <= m < wheels.len() implies !(#[trigger] entry_fire(wheels[m][s][i])).1 by {
        assert(wheels[m][s][i] == wheels[0][s][i]);
        lemma_settled_entry_stays(wheels[0][s][i], 0);
    }
}

/// Two timers in the same interval bucket, registered while the same slot is
/// current, fire after exactly the same updates.
pub proof fn lemma_same_bucket_same_update<W>(
    c: int,
    t1: int,
    t2: int,
    steps_ms: int,
    slots: int,
    w1: W,
    w2: W,
    m: nat,
)
    requires
        slots > 0,
        0 <= c < slots,
        steps_ms > 0,
        t1 / steps_ms >= 1,
        t1 / steps_ms == t2 / steps_ms,
        (t1 / steps_ms - 1) / slots + 1 <= usize::MAX,
    ensures
        target_slot(c, t1, steps_ms, slots) == target_slot(c, t2, steps_ms, slots),
        entry_after(registered_entry(t1, steps_ms, slots, w1), visits(c, target_slot(c, t1, steps_ms, slots), slots, m)).fired
            == entry_after(registered_entry(t2, steps_ms, slots, w2), visits(c, target_slot(c, t2, steps_ms, slots), slots, m)).fired,
{
    lemma_timer_fires_on_its_update(c, t1, steps_ms, slots, w1, m);
    lemma_timer_fires_on_its_update(c, t2, steps_ms, slots, w2, m);
}

} // verus!
