//! A bounded multi-producer multi-consumer queue after Dmitry Vyukov's design:
//! a ring of cells, each carrying a sequence number that tells producers and
//! consumers whether the cell is free for the position they hold.
use vstd::prelude::*;

verus! {

struct Cell<T> {
    sequence: usize,
    data: Option<T>,
}

/// A bounded FIFO queue of capacity `N`.
pub struct Queue<T, const N: usize> {
    buffer: Vec<Cell<T>>,
    enqueue_pos: usize,
    dequeue_pos: usize,
}

/// A handle that enqueues onto a queue.
pub struct Sender<'t, T, const N: usize> {
    pub queue: &'t mut Queue<T, N>,
}

/// Whether the queue on which an enqueue is made is in a state where the ring
/// protocol tells a full ring from a free cell: with a single cell, a full ring
/// looks free to a producer, so an enqueue then is only admitted onto an empty queue.
pub open spec fn enqueue_admitted<T>(n: nat, contents: Seq<T>) -> bool {
    n >= 2 || contents.len() == 0
}

/// Only a single-cell ring restricts enqueues: on a ring of two or more cells
/// every state is admitted, and so is an empty ring of any size.
pub proof fn lemma_admitted_when<T>(n: nat, contents: Seq<T>)
    ensures
        n >= 2 ==> enqueue_admitted(n, contents),
        contents.len() == 0 ==> enqueue_admitted(n, contents),
        !enqueue_admitted(n, contents) ==> n < 2 && contents.len() > 0,
{
}

impl<T, const N: usize> Queue<T, N> {
    /// The position of the `k`-th cell counted from the head of the queue.
    spec fn cell_at(self, k: int) -> Cell<T> {
        self.buffer@[(self.dequeue_pos + k) % (N as int)]
    }

    /// The ring invariant: the cells at positions `head..tail` are filled and
    /// carry `position + 1`; the cells at `tail..head + N` are free and carry
    /// their position.
    pub closed spec fn wf(self) -> bool {
        &&& self.buffer@.len() == N
        &&& self.dequeue_pos <= self.enqueue_pos
        &&& self.enqueue_pos <= self.dequeue_pos + N
        &&& self.dequeue_pos + N <= usize::MAX
        &&& forall|k: int|
            #![trigger self.cell_at(k)]
            0 <= k < N ==> {
                let p = self.dequeue_pos + k;
                if p < self.enqueue_pos {
                    self.cell_at(k).sequence == p + 1 && self.cell_at(k).data is Some
                } else {
                    self.cell_at(k).sequence == p && self.cell_at(k).data is None
                }
            }
    }

    /// The items in the queue, head first.
    pub closed spec fn view(self) -> Seq<T> {
        Seq::new(
            (self.enqueue_pos - self.dequeue_pos) as nat,
            |k: int| self.cell_at(k).data->0,
        )
    }

    /// How many positions the queue has handed out; every enqueue uses one.
    pub closed spec fn enqueued_total(self) -> nat {
        self.enqueue_pos as nat
    }

    /// The queue still has room in its position counters for one more operation.
    pub open spec fn has_headroom(self) -> bool {
        self.enqueued_total() + N < usize::MAX
    }

    /// A queue never holds more than `N` items.
    pub proof fn lemma_len_bounded(self)
        requires
            self.wf(),
        ensures
            self.view().len() <= N,
    {
    }

    /// Whether the queue holds no item.
    pub fn is_empty(&self) -> (r: bool)
        requires
            self.wf(),
        ensures
            r == (self.view().len() == 0),
    {
        self.enqueue_pos == self.dequeue_pos
    }

    /// Whether the position counters leave room for one more operation.
    pub fn within_position_limit(&self) -> (r: bool)
        ensures
            r == self.has_headroom(),
    {
        self.enqueue_pos < usize::MAX - N
    }

    /// Creates an empty queue.
    pub fn new() -> (q: Self)
        ensures
            q.wf(),
            q.view() == Seq::<T>::empty(),
            q.enqueued_total() == 0,
    {
        let mut cells: Vec<Cell<T>> = Vec::new();
        let mut pos: usize = 0;
        while pos < N
            invariant
                pos <= N,
                cells@.len() == pos,
                forall|i: int| 0 <= i < pos ==> #[trigger] cells@[i].sequence == i && cells@[i].data is None,
            decreases N - pos,
        {
            cells.push(Cell { sequence: pos, data: None });
            pos += 1;
        }
        let q = Queue { buffer: cells, enqueue_pos: 0, dequeue_pos: 0 };
        assert forall|k: int| 0 <= k < N implies #[trigger] q.cell_at(k).sequence == k && q.cell_at(k).data is None by {
            assert((0 + k) % (N as int) == k) by (nonlinear_arith)
                requires
                    0 <= k < N,
            ;
        }
        assert(q.view() =~= Seq::<T>::empty());
        q
    }

    /// A sender for this queue.
    pub fn sender(&mut self) -> (s: Sender<'_, T, N>)
        ensures
            *s.queue == *old(self),
            *final(self) == *final(s.queue),
    {
        Sender { queue: self }
    }
}


/// Two positions less than `n` apart that fall on the same ring index are the
/// same position.
proof fn lemma_ring_index_distinct(d: int, j: int, k: int, n: int)
    requires
        n > 0,
        d >= 0,
        0 <= j < n,
        0 <= k < n,
        j != k,
    ensures
        (d + j) % n != (d + k) % n,
{
    vstd::arithmetic::div_mod::lemma_fundamental_div_mod(d + j, n);
    vstd::arithmetic::div_mod::lemma_fundamental_div_mod(d + k, n);
    let qj = (d + j) / n;
    let qk = (d + k) / n;
    let rj = (d + j) % n;
    let rk = (d + k) % n;
    if rj == rk {
        assert(false) by (nonlinear_arith)
            requires
                d + j == n * qj + rj,
                d + k == n * qk + rk,
                rj == rk,
                0 <= j < n,
                0 <= k < n,
                j != k,
                n > 0,
        ;
    }
}

/// A position and the position one lap later fall on the same ring index.
proof fn lemma_ring_lap(d: int, n: int)
    requires
        n > 0,
        d >= 0,
    ensures
        (d + n) % n == d % n,
{
    vstd::arithmetic::div_mod::lemma_mod_add_multiples_vanish(d, n);
}

/// A ring index is in range.
proof fn lemma_ring_index_bound(p: int, n: int)
    requires
        n > 0,
        p >= 0,
    ensures
        0 <= p % n < n,
{
}

impl<T, const N: usize> Queue<T, N> {
    /// Appends `data` at the tail, or hands it back when the queue is full.
    fn enqueue_inner(&mut self, data: T) -> (r: Result<(), T>)
        requires
            old(self).wf(),
            old(self).has_headroom(),
            N > 0,
            enqueue_admitted(N as nat, old(self).view()),
        ensures
            final(self).wf(),
            old(self).view().len() < N ==> r is Ok && final(self).view() == old(self).view().push(data)
                && final(self).enqueued_total() == old(self).enqueued_total() + 1,
            old(self).view().len() >= N ==> r == Err::<(), T>(data) && *final(self) == *old(self),
    {
        let ghost pre = *self;
        let pos = self.enqueue_pos;
        let idx = pos % N;
        let ghost k = (pos - self.dequeue_pos) as int;
        proof {
            lemma_ring_index_bound(pos as int, N as int);
            if k < N {
                assert(pre.cell_at(k) == pre.cell_at(k));
            } else {
                lemma_ring_lap(self.dequeue_pos as int, N as int);
                assert(pre.cell_at(0) == pre.cell_at(0));
                assert(idx == (self.dequeue_pos + 0) % (N as int));
            }
        }
        let seq = self.buffer[idx].sequence;
        if pos == seq {
            // The cell at the tail is free: fill it and hand out the position.
            assert(k < N) by {
                if k >= N {
                    assert(pre.view().len() == k);
                    assert(N >= 2);
                    assert(pre.cell_at(0).sequence == pre.dequeue_pos + 1);
                    assert(pre.buffer@[idx as int] == pre.cell_at(0));
                }
            }
            self.buffer[idx].data = Some(data);
            self.buffer[idx].sequence = pos + 1;
            self.enqueue_pos = pos + 1;
            proof {
                assert forall|j: int| 0 <= j < N && j != k implies #[trigger] self.cell_at(j) == pre.cell_at(j) by {
                    lemma_ring_index_distinct(self.dequeue_pos as int, j, k, N as int);
                }
                assert(self.cell_at(k).data == Some(data));
                assert(self.view() =~= pre.view().push(data));
            }
            Ok(())
        } else {
            // The cell still holds the item from one lap earlier: the ring is full.
            Err(data)
        }
    }

    /// Takes the item at the head, or `Err(())` when the queue is empty.
    pub fn dequeue(&mut self) -> (r: Result<T, ()>)
        requires
            old(self).wf(),
            old(self).has_headroom(),
            N > 0,
        ensures
            final(self).wf(),
            final(self).enqueued_total() == old(self).enqueued_total(),
            old(self).view().len() > 0 ==> r == Ok::<T, ()>(old(self).view()[0])
                && final(self).view() == old(self).view().drop_first(),
            old(self).view().len() == 0 ==> r == Err::<T, ()>(()) && *final(self) == *old(self),
    {
        let ghost pre = *self;
        let pos = self.dequeue_pos;
        let idx = pos % N;
        proof {
            lemma_ring_index_bound(pos as int, N as int);
            assert(pre.cell_at(0) == pre.cell_at(0));
        }
        let seq = self.buffer[idx].sequence;
        if pos + 1 == seq {
            // The cell at the head is filled for this lap: take its item and free
            // the cell for the position one lap later.
            assert(pre.view().len() > 0) by {
                if pre.enqueue_pos == pre.dequeue_pos {
                    assert(pre.buffer@[idx as int] == pre.cell_at(0));
                }
            }
            let data = self.buffer[idx].data.take();
            self.buffer[idx].sequence = pos + N;
            self.dequeue_pos = pos + 1;
            proof {
                lemma_ring_lap(pos as int, N as int);
                assert forall|j: int| 0 <= j < N - 1 implies #[trigger] self.cell_at(j) == pre.cell_at(j + 1) by {
                    lemma_ring_index_distinct(pos as int, j + 1, 0, N as int);
                    assert(pos + 1 + j == pos + (j + 1));
                }
                assert((self.dequeue_pos + (N - 1)) % (N as int) == idx);
                assert(self.cell_at(N - 1).sequence == pos + N);
                assert(self.cell_at(N - 1).data is None);
                assert forall|j: int| #![trigger self.cell_at(j)] 0 <= j < N implies {
                    let p = self.dequeue_pos + j;
                    if p < self.enqueue_pos {
                        self.cell_at(j).sequence == p + 1 && self.cell_at(j).data is Some
                    } else {
                        self.cell_at(j).sequence == p && self.cell_at(j).data is None
                    }
                } by {
                    if j < N - 1 {
                        assert(pre.cell_at(j + 1) == pre.cell_at(j + 1));
                    }
                }
                assert(self.wf());
                assert forall|j: int| 0 <= j < self.view().len() implies #[trigger] self.view()[j] == pre.view().drop_first()[j] by {
                    assert(self.cell_at(j) == pre.cell_at(j + 1));
                }
                assert(self.view() =~= pre.view().drop_first());
            }
            match data {
                Some(d) => Ok(d),
                None => Err(()),
            }
        } else {
            // The cell at the head waits for an enqueue: the queue is empty.
            Err(())
        }
    }
}

impl<'t, T, const N: usize> Sender<'t, T, N> {
    /// Enqueues `data` onto the queue, or hands it back when the queue is full.
    pub fn enqueue(self, data: T) -> (r: Result<(), T>)
        requires
            self.queue.wf(),
            self.queue.has_headroom(),
            N > 0,
            enqueue_admitted(N as nat, self.queue.view()),
        ensures
            final(self.queue).wf(),
            old(self.queue).view().len() < N ==> r is Ok && final(self.queue).view() == old(self.queue).view().push(data)
                && final(self.queue).enqueued_total() == old(self.queue).enqueued_total() + 1,
            old(self.queue).view().len() >= N ==> r == Err::<(), T>(data) && *final(self.queue) == *old(self.queue),
    {
        self.queue.enqueue_inner(data)
    }
}

/// The queue is first in, first out: an item enqueued behind others comes out
/// after them, and an item enqueued onto an empty queue comes out next.
pub proof fn lemma_fifo<T>(s: Seq<T>, x: T)
    ensures
        s.len() > 0 ==> s.push(x)[0] == s[0] && s.push(x).drop_first() == s.drop_first().push(x),
        s.len() == 0 ==> s.push(x)[0] == x && s.push(x).drop_first() == s,
{
    if s.len() > 0 {
        assert(s.push(x).drop_first() =~= s.drop_first().push(x));
    } else {
        assert(s.push(x).drop_first() =~= s);
    }
}

} // verus!
