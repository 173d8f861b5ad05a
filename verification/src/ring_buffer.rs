//! SPSC ring buffer for AMO
//!
//! A single-producer/single-consumer queue over a power-of-two array of
//! entries. Each side keeps a shadow copy of the other side's index and
//! reads the real index only when the shadow says "full" (producer) or
//! "empty" (consumer). One slot always stays free, so the buffer holds at
//! most `CAPACITY - 1` entries.

use vstd::prelude::*;
use vstd::arithmetic::power2::pow2;
use crate::command::RingEntry;

verus! {

/// Distance from index `from` forward to index `to` on a ring of `cap` slots.
pub open spec fn ring_dist(from: int, to: int, cap: int) -> int {
    if to >= from {
        to - from
    } else {
        to + cap - from
    }
}

/// Index `i` places past `start` on a ring of `cap` slots (`i < cap`).
pub open spec fn ring_slot(start: int, i: int, cap: int) -> int {
    if start + i < cap {
        start + i
    } else {
        start + i - cap
    }
}

/// SPSC ring buffer with power-of-2 capacity
pub struct RingBuffer<const CAPACITY: usize> {
    /// Producer index (only modified by producer)
    head: usize,
    /// Consumer index (only modified by consumer)
    tail: usize,
    /// Producer's shadow copy of tail
    shadow_tail: usize,
    /// Consumer's shadow copy of head
    shadow_head: usize,
    /// Buffer storage
    buffer: Vec<RingEntry>,
}

impl<const CAPACITY: usize> RingBuffer<CAPACITY> {
    /// Well-formedness: indices in range, storage of `CAPACITY` slots, and
    /// each side's shadow index consistent with the other side's index.
    pub closed spec fn wf(&self) -> bool {
        &&& CAPACITY > 0
        &&& self.buffer@.len() == CAPACITY
        &&& self.head < CAPACITY
        &&& self.tail < CAPACITY
        &&& self.shadow_tail < CAPACITY
        &&& self.shadow_head < CAPACITY
        // The producer's shadow lags the real tail by at most the free room.
        &&& ring_dist(self.tail as int, self.head as int, CAPACITY as int)
            + ring_dist(self.shadow_tail as int, self.tail as int, CAPACITY as int) <= CAPACITY - 1
        // The consumer's shadow lies between the real tail and head.
        &&& ring_dist(self.tail as int, self.shadow_head as int, CAPACITY as int)
            + ring_dist(self.shadow_head as int, self.head as int, CAPACITY as int)
            == ring_dist(self.tail as int, self.head as int, CAPACITY as int)
    }

    /// The entries in the buffer, oldest first.
    pub closed spec fn view(&self) -> Seq<RingEntry> {
        Seq::new(
            ring_dist(self.tail as int, self.head as int, CAPACITY as int) as nat,
            |i: int| self.buffer@[ring_slot(self.tail as int, i, CAPACITY as int)],
        )
    }

    /// An empty buffer.
    pub fn new() -> (rb: Self)
        requires
            exists|k: nat| pow2(k) == CAPACITY,
        ensures
            rb.wf(),
            rb@ == Seq::<RingEntry>::empty(),
    {
        let mut buffer: Vec<RingEntry> = Vec::new();
        let mut i: usize = 0;
        while i < CAPACITY
            invariant
                buffer@.len() == i,
                i <= CAPACITY,
            decreases CAPACITY - i,
        {
            buffer.push(RingEntry::default());
            i = i + 1;
        }
        proof {
            let k = choose|k: nat| pow2(k) == CAPACITY;
            vstd::arithmetic::power2::lemma_pow2_pos(k);
        }
        let rb = Self { head: 0, tail: 0, shadow_tail: 0, shadow_head: 0, buffer };
        assert(rb@ =~= Seq::<RingEntry>::empty());
        rb
    }

    /// Number of entries in the buffer; never more than `CAPACITY - 1`.
    pub fn len(&self) -> (r: usize)
        requires
            self.wf(),
        ensures
            r == self@.len(),
            r <= CAPACITY - 1,
    {
        if self.head >= self.tail {
            self.head - self.tail
        } else {
            self.head + (CAPACITY - self.tail)
        }
    }

    pub fn is_empty(&self) -> (r: bool)
        requires
            self.wf(),
        ensures
            r == (self@.len() == 0),
    {
        self.len() == 0
    }

    pub fn is_full(&self) -> (r: bool)
        requires
            self.wf(),
        ensures
            r == (self@.len() == CAPACITY - 1),
    {
        self.len() == CAPACITY - 1
    }

    /// Try to push an entry (non-blocking)
    /// Returns None if buffer is full
    pub fn try_push(&mut self, entry: RingEntry) -> (r: Option<()>)
        requires
            old(self).wf(),
        ensures
            final(self).wf(),
            old(self)@.len() <= CAPACITY - 1,
            old(self)@.len() == CAPACITY - 1 ==> (r == None::<()> && final(self)@ == old(self)@),
            old(self)@.len() < CAPACITY - 1 ==> (r == Some(()) && final(self)@ == old(self)@.push(entry)),
            ring_step(old(self)@, RingOp::Push(entry), CAPACITY as nat) == (final(self)@, Seq::<RingEntry>::empty(),
                if r is Some { seq![entry] } else { Seq::<RingEntry>::empty() }),
    {
        let head = self.head;
        let next_head = if head + 1 == CAPACITY {
            0
        } else {
            head + 1
        };
        let mut shadow_tail = self.shadow_tail;
        if next_head == shadow_tail {
            shadow_tail = self.tail;
            self.shadow_tail = shadow_tail;
            if next_head == shadow_tail {
                assert(self@ =~= old(self)@);
                return None;
            }
        }
        self.buffer.set(head, entry);
        self.head = next_head;
        assert(self@ =~= old(self)@.push(entry));
        Some(())
    }

    /// Push an entry; the buffer must have room.
    pub fn push(&mut self, entry: RingEntry)
        requires
            old(self).wf(),
            old(self)@.len() < CAPACITY - 1,
        ensures
            final(self).wf(),
            final(self)@ == old(self)@.push(entry),
    {
        let r = self.try_push(entry);
    }

    /// The oldest entry, without taking it.
    pub fn front(&self) -> (r: Option<RingEntry>)
        requires
            self.wf(),
        ensures
            r == (if self@.len() > 0 { Some(self@[0]) } else { None::<RingEntry> }),
    {
        if self.tail == self.head {
            None
        } else {
            Some(self.buffer[self.tail])
        }
    }

    /// Try to pop an entry (non-blocking)
    /// Returns None if buffer is empty
    pub fn try_pop(&mut self) -> (r: Option<RingEntry>)
        requires
            old(self).wf(),
        ensures
            final(self).wf(),
            old(self)@.len() == 0 ==> (r == None::<RingEntry> && final(self)@ == old(self)@),
            old(self)@.len() > 0 ==> (r == Some(old(self)@[0]) && final(self)@ == old(self)@.drop_first()),
            ring_step(old(self)@, RingOp::Pop, CAPACITY as nat) == (final(self)@,
                match r { Some(e) => seq![e], None => Seq::<RingEntry>::empty() }, Seq::<RingEntry>::empty()),
    {
        let tail = self.tail;
        let mut shadow_head = self.shadow_head;
        if tail == shadow_head {
            shadow_head = self.head;
            self.shadow_head = shadow_head;
            if tail == shadow_head {
                assert(self@ =~= old(self)@);
                return None;
            }
        }
        let entry = self.buffer[tail];
        let next_tail = if tail + 1 == CAPACITY {
            0
        } else {
            tail + 1
        };
        self.tail = next_tail;
        assert(self@ =~= old(self)@.drop_first());
        Some(entry)
    }

    /// Pop the oldest entry; the buffer must hold one.
    pub fn pop(&mut self) -> (r: RingEntry)
        requires
            old(self).wf(),
            old(self)@.len() > 0,
        ensures
            final(self).wf(),
            r == old(self)@[0],
            final(self)@ == old(self)@.drop_first(),
    {
        match self.try_pop() {
            Some(entry) => entry,
            None => RingEntry::default(),
        }
    }

    pub fn capacity(&self) -> (r: usize)
        ensures
            r == CAPACITY,
    {
        CAPACITY
    }
}

/// Law: on a ring that holds entries and has room, pushing then popping
/// leaves the same entries as popping then pushing: the oldest entry leaves
/// first and the new one joins at the back (first in, first out).
pub proof fn lemma_ring_fifo(entries: Seq<RingEntry>, entry: RingEntry)
    requires
        entries.len() > 0,
    ensures
        entries.push(entry)[0] == entries[0],
        entries.push(entry).drop_first() == entries.drop_first().push(entry),
{
    assert(entries.push(entry).drop_first() =~= entries.drop_first().push(entry));
}

/// One call on a ring: `Push(e)` is `try_push(e)`, `Pop` is `try_pop()`.
pub enum RingOp {
    Push(RingEntry),
    Pop,
}

/// What one call does to a ring holding `v` with `cap` slots: the entries
/// after it, the entry it took (none or one) and the entry it added (none
/// or one), as the contracts of `try_push` and `try_pop` say.
pub open spec fn ring_step(v: Seq<RingEntry>, op: RingOp, cap: nat) -> (Seq<RingEntry>, Seq<RingEntry>, Seq<RingEntry>) {
    match op {
        RingOp::Push(e) => if v.len() + 1 < cap {
            (v.push(e), Seq::empty(), seq![e])
        } else {
            (v, Seq::empty(), Seq::empty())
        },
        RingOp::Pop => if v.len() > 0 {
            (v.drop_first(), seq![v[0]], Seq::empty())
        } else {
            (v, Seq::empty(), Seq::empty())
        },
    }
}

/// A run of calls `ops` from a ring holding `v`: the entries at the end,
/// every entry taken, in order, and every entry added, in order.
pub open spec fn ring_run(v: Seq<RingEntry>, ops: Seq<RingOp>, cap: nat) -> (Seq<RingEntry>, Seq<RingEntry>, Seq<RingEntry>)
    decreases ops.len(),
{
    if ops.len() == 0 {
        (v, Seq::empty(), Seq::empty())
    } else {
        let (v1, out1, in1) = ring_step(v, ops[0], cap);
        let (vf, outs, ins) = ring_run(v1, ops.drop_first(), cap);
        (vf, out1 + outs, in1 + ins)
    }
}

/// Law: over any run of pushes and pops, the ring is first in, first out:
/// the entries taken, followed by those still held, are the entries held at
/// the start followed by every entry that was added, in the order added.
/// So successive pops hand out pushed entries in push order.
pub proof fn lemma_ring_fifo_run(v: Seq<RingEntry>, ops: Seq<RingOp>, cap: nat)
    ensures
        ring_run(v, ops, cap).1 + ring_run(v, ops, cap).0 == v + ring_run(v, ops, cap).2,
    decreases ops.len(),
{
    if ops.len() > 0 {
        let (v1, out1, in1) = ring_step(v, ops[0], cap);
        lemma_ring_fifo_run(v1, ops.drop_first(), cap);
        let (vf, outs, ins) = ring_run(v1, ops.drop_first(), cap);
        assert(out1 + v1 =~= v + in1);
        assert((out1 + outs) + vf =~= out1 + (outs + vf));
        assert(v + (in1 + ins) =~= (v + in1) + ins);
        assert(out1 + (v1 + ins) =~= (out1 + v1) + ins);
    } else {
        assert(Seq::<RingEntry>::empty() + v =~= v + Seq::<RingEntry>::empty());
    }
}

/// One `try_push` call for each entry of `es`, in order.
pub open spec fn push_ops(es: Seq<RingEntry>) -> Seq<RingOp> {
    Seq::new(es.len(), |i: int| RingOp::Push(es[i]))
}

/// `n` calls of `try_pop`.
pub open spec fn pop_ops(n: nat) -> Seq<RingOp> {
    Seq::new(n, |i: int| RingOp::Pop)
}

/// A run of `a` then `b` is the run of `a` followed by the run of `b` from
/// where `a` left the ring.
proof fn lemma_run_append(v: Seq<RingEntry>, a: Seq<RingOp>, b: Seq<RingOp>, cap: nat)
    ensures
        ring_run(v, a + b, cap) == ({
            let (v1, out1, in1) = ring_run(v, a, cap);
            let (v2, out2, in2) = ring_run(v1, b, cap);
            (v2, out1 + out2, in1 + in2)
        }),
    decreases a.len(),
{
    if a.len() == 0 {
        assert(a + b =~= b);
        let (v2, out2, in2) = ring_run(v, b, cap);
        assert(Seq::<RingEntry>::empty() + out2 =~= out2);
        assert(Seq::<RingEntry>::empty() + in2 =~= in2);
    } else {
        assert((a + b)[0] == a[0]);
        assert((a + b).drop_first() =~= a.drop_first() + b);
        let (v1, o1, i1) = ring_step(v, a[0], cap);
        lemma_run_append(v1, a.drop_first(), b, cap);
        let (va, oa, ia) = ring_run(v1, a.drop_first(), cap);
        let (vb, ob, ib) = ring_run(va, b, cap);
        assert(o1 + (oa + ob) =~= (o1 + oa) + ob);
        assert(i1 + (ia + ib) =~= (i1 + ia) + ib);
    }
}

/// Pushing `es` onto a ring holding `v` with room for them all appends them.
proof fn lemma_run_pushes(v: Seq<RingEntry>, es: Seq<RingEntry>, cap: nat)
    requires
        v.len() + es.len() + 1 < cap,
    ensures
        ring_run(v, push_ops(es), cap) == (v + es, Seq::<RingEntry>::empty(), es),
    decreases es.len(),
{
    if es.len() == 0 {
        assert(push_ops(es) =~= Seq::<RingOp>::empty());
        assert(v + es =~= v);
    } else {
        let ops = push_ops(es);
        assert(ops[0] == RingOp::Push(es[0]));
        assert(ops.drop_first() =~= push_ops(es.drop_first()));
        lemma_run_pushes(v.push(es[0]), es.drop_first(), cap);
        assert(v.push(es[0]) + es.drop_first() =~= v + es);
        assert(seq![es[0]] + es.drop_first() =~= es);
        assert(Seq::<RingEntry>::empty() + Seq::<RingEntry>::empty() =~= Seq::<RingEntry>::empty());
    }
}

/// Popping `n` times from a ring holding `v` (at least `n` entries) takes
/// its first `n` entries, oldest first.
proof fn lemma_run_pops(v: Seq<RingEntry>, n: nat, cap: nat)
    requires
        n <= v.len(),
    ensures
        ring_run(v, pop_ops(n), cap) == (v.skip(n as int), v.take(n as int), Seq::<RingEntry>::empty()),
    decreases n,
{
    if n == 0 {
        assert(pop_ops(n) =~= Seq::<RingOp>::empty());
        assert(v.skip(0) =~= v);
        assert(v.take(0) =~= Seq::<RingEntry>::empty());
    } else {
        let ops = pop_ops(n);
        assert(ops[0] == RingOp::Pop);
        assert(ops.drop_first() =~= pop_ops((n - 1) as nat));
        lemma_run_pops(v.drop_first(), (n - 1) as nat, cap);
        assert(v.drop_first().skip(n - 1) =~= v.skip(n as int));
        assert(seq![v[0]] + v.drop_first().take(n - 1) =~= v.take(n as int));
        assert(Seq::<RingEntry>::empty() + Seq::<RingEntry>::empty() =~= Seq::<RingEntry>::empty());
    }
}

/// Law: entries pushed onto an empty ring come back from successive pops in
/// the order they were pushed, and a pop after the last of them finds the
/// ring empty and changes nothing.
pub proof fn lemma_ring_pops_in_push_order(es: Seq<RingEntry>, cap: nat)
    requires
        es.len() + 1 < cap,
    ensures
        ring_run(Seq::<RingEntry>::empty(), push_ops(es) + pop_ops(es.len()), cap)
            == (Seq::<RingEntry>::empty(), es, es),
        ring_step(Seq::<RingEntry>::empty(), RingOp::Pop, cap)
            == (Seq::<RingEntry>::empty(), Seq::<RingEntry>::empty(), Seq::<RingEntry>::empty()),
{
    let e = Seq::<RingEntry>::empty();
    lemma_run_append(e, push_ops(es), pop_ops(es.len()), cap);
    lemma_run_pushes(e, es, cap);
    assert(e + es =~= es);
    lemma_run_pops(es, es.len(), cap);
    assert(es.skip(es.len() as int) =~= e);
    assert(es.take(es.len() as int) =~= es);
    assert(e + es =~= es);
    assert(es + e =~= es);
}

} // verus!
