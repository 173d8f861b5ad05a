//! Buddy allocator for medium allocations (16KB - 256KB)
//!
//! Blocks of order `k` (2^k bytes, `MIN_ORDER <= k <= MAX_ORDER`) are kept on
//! one free list per order. Allocation takes the most recently freed block of
//! the smallest order that has one and splits it down, putting the upper
//! halves on the lower free lists. Freeing merges a block with its buddy
//! (the block that differs from it in bit `k` of the address) as long as the
//! buddy lies in the current region and is on the free list of its order.
//! The free lists are kept apart from the blocks, so the caller gets the
//! whole block: its start address, good for its full size. Regions are mapped by the caller when the
//! allocator asks for one.

use vstd::prelude::*;
use crate::page::PAGE_SIZE;
use vstd::arithmetic::power2::{pow2, lemma2_to64, lemma_pow2_unfold, lemma_pow2_pos, lemma_pow2_strictly_increases};

verus! {

/// Minimum order: 16KB = 2^14
pub const MIN_ORDER: usize = 14;
/// Maximum order: 256KB = 2^18
pub const MAX_ORDER: usize = 18;
/// Number of orders
pub const NUM_ORDERS: usize = 5;

/// Number of trailing zero bits of `x` (`usize::BITS` for zero).
pub open spec fn trailing_zeros(x: nat) -> nat
    decreases x,
{
    if x == 0 {
        usize::BITS as nat
    } else if x % 2 == 1 {
        0
    } else {
        1 + trailing_zeros(x / 2)
    }
}

/// `x.trailing_zeros()`.
pub fn usize_trailing_zeros(x: usize) -> (r: usize)
    ensures
        r == trailing_zeros(x as nat),
        r <= usize::BITS,
{
    if x == 0 {
        return usize::BITS as usize;
    }
    let mut y = x;
    let mut n: usize = 0;
    proof {
        lemma2_to64();
    }
    while y % 2 == 0
        invariant
            y > 0,
            n + trailing_zeros(y as nat) == trailing_zeros(x as nat),
            n < usize::BITS,
            y * pow2(n as nat) == x,
        decreases y,
    {
        proof {
            lemma_pow2_int_double(n as nat);
            if n + 1 >= usize::BITS {
                lemma_pow2_int_bits(n as nat + 1);
                assert(y * pow2(n as nat) >= 2 * pow2(n as nat)) by (nonlinear_arith)
                    requires y >= 2;
            }
            assert((y / 2) * pow2(n as nat + 1) == x) by (nonlinear_arith)
                requires y * pow2(n as nat) == x, y % 2 == 0, pow2(n as nat + 1) == 2 * pow2(n as nat);
        }
        y = y / 2;
        n = n + 1;
    }
    n
}

proof fn lemma_pow2_int_double(n: nat)
    ensures
        pow2(n + 1) == 2 * pow2(n),
        pow2(n) >= 1,
{
    lemma_pow2_unfold(n + 1);
    lemma_pow2_pos(n);
}

proof fn lemma_pow2_int_bits(n: nat)
    requires
        n >= usize::BITS,
    ensures
        pow2(n) > usize::MAX,
{
    lemma2_to64();
    if n > usize::BITS {
        lemma_pow2_strictly_increases(usize::BITS as nat, n);
    }
}

/// Size in bytes of a block of order `order`.
pub open spec fn order_size(order: nat) -> nat {
    pow2(order)
}

/// `order` clamped to `MIN_ORDER..=MAX_ORDER`.
pub open spec fn clamp_order(order: int) -> int {
    if order < MIN_ORDER {
        MIN_ORDER as int
    } else if order > MAX_ORDER {
        MAX_ORDER as int
    } else {
        order
    }
}

/// Position of the last occurrence of `x` in `s`.
pub open spec fn last_index_of(s: Seq<usize>, x: usize) -> int {
    choose|i: int| 0 <= i < s.len() && s[i] == x && forall|j: int| i < j < s.len() ==> s[j] != x
}

/// `s` without its last occurrence of `x` (the first one walking down from
/// the top of the stack).
pub open spec fn remove_last_occurrence(s: Seq<usize>, x: usize) -> Seq<usize> {
    s.remove(last_index_of(s, x))
}

/// The free lists after splitting `block`, taken from list `from`, down to
/// list `to`: each level below `from` down to `to` gets the upper half.
pub open spec fn split_lists(lists: Seq<Seq<usize>>, block: usize, from: nat, to: nat) -> Seq<Seq<usize>>
    decreases from,
{
    if from <= to {
        lists
    } else {
        let level = (from - 1) as nat;
        split_lists(
            lists.update(level as int, lists[level as int].push((block + order_size((level + MIN_ORDER) as nat)) as usize)),
            block,
            level,
            to,
        )
    }
}

/// The buddy of `block` at order `order`.
pub open spec fn buddy_of(block: usize, order: nat) -> usize {
    block ^ (1usize << (order as usize))
}

/// The free lists after freeing `block` of order `order` and merging it
/// with its free buddies inside the region at `base` of `region_size` bytes.
pub open spec fn coalesce_lists(
    lists: Seq<Seq<usize>>,
    base: Option<usize>,
    region_size: usize,
    block: usize,
    order: nat,
) -> Seq<Seq<usize>>
    decreases MAX_ORDER - order,
{
    let idx = order - MIN_ORDER;
    let buddy = buddy_of(block, order);
    if order >= MAX_ORDER {
        lists.update(idx, lists[idx].push(block))
    } else if base is None || buddy < base.unwrap() || buddy >= base.unwrap() + region_size {
        lists.update(idx, lists[idx].push(block))
    } else if !lists[idx].contains(buddy) {
        lists.update(idx, lists[idx].push(block))
    } else {
        coalesce_lists(
            lists.update(idx, remove_last_occurrence(lists[idx], buddy)),
            base,
            region_size,
            if block < buddy { block } else { buddy },
            order + 1,
        )
    }
}

/// Freeing `block` of order `order` puts it on its list without merging:
/// it has the top order, or its buddy is outside the region or not free.
pub open spec fn merge_stops(lists: Seq<Seq<usize>>, base: Option<usize>, region_size: usize, block: usize, order: nat) -> bool {
    let buddy = buddy_of(block, order);
    ||| order >= MAX_ORDER
    ||| base is None || buddy < base.unwrap() || buddy >= base.unwrap() + region_size
    ||| !lists[order - MIN_ORDER].contains(buddy)
}

/// The list index of the first non-empty free list at `from` or above
/// (`NUM_ORDERS` if there is none).
pub open spec fn first_nonempty(lists: Seq<Seq<usize>>, from: int) -> int
    decreases NUM_ORDERS - from,
{
    if from >= NUM_ORDERS {
        NUM_ORDERS as int
    } else if lists[from].len() > 0 {
        from
    } else {
        first_nonempty(lists, from + 1)
    }
}

/// What an allocation gives.
#[derive(Debug, Clone, Copy, PartialEq, Eq, Structural)]
pub enum BuddyAlloc {
    /// The start of the block, good for the requested size.
    Block(usize),
    /// The size is not of an order in `MIN_ORDER..=MAX_ORDER`.
    Invalid,
    /// No free block is big enough: map `pages` pages (`size` bytes), pass
    /// them to `init`, and allocate again.
    NeedRegion { pages: usize, size: usize },
}

/// Buddy allocator for a range of orders
pub struct BuddyAllocator {
    /// Free lists for each order, most recently freed last
    free_lists: Vec<Vec<usize>>,
    /// Base address of the managed region
    base: Option<usize>,
    /// Size in bytes of the managed region
    region_size: usize,
    /// The blocks handed out and not given back: start and list index.
    live: Ghost<Set<(usize, int)>>,
    /// The bytes of every region the allocator was given.
    owned: Ghost<Set<int>>,
}

impl BuddyAllocator {
    /// Well-formedness: one list per order, every free block of order `k`
    /// fits in the address space with its 2^k bytes, and so does the region.
    pub closed spec fn wf(&self) -> bool {
        &&& self.free_lists@.len() == NUM_ORDERS
        &&& forall|i: int, j: int| 0 <= i < NUM_ORDERS && 0 <= j < self.free_lists@[i]@.len()
            ==> #[trigger] self.free_lists@[i]@[j] + order_size((i + MIN_ORDER) as nat) <= usize::MAX
        &&& self.base matches Some(b) ==> b + self.region_size <= usize::MAX
    }

    /// The free lists, one per order from `MIN_ORDER` up.
    pub closed spec fn lists(&self) -> Seq<Seq<usize>> {
        Seq::new(self.free_lists@.len(), |i: int| self.free_lists@[i]@)
    }

    pub closed spec fn base_view(&self) -> Option<usize> {
        self.base
    }

    pub closed spec fn region_size_view(&self) -> usize {
        self.region_size
    }

    /// The blocks handed out and not given back: each block's start and the
    /// index of its list (a block of list `i` has `list_block_size(i)` bytes).
    pub closed spec fn live_view(&self) -> Set<(usize, int)> {
        self.live@
    }

    /// The bytes of every region the allocator was given.
    pub closed spec fn owned_view(&self) -> Set<int> {
        self.owned@
    }

    /// The allocator's account of its memory: every free and every live
    /// block lies in the regions it was given, and no two of them overlap.
    pub closed spec fn sound(&self) -> bool {
        &&& free_disjoint(self.lists())
        &&& free_inside(self.lists(), self.owned@)
        &&& live_apart_free(self.live@, self.lists())
        &&& forall|p: (usize, int)| #[trigger] self.live@.contains(p) ==>
            0 <= p.1 < NUM_ORDERS && inside(self.owned@, p.0 as int, list_block_size(p.1))
        &&& forall|p: (usize, int), q: (usize, int)| #[trigger] self.live@.contains(p) && #[trigger] self.live@.contains(q) && p != q
            ==> apart(p.0 as int, list_block_size(p.1), q.0 as int, list_block_size(q.1))
    }

    /// Create a new buddy allocator
    pub fn new() -> (b: Self)
        ensures
            b.wf(),
            b.lists() == Seq::new(NUM_ORDERS as nat, |i: int| Seq::<usize>::empty()),
            b.base_view() is None,
            b.region_size_view() == 0,
            b.sound(),
            b.live_view() == Set::<(usize, int)>::empty(),
            b.owned_view() == Set::<int>::empty(),
    {
        let mut free_lists: Vec<Vec<usize>> = Vec::new();
        let mut i: usize = 0;
        while i < NUM_ORDERS
            invariant
                free_lists@.len() == i,
                i <= NUM_ORDERS,
                forall|j: int| 0 <= j < i ==> (#[trigger] free_lists@[j])@ == Seq::<usize>::empty(),
            decreases NUM_ORDERS - i,
        {
            free_lists.push(Vec::new());
            i = i + 1;
        }
        let b = Self { free_lists, base: None, region_size: 0, live: Ghost(Set::empty()), owned: Ghost(Set::empty()) };
        assert(b.lists() =~= Seq::new(NUM_ORDERS as nat, |i: int| Seq::<usize>::empty()));
        b
    }

    /// Initialize the allocator with a region of memory: it becomes the
    /// current region, and its start the only block on the free list of its
    /// order (clamped to `MIN_ORDER..=MAX_ORDER`).
    pub fn init(&mut self, ptr: usize, size: usize)
        requires
            old(self).wf(),
            size >= order_size(MAX_ORDER as nat),
            ptr + size <= usize::MAX,
        ensures
            final(self).wf(),
            final(self).base_view() == Some(ptr),
            final(self).region_size_view() == size,
            final(self).lists() == old(self).lists().update(
                clamp_order(trailing_zeros(size as nat) as int) - MIN_ORDER,
                seq![ptr],
            ),
            final(self).live_view() == old(self).live_view(),
            final(self).owned_view() == old(self).owned_view().union(Set::new(|x: int| ptr <= x < ptr + size)),
            old(self).sound() && (forall|x: int| ptr <= x < ptr + size ==> !#[trigger] old(self).owned_view().contains(x))
                ==> final(self).sound(),
    {
        self.base = Some(ptr);
        self.region_size = size;
        let max_order = usize_trailing_zeros(size);
        let clamped_order = if max_order < MIN_ORDER {
            MIN_ORDER
        } else if max_order > MAX_ORDER {
            MAX_ORDER
        } else {
            max_order
        };
        let order_idx = clamped_order - MIN_ORDER;
        let mut list: Vec<usize> = Vec::new();
        list.push(ptr);
        self.free_lists.set(order_idx, list);
        let ghost fresh = Set::new(|x: int| ptr <= x < ptr + size);
        self.owned = Ghost(self.owned@.union(fresh));
        proof {
            lemma_order_sizes();
        }
        assert(self.lists() =~= old(self).lists().update(order_idx as int, seq![ptr]));
        proof {
            let o = *old(self);
            if o.sound() && (forall|x: int| ptr <= x < ptr + size ==> !#[trigger] old(self).owned_view().contains(x)) {
                let l = self.lists();
                let k = order_idx as int;
                lemma_order_size_mono((k + MIN_ORDER) as nat, MAX_ORDER as nat);
                lemma_list_block_sizes(k);
                assert(inside(fresh, ptr as int, list_block_size(k)));
                assert forall|x: int| #[trigger] fresh.contains(x) implies !o.owned@.contains(x) by {
                    assert(ptr <= x < ptr + size);
                    assert(!old(self).owned_view().contains(x));
                }
                assert forall|i: int, j: int| 0 <= i < l.len() && 0 <= j < l[i].len() implies
                    inside(self.owned@, #[trigger] l[i][j] as int, list_block_size(i)) by {
                    if i != k {
                        assert(l[i][j] == o.lists()[i][j]);
                        assert(inside(o.owned@, l[i][j] as int, list_block_size(i)));
                    }
                }
                assert forall|p: (usize, int), i: int, j: int| #[trigger] self.live@.contains(p) && 0 <= i < l.len() && 0 <= j < l[i].len()
                    implies apart(p.0 as int, list_block_size(p.1), #[trigger] l[i][j] as int, list_block_size(i)) by {
                    if i != k {
                        assert(l[i][j] == o.lists()[i][j]);
                    } else {
                        lemma_list_block_sizes(p.1);
                        lemma_apart_if_separate(p.0 as int, list_block_size(p.1), ptr as int, list_block_size(k), o.owned@, fresh);
                    }
                }
                assert forall|p: (usize, int)| #[trigger] self.live@.contains(p) implies
                    0 <= p.1 < NUM_ORDERS && inside(self.owned@, p.0 as int, list_block_size(p.1)) by {
                    assert(inside(o.owned@, p.0 as int, list_block_size(p.1)));
                }
                assert forall|i: int, j: int, a: int, m: int|
                    0 <= i < l.len() && 0 <= j < l[i].len() && 0 <= a < l.len() && 0 <= m < l[a].len()
                    && (i != a || j != m) implies
                        #[trigger] l[i][j] + list_block_size(i) <= #[trigger] l[a][m]
                        || l[a][m] + list_block_size(a) <= l[i][j] by {
                    lemma_list_block_sizes(i);
                    lemma_list_block_sizes(a);
                    if i != k && a != k {
                        assert(l[i][j] == o.lists()[i][j] && l[a][m] == o.lists()[a][m]);
                    } else if i != k {
                        assert(l[i][j] == o.lists()[i][j]);
                        lemma_apart_if_separate(l[i][j] as int, list_block_size(i), ptr as int, list_block_size(k), o.owned@, fresh);
                    } else if a != k {
                        assert(l[a][m] == o.lists()[a][m]);
                        lemma_apart_if_separate(l[a][m] as int, list_block_size(a), ptr as int, list_block_size(k), o.owned@, fresh);
                    } else {
                        assert(l[k].len() == 1);
                    }
                }
                assert(free_disjoint(l));
                assert(free_inside(l, self.owned@));
                assert(live_apart_free(self.live@, l));
                assert(self.sound());
            }
        }
    }

    /// Allocate `size` bytes (must be power of 2 in valid range): the
    /// most recently freed block of the smallest order at or above the
    /// size's order that has one, split down to the size's order.
    pub fn allocate(&mut self, size: usize) -> (r: BuddyAlloc)
        requires
            old(self).wf(),
        ensures
            final(self).wf(),
            final(self).base_view() == old(self).base_view(),
            final(self).region_size_view() == old(self).region_size_view(),
            ({
                let order = trailing_zeros(size as nat);
                let idx = order - MIN_ORDER;
                let found = first_nonempty(old(self).lists(), idx);
                let block = old(self).lists()[found].last();
                if order < MIN_ORDER || order > MAX_ORDER {
                    r == BuddyAlloc::Invalid && final(self).lists() == old(self).lists()
                } else if found >= NUM_ORDERS {
                    r == (BuddyAlloc::NeedRegion { pages: 64, size: order_size(MAX_ORDER as nat) as usize })
                        && final(self).lists() == old(self).lists()
                } else {
                    r == BuddyAlloc::Block(block)
                        && final(self).lists() == split_lists(
                            old(self).lists().update(found, old(self).lists()[found].drop_last()),
                            block,
                            found as nat,
                            idx as nat,
                        )
                }
            }),
            final(self).owned_view() == old(self).owned_view(),
            r matches BuddyAlloc::Block(b) ==> final(self).live_view()
                == old(self).live_view().insert((b, trailing_zeros(size as nat) - MIN_ORDER)),
            !(r is Block) ==> final(self).live_view() == old(self).live_view(),
            old(self).sound() ==> final(self).sound(),
            old(self).sound() ==> (r matches BuddyAlloc::Block(b) ==> (
                live_apart_block(old(self).live_view(), b as int, list_block_size(trailing_zeros(size as nat) - MIN_ORDER))
                && inside(old(self).owned_view(), b as int, list_block_size(trailing_zeros(size as nat) - MIN_ORDER)))),
    {
        let order = usize_trailing_zeros(size);
        if order < MIN_ORDER || order > MAX_ORDER {
            return BuddyAlloc::Invalid;
        }
        let order_idx = order - MIN_ORDER;
        let mut found = order_idx;
        while found < NUM_ORDERS && self.free_lists[found].len() == 0
            invariant
                self.wf(),
                order_idx <= found <= NUM_ORDERS,
                first_nonempty(self.lists(), order_idx as int) == first_nonempty(self.lists(), found as int),
            decreases NUM_ORDERS - found,
        {
            found = found + 1;
        }
        if found >= NUM_ORDERS {
            proof {
                lemma_order_sizes();
            }
            return BuddyAlloc::NeedRegion { pages: (1usize << 18usize) / PAGE_SIZE, size: 1usize << 18usize };
        }
        let block = match self.free_lists[found].pop() {
            Some(b) => b,
            None => 0,
        };
        assert(self.lists() =~= old(self).lists().update(found as int, old(self).lists()[found as int].drop_last()));
        proof {
            lemma_order_sizes();
            assert(block + order_size((found + MIN_ORDER) as nat) <= usize::MAX);
        }
        proof {
            let o = *old(self);
            if o.sound() {
                let l = o.lists();
                assert(l[found as int][l[found as int].len() - 1] + list_block_size(found as int) <= usize::MAX) by {
                    assert(l[found as int][l[found as int].len() - 1] == o.free_lists@[found as int]@[l[found as int].len() - 1]);
                }
                lemma_allocate_sound(l, found as int, order_idx as int, o.owned@, o.live@);
            }
        }
        self.split(block, found, order_idx);
        self.live = Ghost(self.live@.insert((block, order_idx as int)));
        proof {
            let o = *old(self);
            if o.sound() {
                let l = self.lists();
                let new = (block, order_idx as int);
                lemma_list_block_sizes(order_idx as int);
                lemma_order_size_mono((order_idx + MIN_ORDER) as nat, (found + MIN_ORDER) as nat);
                assert forall|p: (usize, int), i: int, j: int| #[trigger] self.live@.contains(p) && 0 <= i < l.len() && 0 <= j < l[i].len()
                    implies apart(p.0 as int, list_block_size(p.1), #[trigger] l[i][j] as int, list_block_size(i)) by {
                    if p != new {
                        assert(o.live@.contains(p));
                    }
                }
                assert forall|p: (usize, int)| #[trigger] self.live@.contains(p) implies
                    0 <= p.1 < NUM_ORDERS && inside(self.owned@, p.0 as int, list_block_size(p.1)) by {
                    if p != new {
                        assert(o.live@.contains(p));
                    }
                }
                assert forall|p: (usize, int), q: (usize, int)| #[trigger] self.live@.contains(p) && #[trigger] self.live@.contains(q) && p != q
                    implies apart(p.0 as int, list_block_size(p.1), q.0 as int, list_block_size(q.1)) by {
                    if p != new && q != new {
                        assert(o.live@.contains(p) && o.live@.contains(q));
                    } else if p == new {
                        assert(o.live@.contains(q));
                    } else {
                        assert(o.live@.contains(p));
                    }
                }
            }
        }
        BuddyAlloc::Block(block)
    }

    /// Split a block taken from list `from` down to list `to`.
    fn split(&mut self, block: usize, from: usize, to: usize)
        requires
            old(self).wf(),
            to <= from < NUM_ORDERS,
            block + order_size((from + MIN_ORDER) as nat) <= usize::MAX,
        ensures
            final(self).wf(),
            final(self).base == old(self).base,
            final(self).region_size == old(self).region_size,
            final(self).lists() == split_lists(old(self).lists(), block, from as nat, to as nat),
            final(self).live == old(self).live,
            final(self).owned == old(self).owned,
    {
        let mut current = from;
        while current > to
            invariant
                self.wf(),
                self.base == old(self).base,
                self.region_size == old(self).region_size,
                self.live == old(self).live,
                self.owned == old(self).owned,
                to <= current <= from < NUM_ORDERS,
                block + order_size((from + MIN_ORDER) as nat) <= usize::MAX,
                split_lists(self.lists(), block, current as nat, to as nat)
                    == split_lists(old(self).lists(), block, from as nat, to as nat),
            decreases current,
        {
            let level = current - 1;
            proof {
                lemma_order_sizes();
                lemma_order_size_mono((level + MIN_ORDER) as nat, (from + MIN_ORDER) as nat);
                lemma_pow2_int_double((level + MIN_ORDER) as nat);
            }
            let buddy_size = 1usize << (level + MIN_ORDER);
            let buddy = block + buddy_size;
            let ghost before = self.lists();
            self.free_lists[level].push(buddy);
            assert(self.lists() =~= before.update(level as int, before[level as int].push(buddy)));
            current = level;
        }
    }

    /// Free a block: the block at `ptr`, of `size`
    /// bytes, merged with its free buddies as far as possible.
    pub fn dealloc(&mut self, ptr: usize, size: usize)
        requires
            old(self).wf(),
            MIN_ORDER <= trailing_zeros(size as nat) <= MAX_ORDER,
            ptr + order_size(trailing_zeros(size as nat)) <= usize::MAX,
        ensures
            final(self).wf(),
            final(self).base_view() == old(self).base_view(),
            final(self).region_size_view() == old(self).region_size_view(),
            final(self).lists() == coalesce_lists(
                old(self).lists(),
                old(self).base_view(),
                old(self).region_size_view(),
                ptr,
                trailing_zeros(size as nat),
            ),
            final(self).owned_view() == old(self).owned_view(),
            final(self).live_view() == old(self).live_view().remove((ptr, trailing_zeros(size as nat) - MIN_ORDER)),
            old(self).sound() && old(self).live_view().contains((ptr, trailing_zeros(size as nat) - MIN_ORDER))
                ==> final(self).sound(),
    {
        let order = usize_trailing_zeros(size);
        let ghost idx = order - MIN_ORDER;
        let ghost pair = (ptr, idx as int);
        proof {
            let o = *old(self);
            if o.sound() && o.live@.contains(pair) {
                let live2 = o.live@.remove(pair);
                let l = o.lists();
                assert forall|i: int, j: int| 0 <= i < l.len() && 0 <= j < l[i].len() implies
                    #[trigger] l[i][j] + list_block_size(i) <= usize::MAX by {
                    assert(l[i][j] == o.free_lists@[i]@[j]);
                }
                assert forall|i: int, j: int| 0 <= i < l.len() && 0 <= j < l[i].len() implies
                    #[trigger] l[i][j] + list_block_size(i) <= ptr || ptr + list_block_size(idx as int) <= l[i][j] by {
                    assert(apart(pair.0 as int, list_block_size(pair.1), l[i][j] as int, list_block_size(i)));
                }
                assert(live_apart_free(live2, l));
                assert forall|p: (usize, int)| #[trigger] live2.contains(p) implies
                    apart(p.0 as int, list_block_size(p.1), ptr as int, list_block_size(idx as int)) by {
                    assert(o.live@.contains(p) && p != pair);
                }
                assert(inside(o.owned@, ptr as int, list_block_size(idx as int)));
                assert forall|p: (usize, int)| #[trigger] live2.contains(p) implies 0 <= p.1 < NUM_ORDERS by {
                    assert(o.live@.contains(p));
                }
                lemma_coalesce_sound(l, o.base, o.region_size, ptr, order as nat, o.owned@, live2);
            }
        }
        self.coalesce(ptr, order);
        self.live = Ghost(self.live@.remove(pair));
        proof {
            let o = *old(self);
            if o.sound() && o.live@.contains(pair) {
                assert forall|p: (usize, int)| #[trigger] self.live@.contains(p) implies
                    0 <= p.1 < NUM_ORDERS && inside(self.owned@, p.0 as int, list_block_size(p.1)) by {
                    assert(o.live@.contains(p));
                }
                assert forall|p: (usize, int), q: (usize, int)| #[trigger] self.live@.contains(p) && #[trigger] self.live@.contains(q) && p != q
                    implies apart(p.0 as int, list_block_size(p.1), q.0 as int, list_block_size(q.1)) by {
                    assert(o.live@.contains(p) && o.live@.contains(q));
                }
            }
        }
    }

    /// Merge `block` of order `order` with its free buddies and put the
    /// result on its free list.
    #[verifier::rlimit(40)]
    fn coalesce(&mut self, block: usize, order: usize)
        requires
            old(self).wf(),
            MIN_ORDER <= order <= MAX_ORDER,
            block + order_size(order as nat) <= usize::MAX,
        ensures
            final(self).wf(),
            final(self).base == old(self).base,
            final(self).region_size == old(self).region_size,
            final(self).lists() == coalesce_lists(old(self).lists(), old(self).base, old(self).region_size, block, order as nat),
            final(self).live == old(self).live,
            final(self).owned == old(self).owned,
    {
        let mut current_block = block;
        let mut current_order = order;
        loop
            invariant
                self.wf(),
                self.base == old(self).base,
                self.region_size == old(self).region_size,
                self.live == old(self).live,
                self.owned == old(self).owned,
                MIN_ORDER <= current_order <= MAX_ORDER,
                current_block + order_size(current_order as nat) <= usize::MAX,
                coalesce_lists(self.lists(), self.base, self.region_size, current_block, current_order as nat)
                    == coalesce_lists(old(self).lists(), old(self).base, old(self).region_size, block, order as nat),
            ensures
                self.wf(),
                self.base == old(self).base,
                self.region_size == old(self).region_size,
                self.live == old(self).live,
                self.owned == old(self).owned,
                MIN_ORDER <= current_order <= MAX_ORDER,
                current_block + order_size(current_order as nat) <= usize::MAX,
                coalesce_lists(self.lists(), self.base, self.region_size, current_block, current_order as nat)
                    == coalesce_lists(old(self).lists(), old(self).base, old(self).region_size, block, order as nat),
                merge_stops(self.lists(), self.base, self.region_size, current_block, current_order as nat),
            decreases MAX_ORDER - current_order,
        {
            if current_order >= MAX_ORDER {
                break;
            }
            proof {
                lemma_order_sizes();
            }
            let buddy_addr = current_block ^ (1usize << current_order);
            let in_region = match self.base {
                Some(base) => buddy_addr >= base && buddy_addr < base + self.region_size,
                None => false,
            };
            if !in_region {
                break;
            }
            let order_idx = current_order - MIN_ORDER;
            let pos = find_last(&self.free_lists[order_idx], buddy_addr);
            match pos {
                None => {
                    break;
                },
                Some(p) => {
                    proof {
                        lemma_buddy_merge(current_block, current_order);
                        assert(buddy_addr + order_size(current_order as nat) <= usize::MAX);
                    }
                    let ghost before = self.lists();
                    self.free_lists[order_idx].remove(p);
                    assert(self.lists() =~= before.update(order_idx as int, remove_last_occurrence(before[order_idx as int], buddy_addr)));
                    current_block = if current_block < buddy_addr {
                        current_block
                    } else {
                        buddy_addr
                    };
                    current_order = current_order + 1;
                },
            }
        }
        let order_idx = current_order - MIN_ORDER;
        let ghost before = self.lists();
        self.free_lists[order_idx].push(current_block);
        assert(self.lists() =~= before.update(order_idx as int, before[order_idx as int].push(current_block)));
    }

    /// The region to unmap when the allocator is dropped: its base and its
    /// number of pages, if it has a region of at least one page.
    pub fn region_to_unmap(&self) -> (r: Option<(usize, usize)>)
        ensures
            r == (match self.base_view() {
                Some(b) => if self.region_size_view() / PAGE_SIZE > 0 {
                    Some((b, (self.region_size_view() / PAGE_SIZE) as usize))
                } else {
                    None
                },
                None => None,
            }),
    {
        match self.base {
            Some(base) => {
                let pages = self.region_size / PAGE_SIZE;
                if pages > 0 {
                    Some((base, pages))
                } else {
                    None
                }
            },
            None => None,
        }
    }
}

impl Default for BuddyAllocator {
    fn default() -> (b: Self)
        ensures
            b.wf(),
            b.base_view() is None,
    {
        Self::new()
    }
}

/// Position of the last occurrence of `x` in `v`, if any.
fn find_last(v: &Vec<usize>, x: usize) -> (r: Option<usize>)
    ensures
        r is None ==> !v@.contains(x),
        r matches Some(i) ==> v@.contains(x) && i == last_index_of(v@, x) && i < v@.len(),
{
    let mut i = v.len();
    while i > 0
        invariant
            i <= v@.len(),
            forall|j: int| i <= j < v@.len() ==> v@[j] != x,
        decreases i,
    {
        if v[i - 1] == x {
            let k = i - 1;
            assert(0 <= k < v@.len() && v@[k as int] == x && forall|j: int| k < j < v@.len() ==> v@[j] != x);
            let ghost c = last_index_of(v@, x);
            assert(c == k) by {
                if c < k {
                } else if c > k {
                }
            }
            return Some(k);
        }
        i = i - 1;
    }
    None
}

/// The block sizes of all orders in use, as shifts and as integers.
proof fn lemma_order_sizes()
    ensures
        order_size(14) == 0x4000,
        order_size(15) == 0x8000,
        order_size(16) == 0x1_0000,
        order_size(17) == 0x2_0000,
        order_size(18) == 0x4_0000,
        order_size(19) == 0x8_0000,
        (1usize << 14usize) == 0x4000,
        (1usize << 15usize) == 0x8000,
        (1usize << 16usize) == 0x1_0000,
        (1usize << 17usize) == 0x2_0000,
        (1usize << 18usize) == 0x4_0000,
{
    lemma2_to64();
    assert((1usize << 14usize) == 0x4000) by (bit_vector);
    assert((1usize << 15usize) == 0x8000) by (bit_vector);
    assert((1usize << 16usize) == 0x1_0000) by (bit_vector);
    assert((1usize << 17usize) == 0x2_0000) by (bit_vector);
    assert((1usize << 18usize) == 0x4_0000) by (bit_vector);
}

proof fn lemma_order_size_mono(a: nat, b: nat)
    requires
        a <= b,
    ensures
        order_size(a) <= order_size(b),
    decreases b,
{
    if a < b {
        lemma_order_size_mono(a, (b - 1) as nat);
        lemma_pow2_int_double((b - 1) as nat);
    }
}

/// Merging a block of order `k` with its buddy: the lower of the two plus
/// 2^k is the higher, so the merged block of order `k + 1` starts at the
/// lower one and ends where the higher one ends.
proof fn lemma_buddy_merge(block: usize, k: usize)
    requires
        MIN_ORDER <= k < MAX_ORDER,
    ensures
        ({
            let buddy = block ^ (1usize << k);
            let lo = if block < buddy { block } else { buddy };
            let hi = if block < buddy { buddy } else { block };
            hi == lo + order_size(k as nat) && order_size((k + 1) as nat) == 2 * order_size(k as nat)
        }),
{
    lemma_order_sizes();
    lemma_pow2_int_double(k as nat);
    let s = 1usize << k;
    assert(s == order_size(k as nat));
    assert((block & s) == 0usize ==> (block ^ s) == block + s) by (bit_vector)
        requires s == 1usize << k, k < 18usize;
    assert((block & s) != 0usize ==> (block ^ s) + s == block) by (bit_vector)
        requires s == 1usize << k, k < 18usize;
}

/// Law: splitting a block never loses memory: for every level it visits,
/// the upper half pushed on the level's list starts where the lower half of
/// that level ends.
pub proof fn lemma_split_pushes_upper_halves(lists: Seq<Seq<usize>>, block: usize, from: nat, to: nat, level: nat)
    requires
        to <= level < from <= NUM_ORDERS,
        lists.len() == NUM_ORDERS,
    ensures
        split_lists(lists, block, from, to)[level as int].len() == lists[level as int].len() + 1,
        split_lists(lists, block, from, to)[level as int].last() == (block + order_size((level + MIN_ORDER) as nat)) as usize,
    decreases from,
{
    let l = (from - 1) as nat;
    let next = lists.update(l as int, lists[l as int].push((block + order_size((l + MIN_ORDER) as nat)) as usize));
    if level < l {
        lemma_split_pushes_upper_halves(next, block, l, to, level);
    } else {
        lemma_split_leaves_others(next, block, l, to, level);
    }
}

/// Splitting from `from` down to `to` leaves the lists at `from` and above
/// as they were.
pub proof fn lemma_split_leaves_others(lists: Seq<Seq<usize>>, block: usize, from: nat, to: nat, level: nat)
    requires
        level >= from,
        level < lists.len(),
    ensures
        split_lists(lists, block, from, to)[level as int] == lists[level as int],
    decreases from,
{
    if from > to {
        let l = (from - 1) as nat;
        let next = lists.update(l as int, lists[l as int].push((block + order_size((l + MIN_ORDER) as nat)) as usize));
        lemma_split_leaves_others(next, block, l, to, level);
    }
}

/// The free lists of a fresh region at `base` of the top order: its one
/// block on the top list.
pub open spec fn fresh_region_lists(base: usize) -> Seq<Seq<usize>> {
    Seq::new(NUM_ORDERS as nat, |l: int| if l == NUM_ORDERS - 1 { seq![base] } else { Seq::<usize>::empty() })
}

/// The free lists of such a region after its block was split down to list
/// `to`: each list from `to` to below the top holds the upper half of its
/// level, every other list is empty.
spec fn split_region_lists(base: usize, to: int) -> Seq<Seq<usize>> {
    Seq::new(
        NUM_ORDERS as nat,
        |l: int| if to <= l < NUM_ORDERS - 1 {
            seq![(base + order_size((l + MIN_ORDER) as nat)) as usize]
        } else {
            Seq::<usize>::empty()
        },
    )
}

proof fn lemma_split_region(base: usize, from: nat, to: nat)
    requires
        to <= from <= NUM_ORDERS - 1,
    ensures
        split_lists(split_region_lists(base, from as int), base, from, to) == split_region_lists(base, to as int),
    decreases from,
{
    if from > to {
        let l = (from - 1) as nat;
        let lists = split_region_lists(base, from as int);
        let next = lists.update(l as int, lists[l as int].push((base + order_size((l + MIN_ORDER) as nat)) as usize));
        assert(next =~= split_region_lists(base, l as int));
        lemma_split_region(base, l, to);
    } else {
        assert(from == to);
    }
}

proof fn lemma_coalesce_region(base: usize, k: nat)
    requires
        MIN_ORDER <= k <= MAX_ORDER,
        base % 0x4_0000 == 0,
        base + 0x4_0000 <= usize::MAX,
    ensures
        coalesce_lists(split_region_lists(base, k - MIN_ORDER), Some(base), 0x4_0000, base, k) == fresh_region_lists(base),
    decreases MAX_ORDER - k,
{
    let idx = k - MIN_ORDER;
    let lists = split_region_lists(base, idx);
    lemma_order_sizes();
    if k >= MAX_ORDER {
        assert(lists.update(idx, lists[idx].push(base)) =~= fresh_region_lists(base));
    } else {
        let ku = k as usize;
        let buddy = buddy_of(base, k);
        assert(buddy == base ^ (1usize << ku));
        let s = 1usize << ku;
        assert(base & 0x3_ffffusize == 0usize) by (bit_vector)
            requires base % 0x4_0000usize == 0usize;
        assert(base ^ s == base + s) by (bit_vector)
            requires s == 1usize << ku, ku < 18usize, base & 0x3_ffffusize == 0usize;
        assert(s == order_size(k)) by {
            if k == 14 { } else if k == 15 { } else if k == 16 { } else { assert(k == 17); }
        }
        assert(lists[idx] == seq![(base + order_size(k)) as usize]);
        assert(lists[idx][0] == buddy);
        assert(lists[idx].contains(buddy));
        let j = last_index_of(lists[idx], buddy);
        assert(0 <= 0 < lists[idx].len() && lists[idx][0] == buddy
            && forall|m: int| 0 < m < lists[idx].len() ==> lists[idx][m] != buddy);
        assert(j == 0);
        assert(remove_last_occurrence(lists[idx], buddy) =~= Seq::<usize>::empty());
        assert(lists.update(idx, remove_last_occurrence(lists[idx], buddy)) =~= split_region_lists(base, idx + 1));
        lemma_coalesce_region(base, k + 1);
    }
}

/// Law: on a fresh region of the top order aligned to its size (what
/// `new` then `init(base, 256 KiB)` give), freeing a block right after
/// allocating it, of any order, leaves the free lists as they were: the
/// block is taken from the top list and split down, and freeing it merges
/// it with every upper half back into the region's one block.
pub proof fn lemma_buddy_alloc_free_roundtrip(base: usize, k: nat)
    requires
        MIN_ORDER <= k <= MAX_ORDER,
        base % 0x4_0000 == 0,
        base + 0x4_0000 <= usize::MAX,
    ensures
        first_nonempty(fresh_region_lists(base), k - MIN_ORDER) == NUM_ORDERS - 1,
        fresh_region_lists(base)[NUM_ORDERS - 1].last() == base,
        coalesce_lists(
            split_lists(
                fresh_region_lists(base).update(NUM_ORDERS - 1, fresh_region_lists(base)[NUM_ORDERS - 1].drop_last()),
                base,
                (NUM_ORDERS - 1) as nat,
                (k - MIN_ORDER) as nat,
            ),
            Some(base),
            0x4_0000,
            base,
            k,
        ) == fresh_region_lists(base),
{
    let fresh = fresh_region_lists(base);
    let idx = k - MIN_ORDER;
    assert(first_nonempty(fresh, idx) == NUM_ORDERS - 1) by {
        reveal_with_fuel(first_nonempty, 6);
        assert(fresh[0].len() == 0);
        assert(fresh[1].len() == 0);
        assert(fresh[2].len() == 0);
        assert(fresh[3].len() == 0);
        assert(fresh[4].len() == 1);
    }
    assert(fresh[NUM_ORDERS - 1].drop_last() =~= Seq::<usize>::empty());
    assert(fresh.update(NUM_ORDERS - 1, fresh[NUM_ORDERS - 1].drop_last()) =~~= split_region_lists(base, NUM_ORDERS - 1));
    lemma_split_region(base, (NUM_ORDERS - 1) as nat, idx as nat);
    lemma_coalesce_region(base, k);
}

/// Bytes of a block on free list `i` (order `i + MIN_ORDER`).
pub open spec fn list_block_size(i: int) -> int {
    order_size((i + MIN_ORDER) as nat) as int
}

/// No two free blocks overlap (nor does a block occur twice).
pub open spec fn free_disjoint(lists: Seq<Seq<usize>>) -> bool {
    forall|i: int, j: int, k: int, l: int|
        0 <= i < lists.len() && 0 <= j < lists[i].len() && 0 <= k < lists.len() && 0 <= l < lists[k].len()
        && (i != k || j != l) ==>
            #[trigger] lists[i][j] + list_block_size(i) <= #[trigger] lists[k][l]
            || lists[k][l] + list_block_size(k) <= lists[i][j]
}

/// Every free block lies in the region of `region_size` bytes at `base`.
pub open spec fn free_within(lists: Seq<Seq<usize>>, base: int, region_size: int) -> bool {
    forall|i: int, j: int| 0 <= i < lists.len() && 0 <= j < lists[i].len() ==>
        base <= #[trigger] lists[i][j] && lists[i][j] + list_block_size(i) <= base + region_size
}

/// Every free block lies apart from the `size` bytes at `block`.
pub open spec fn free_apart_from(lists: Seq<Seq<usize>>, block: int, size: int) -> bool {
    forall|i: int, j: int| 0 <= i < lists.len() && 0 <= j < lists[i].len() ==>
        #[trigger] lists[i][j] + list_block_size(i) <= block || block + size <= lists[i][j]
}

/// Splitting a block that lies apart from every free block, in the region,
/// keeps the free blocks apart from one another and in the region, and
/// leaves the lower part that is handed out apart from them all.
proof fn lemma_split_keeps_apart(lists: Seq<Seq<usize>>, block: usize, from: nat, to: nat, base: int, region_size: int)
    requires
        to <= from < NUM_ORDERS,
        lists.len() == NUM_ORDERS,
        free_disjoint(lists),
        free_within(lists, base, region_size),
        free_apart_from(lists, block as int, list_block_size(from as int)),
        base <= block,
        block + list_block_size(from as int) <= base + region_size,
        base + region_size <= usize::MAX,
    ensures
        split_lists(lists, block, from, to).len() == NUM_ORDERS,
        free_disjoint(split_lists(lists, block, from, to)),
        free_within(split_lists(lists, block, from, to), base, region_size),
        free_apart_from(split_lists(lists, block, from, to), block as int, list_block_size(to as int)),
    decreases from,
{
    if from > to {
        let level = (from - 1) as nat;
        let half = list_block_size(level as int);
        lemma_pow2_int_double((level + MIN_ORDER) as nat);
        assert(list_block_size(from as int) == 2 * half);
        assert(order_size((level + MIN_ORDER) as nat) == half);
        let u = (block + half) as usize;
        let l1 = lists.update(level as int, lists[level as int].push(u));
        let n = lists[level as int].len() as int;
        assert forall|i: int, j: int| 0 <= i < l1.len() && 0 <= j < l1[i].len() implies
            base <= #[trigger] l1[i][j] && l1[i][j] + list_block_size(i) <= base + region_size by {
            if !(i == level && j == n) {
                assert(l1[i][j] == lists[i][j]);
            } else {
                assert(l1[i][j] == u);
            }
        }
        assert forall|i: int, j: int| 0 <= i < l1.len() && 0 <= j < l1[i].len() implies
            #[trigger] l1[i][j] + list_block_size(i) <= block || block + half <= l1[i][j] by {
            if !(i == level && j == n) {
                assert(l1[i][j] == lists[i][j]);
            } else {
                assert(l1[i][j] == u);
            }
        }
        assert forall|i: int, j: int, k: int, m: int|
            0 <= i < l1.len() && 0 <= j < l1[i].len() && 0 <= k < l1.len() && 0 <= m < l1[k].len()
            && (i != k || j != m) implies
                #[trigger] l1[i][j] + list_block_size(i) <= #[trigger] l1[k][m]
                || l1[k][m] + list_block_size(k) <= l1[i][j] by {
            let new_ij = i == level && j == n;
            let new_km = k == level && m == n;
            if !new_ij {
                assert(l1[i][j] == lists[i][j]);
            } else {
                assert(l1[i][j] == u);
            }
            if !new_km {
                assert(l1[k][m] == lists[k][m]);
            } else {
                assert(l1[k][m] == u);
            }
        }
        lemma_split_keeps_apart(l1, block, level, to, base, region_size);
    }
}

/// Law: a block that `allocate` hands out (the last block of the first
/// non-empty list `found` at or above list `idx`, split down to list
/// `idx`) lies in the region and apart from every block that is still
/// free, and the free blocks stay apart from one another and in the
/// region. So as long as nothing is freed, two blocks handed out never
/// overlap: the later one is carved from a block that was free after the
/// earlier one was handed out.
pub proof fn lemma_allocated_block_apart(lists: Seq<Seq<usize>>, found: int, idx: int, base: int, region_size: int)
    requires
        0 <= idx <= found < NUM_ORDERS,
        lists.len() == NUM_ORDERS,
        lists[found].len() > 0,
        free_disjoint(lists),
        free_within(lists, base, region_size),
        base + region_size <= usize::MAX,
    ensures
        ({
            let block = lists[found].last();
            let after = split_lists(lists.update(found, lists[found].drop_last()), block, found as nat, idx as nat);
            &&& base <= block
            &&& block + list_block_size(idx) <= base + region_size
            &&& free_apart_from(after, block as int, list_block_size(idx))
            &&& free_disjoint(after)
            &&& free_within(after, base, region_size)
        }),
{
    let block = lists[found].last();
    let n = lists[found].len() as int;
    let l0 = lists.update(found, lists[found].drop_last());
    assert forall|i: int, j: int| 0 <= i < l0.len() && 0 <= j < l0[i].len() implies
        base <= #[trigger] l0[i][j] && l0[i][j] + list_block_size(i) <= base + region_size by {
        assert(l0[i][j] == lists[i][j]);
    }
    assert forall|i: int, j: int| 0 <= i < l0.len() && 0 <= j < l0[i].len() implies
        #[trigger] l0[i][j] + list_block_size(i) <= block || block + list_block_size(found) <= l0[i][j] by {
        assert(l0[i][j] == lists[i][j]);
        assert(lists[found][n - 1] == block);
    }
    assert forall|i: int, j: int, k: int, m: int|
        0 <= i < l0.len() && 0 <= j < l0[i].len() && 0 <= k < l0.len() && 0 <= m < l0[k].len()
        && (i != k || j != m) implies
            #[trigger] l0[i][j] + list_block_size(i) <= #[trigger] l0[k][m]
            || l0[k][m] + list_block_size(k) <= l0[i][j] by {
        assert(l0[i][j] == lists[i][j]);
        assert(l0[k][m] == lists[k][m]);
    }
    assert(lists[found][n - 1] == block);
    assert(base <= lists[found][n - 1] && lists[found][n - 1] + list_block_size(found) <= base + region_size);
    lemma_order_size_mono((idx + MIN_ORDER) as nat, (found + MIN_ORDER) as nat);
    lemma_split_keeps_apart(l0, block, found as nat, idx as nat, base, region_size);
}

/// A fresh region's one block lies in the region, apart from nothing.
pub proof fn lemma_fresh_region_sound(base: usize)
    ensures
        free_disjoint(fresh_region_lists(base)),
        free_within(fresh_region_lists(base), base as int, 0x4_0000),
{
    let l = fresh_region_lists(base);
    lemma_order_sizes();
    assert forall|i: int| 0 <= i < l.len() implies #[trigger] l[i].len() == (if i == NUM_ORDERS - 1 { 1int } else { 0int }) by {}
    assert forall|i: int, j: int, k: int, m: int|
        0 <= i < l.len() && 0 <= j < l[i].len() && 0 <= k < l.len() && 0 <= m < l[k].len()
        && (i != k || j != m) implies
            #[trigger] l[i][j] + list_block_size(i) <= #[trigger] l[k][m]
            || l[k][m] + list_block_size(k) <= l[i][j] by {
        assert(l[i].len() > 0 && l[k].len() > 0);
        assert(i == NUM_ORDERS - 1 && k == NUM_ORDERS - 1);
        assert(j == 0 && m == 0);
    }
    assert forall|i: int, j: int| 0 <= i < l.len() && 0 <= j < l[i].len() implies
        base <= #[trigger] l[i][j] && l[i][j] + list_block_size(i) <= base + 0x4_0000 by {
        assert(i == NUM_ORDERS - 1 && j == 0);
    }
}

/// The `s` bytes at `a` and the `t` bytes at `b` do not overlap.
pub open spec fn apart(a: int, s: int, b: int, t: int) -> bool {
    a + s <= b || b + t <= a
}

/// The `s` bytes at `a` are all among the bytes `owned`.
pub open spec fn inside(owned: Set<int>, a: int, s: int) -> bool {
    forall|x: int| a <= x < a + s ==> #[trigger] owned.contains(x)
}

/// Every free block is among the bytes `owned`.
pub open spec fn free_inside(lists: Seq<Seq<usize>>, owned: Set<int>) -> bool {
    forall|i: int, j: int| 0 <= i < lists.len() && 0 <= j < lists[i].len() ==>
        inside(owned, #[trigger] lists[i][j] as int, list_block_size(i))
}

/// Every live block (a start and a list index) lies apart from every free
/// block.
pub open spec fn live_apart_free(live: Set<(usize, int)>, lists: Seq<Seq<usize>>) -> bool {
    forall|p: (usize, int), i: int, j: int| #[trigger] live.contains(p) && 0 <= i < lists.len() && 0 <= j < lists[i].len() ==>
        apart(p.0 as int, list_block_size(p.1), #[trigger] lists[i][j] as int, list_block_size(i))
}

/// Every live block lies apart from the `s` bytes at `b`.
pub open spec fn live_apart_block(live: Set<(usize, int)>, b: int, s: int) -> bool {
    forall|p: (usize, int)| #[trigger] live.contains(p) ==> apart(p.0 as int, list_block_size(p.1), b, s)
}

/// Block sizes are positive, and each list's blocks are twice the size of
/// the list below.
proof fn lemma_list_block_sizes(i: int)
    requires
        0 <= i,
    ensures
        list_block_size(i) >= 1,
        list_block_size(i + 1) == 2 * list_block_size(i),
{
    lemma_pow2_int_double((i + MIN_ORDER) as nat);
    assert((i + 1 + MIN_ORDER) as nat == (i + MIN_ORDER) as nat + 1);
}

/// Splitting a block that is owned and apart from every free and live
/// block keeps the free blocks owned, apart from one another and from the
/// live blocks, and the lower part that is handed out apart from them.
proof fn lemma_split_sound(lists: Seq<Seq<usize>>, block: usize, from: nat, to: nat, owned: Set<int>,
    live: Set<(usize, int)>)
    requires
        to <= from < NUM_ORDERS,
        lists.len() == NUM_ORDERS,
        free_disjoint(lists),
        free_inside(lists, owned),
        live_apart_free(live, lists),
        free_apart_from(lists, block as int, list_block_size(from as int)),
        inside(owned, block as int, list_block_size(from as int)),
        live_apart_block(live, block as int, list_block_size(from as int)),
        block + list_block_size(from as int) <= usize::MAX,
    ensures
        split_lists(lists, block, from, to).len() == NUM_ORDERS,
        free_disjoint(split_lists(lists, block, from, to)),
        free_inside(split_lists(lists, block, from, to), owned),
        live_apart_free(live, split_lists(lists, block, from, to)),
        free_apart_from(split_lists(lists, block, from, to), block as int, list_block_size(to as int)),
        inside(owned, block as int, list_block_size(to as int)),
        live_apart_block(live, block as int, list_block_size(to as int)),
    decreases from,
{
    if from > to {
        let level = (from - 1) as nat;
        let half = list_block_size(level as int);
        lemma_list_block_sizes(level as int);
        assert(list_block_size(from as int) == 2 * half);
        assert(order_size((level + MIN_ORDER) as nat) == half);
        let u = (block + half) as usize;
        assert(u == block + half);
        let l1 = lists.update(level as int, lists[level as int].push(u));
        let n = lists[level as int].len() as int;
        assert(inside(owned, u as int, half)) by {
            assert forall|x: int| u <= x < u + half implies #[trigger] owned.contains(x) by {
                assert(block <= x < block + list_block_size(from as int));
            }
        }
        assert(inside(owned, block as int, half)) by {
            assert forall|x: int| block <= x < block + half implies #[trigger] owned.contains(x) by {
                assert(block <= x < block + list_block_size(from as int));
            }
        }
        assert forall|i: int, j: int| 0 <= i < l1.len() && 0 <= j < l1[i].len() implies
            inside(owned, #[trigger] l1[i][j] as int, list_block_size(i)) by {
            if !(i == level && j == n) {
                assert(l1[i][j] == lists[i][j]);
            } else {
                assert(l1[i][j] == u);
            }
        }
        assert forall|p: (usize, int), i: int, j: int| #[trigger] live.contains(p) && 0 <= i < l1.len() && 0 <= j < l1[i].len()
            implies apart(p.0 as int, list_block_size(p.1), #[trigger] l1[i][j] as int, list_block_size(i)) by {
            if !(i == level && j == n) {
                assert(l1[i][j] == lists[i][j]);
            } else {
                assert(l1[i][j] == u);
                assert(apart(p.0 as int, list_block_size(p.1), block as int, list_block_size(from as int)));
            }
        }
        assert forall|p: (usize, int)| #[trigger] live.contains(p) implies apart(p.0 as int, list_block_size(p.1), block as int, half) by {
            assert(apart(p.0 as int, list_block_size(p.1), block as int, list_block_size(from as int)));
        }
        assert forall|i: int, j: int| 0 <= i < l1.len() && 0 <= j < l1[i].len() implies
            #[trigger] l1[i][j] + list_block_size(i) <= block || block + half <= l1[i][j] by {
            if !(i == level && j == n) {
                assert(l1[i][j] == lists[i][j]);
            } else {
                assert(l1[i][j] == u);
            }
        }
        assert forall|i: int, j: int, k: int, m: int|
            0 <= i < l1.len() && 0 <= j < l1[i].len() && 0 <= k < l1.len() && 0 <= m < l1[k].len()
            && (i != k || j != m) implies
                #[trigger] l1[i][j] + list_block_size(i) <= #[trigger] l1[k][m]
                || l1[k][m] + list_block_size(k) <= l1[i][j] by {
            if !(i == level && j == n) {
                assert(l1[i][j] == lists[i][j]);
            } else {
                assert(l1[i][j] == u);
            }
            if !(k == level && m == n) {
                assert(l1[k][m] == lists[k][m]);
            } else {
                assert(l1[k][m] == u);
            }
        }
        lemma_split_sound(l1, block, level, to, owned, live);
    }
}

/// A value that occurs in `s` has a last occurrence.
#[verifier::rlimit(40)]
proof fn lemma_last_index(s: Seq<usize>, x: usize)
    requires
        s.contains(x),
    ensures
        0 <= last_index_of(s, x) < s.len(),
        s[last_index_of(s, x)] == x,
        forall|j: int| last_index_of(s, x) < j < s.len() ==> s[j] != x,
    decreases s.len(),
{
    let n = s.len() as int;
    if s[n - 1] == x {
        assert(forall|j: int| n - 1 < j < n ==> s[j] != x);
        assert(0 <= n - 1 < n && s[n - 1] == x && forall|j: int| n - 1 < j < n ==> s[j] != x);
    } else {
        let t = s.drop_last();
        let i = choose|i: int| 0 <= i < s.len() && s[i] == x;
        assert(i < n - 1);
        assert(t[i] == x);
        assert(t.contains(x));
        lemma_last_index(t, x);
        let k = last_index_of(t, x);
        assert(t[k] == x);
        assert forall|j: int| k < j < n implies s[j] != x by {
            if j < n - 1 {
                assert(t[j] == s[j]);
            }
        }
        assert(0 <= k < n && s[k] == x && forall|j: int| k < j < n ==> s[j] != x);
    }
}

/// Pushing a block that is owned and apart from every free and live block
/// keeps the free blocks owned and apart.
proof fn lemma_push_sound(lists: Seq<Seq<usize>>, idx: int, block: usize, owned: Set<int>, live: Set<(usize, int)>)
    requires
        0 <= idx < lists.len(),
        free_disjoint(lists),
        free_inside(lists, owned),
        live_apart_free(live, lists),
        free_apart_from(lists, block as int, list_block_size(idx)),
        inside(owned, block as int, list_block_size(idx)),
        live_apart_block(live, block as int, list_block_size(idx)),
    ensures
        free_disjoint(lists.update(idx, lists[idx].push(block))),
        free_inside(lists.update(idx, lists[idx].push(block)), owned),
        live_apart_free(live, lists.update(idx, lists[idx].push(block))),
{
    let l1 = lists.update(idx, lists[idx].push(block));
    let n = lists[idx].len() as int;
    assert forall|i: int, j: int| 0 <= i < l1.len() && 0 <= j < l1[i].len() implies
        inside(owned, #[trigger] l1[i][j] as int, list_block_size(i)) by {
        if !(i == idx && j == n) {
            assert(l1[i][j] == lists[i][j]);
        }
    }
    assert forall|p: (usize, int), i: int, j: int| #[trigger] live.contains(p) && 0 <= i < l1.len() && 0 <= j < l1[i].len()
        implies apart(p.0 as int, list_block_size(p.1), #[trigger] l1[i][j] as int, list_block_size(i)) by {
        if !(i == idx && j == n) {
            assert(l1[i][j] == lists[i][j]);
        }
    }
    assert forall|i: int, j: int, k: int, m: int|
        0 <= i < l1.len() && 0 <= j < l1[i].len() && 0 <= k < l1.len() && 0 <= m < l1[k].len()
        && (i != k || j != m) implies
            #[trigger] l1[i][j] + list_block_size(i) <= #[trigger] l1[k][m]
            || l1[k][m] + list_block_size(k) <= l1[i][j] by {
        if !(i == idx && j == n) {
            assert(l1[i][j] == lists[i][j]);
        }
        if !(k == idx && m == n) {
            assert(l1[k][m] == lists[k][m]);
        }
    }
}

/// Freeing a block that is owned and apart from every free and live block,
/// merging it with its free buddies, keeps the free blocks owned and apart
/// from one another and from the live blocks.
proof fn lemma_coalesce_sound(lists: Seq<Seq<usize>>, base: Option<usize>, region_size: usize, block: usize, order: nat,
    owned: Set<int>, live: Set<(usize, int)>)
    requires
        MIN_ORDER <= order <= MAX_ORDER,
        lists.len() == NUM_ORDERS,
        forall|i: int, j: int| 0 <= i < lists.len() && 0 <= j < lists[i].len() ==>
            #[trigger] lists[i][j] + list_block_size(i) <= usize::MAX,
        free_disjoint(lists),
        free_inside(lists, owned),
        live_apart_free(live, lists),
        free_apart_from(lists, block as int, list_block_size(order - MIN_ORDER)),
        inside(owned, block as int, list_block_size(order - MIN_ORDER)),
        live_apart_block(live, block as int, list_block_size(order - MIN_ORDER)),
        block + list_block_size(order - MIN_ORDER) <= usize::MAX,
        forall|p: (usize, int)| #[trigger] live.contains(p) ==> 0 <= p.1 < NUM_ORDERS,
    ensures
        coalesce_lists(lists, base, region_size, block, order).len() == NUM_ORDERS,
        free_disjoint(coalesce_lists(lists, base, region_size, block, order)),
        free_inside(coalesce_lists(lists, base, region_size, block, order), owned),
        live_apart_free(live, coalesce_lists(lists, base, region_size, block, order)),
    decreases MAX_ORDER - order,
{
    let idx = order - MIN_ORDER;
    let buddy = buddy_of(block, order);
    if order >= MAX_ORDER || base is None || buddy < base.unwrap() || buddy >= base.unwrap() + region_size
        || !lists[idx].contains(buddy) {
        lemma_push_sound(lists, idx, block, owned, live);
    } else {
        let s = list_block_size(idx);
        lemma_list_block_sizes(idx);
        lemma_order_sizes();
        lemma_buddy_merge(block, order as usize);
        assert(order_size(order) == s);
        assert(buddy == block ^ (1usize << (order as usize)));
        let lo = if block < buddy { block } else { buddy };
        let sl = lists[idx];
        lemma_last_index(sl, buddy);
        let k = last_index_of(sl, buddy);
        let r = sl.remove(k);
        let l1 = lists.update(idx, r);
        assert(lists[idx][k] == buddy);
        assert(buddy + s <= usize::MAX);
        // Where each block of `l1` stands in `lists`.
        assert forall|i: int, j: int| 0 <= i < l1.len() && 0 <= j < l1[i].len() implies
            #[trigger] l1[i][j] == lists[i][if i == idx && j >= k { j + 1 } else { j }]
            && !(i == idx && (if i == idx && j >= k { j + 1 } else { j }) == k)
            && 0 <= (if i == idx && j >= k { j + 1 } else { j }) < lists[i].len() by {
            if i == idx {
                assert(l1[i] == r);
            } else {
                assert(l1[i] == lists[i]);
            }
        }
        assert forall|i: int, j: int| 0 <= i < l1.len() && 0 <= j < l1[i].len() implies
            #[trigger] l1[i][j] + list_block_size(i) <= usize::MAX by {
            let jj = if i == idx && j >= k { j + 1 } else { j };
            assert(l1[i][j] == lists[i][jj]);
        }
        assert forall|i: int, j: int| 0 <= i < l1.len() && 0 <= j < l1[i].len() implies
            inside(owned, #[trigger] l1[i][j] as int, list_block_size(i)) by {
            let jj = if i == idx && j >= k { j + 1 } else { j };
            assert(l1[i][j] == lists[i][jj]);
        }
        assert forall|p: (usize, int), i: int, j: int| #[trigger] live.contains(p) && 0 <= i < l1.len() && 0 <= j < l1[i].len()
            implies apart(p.0 as int, list_block_size(p.1), #[trigger] l1[i][j] as int, list_block_size(i)) by {
            let jj = if i == idx && j >= k { j + 1 } else { j };
            assert(l1[i][j] == lists[i][jj]);
        }
        assert forall|i: int, j: int, a: int, m: int|
            0 <= i < l1.len() && 0 <= j < l1[i].len() && 0 <= a < l1.len() && 0 <= m < l1[a].len()
            && (i != a || j != m) implies
                #[trigger] l1[i][j] + list_block_size(i) <= #[trigger] l1[a][m]
                || l1[a][m] + list_block_size(a) <= l1[i][j] by {
            let jj = if i == idx && j >= k { j + 1 } else { j };
            let mm = if a == idx && m >= k { m + 1 } else { m };
            assert(l1[i][j] == lists[i][jj]);
            assert(l1[a][m] == lists[a][mm]);
        }
        // The merged block: the block and its buddy side by side.
        assert forall|i: int, j: int| 0 <= i < l1.len() && 0 <= j < l1[i].len() implies
            #[trigger] l1[i][j] + list_block_size(i) <= lo || lo + 2 * s <= l1[i][j] by {
            let jj = if i == idx && j >= k { j + 1 } else { j };
            assert(l1[i][j] == lists[i][jj]);
            assert(lists[i][jj] + list_block_size(i) <= lists[idx][k] || lists[idx][k] + list_block_size(idx) <= lists[i][jj]);
            lemma_list_block_sizes(i);
        }
        assert(inside(owned, lo as int, 2 * s)) by {
            assert(inside(owned, buddy as int, s));
            assert forall|x: int| lo <= x < lo + 2 * s implies #[trigger] owned.contains(x) by {
                if block <= x < block + s {
                } else {
                    assert(buddy <= x < buddy + s);
                }
            }
        }
        assert forall|p: (usize, int)| #[trigger] live.contains(p) implies apart(p.0 as int, list_block_size(p.1), lo as int, 2 * s) by {
            assert(apart(p.0 as int, list_block_size(p.1), lists[idx][k] as int, list_block_size(idx)));
            lemma_list_block_sizes(p.1);
        }
        assert(list_block_size(order + 1 - MIN_ORDER) == 2 * s);
        lemma_coalesce_sound(l1, base, region_size, lo, order + 1, owned, live);
        assert(coalesce_lists(lists, base, region_size, block, order) == coalesce_lists(l1, base, region_size, lo, order + 1));
    }
}

/// Blocks inside two sets of bytes with nothing in common do not overlap.
proof fn lemma_apart_if_separate(a: int, s: int, b: int, t: int, owned: Set<int>, fresh: Set<int>)
    requires
        s >= 1,
        t >= 1,
        inside(owned, a, s),
        inside(fresh, b, t),
        forall|x: int| #[trigger] fresh.contains(x) ==> !owned.contains(x),
    ensures
        apart(a, s, b, t),
{
    if !apart(a, s, b, t) {
        let x = if a < b { b } else { a };
        assert(owned.contains(x));
        assert(fresh.contains(x));
    }
}

/// What handing out a block does to sound free lists: the block taken
/// (the last of list `found`, split down to list `idx`) is owned and apart
/// from every live block and every block still free, and the free lists
/// stay owned and apart from one another and from the live blocks.
proof fn lemma_allocate_sound(lists: Seq<Seq<usize>>, found: int, idx: int, owned: Set<int>, live: Set<(usize, int)>)
    requires
        0 <= idx <= found < NUM_ORDERS,
        lists.len() == NUM_ORDERS,
        lists[found].len() > 0,
        lists[found].last() + list_block_size(found) <= usize::MAX,
        free_disjoint(lists),
        free_inside(lists, owned),
        live_apart_free(live, lists),
    ensures
        ({
            let block = lists[found].last();
            let after = split_lists(lists.update(found, lists[found].drop_last()), block, found as nat, idx as nat);
            &&& after.len() == NUM_ORDERS
            &&& free_disjoint(after)
            &&& free_inside(after, owned)
            &&& live_apart_free(live, after)
            &&& free_apart_from(after, block as int, list_block_size(idx))
            &&& inside(owned, block as int, list_block_size(idx))
            &&& live_apart_block(live, block as int, list_block_size(idx))
        }),
{
    let block = lists[found].last();
    let n = lists[found].len() as int;
    let l0 = lists.update(found, lists[found].drop_last());
    assert(lists[found][n - 1] == block);
    assert forall|i: int, j: int| 0 <= i < l0.len() && 0 <= j < l0[i].len() implies
        inside(owned, #[trigger] l0[i][j] as int, list_block_size(i)) by {
        assert(l0[i][j] == lists[i][j]);
    }
    assert forall|p: (usize, int), i: int, j: int| #[trigger] live.contains(p) && 0 <= i < l0.len() && 0 <= j < l0[i].len()
        implies apart(p.0 as int, list_block_size(p.1), #[trigger] l0[i][j] as int, list_block_size(i)) by {
        assert(l0[i][j] == lists[i][j]);
    }
    assert forall|i: int, j: int| 0 <= i < l0.len() && 0 <= j < l0[i].len() implies
        #[trigger] l0[i][j] + list_block_size(i) <= block || block + list_block_size(found) <= l0[i][j] by {
        assert(l0[i][j] == lists[i][j]);
    }
    assert forall|i: int, j: int, k: int, m: int|
        0 <= i < l0.len() && 0 <= j < l0[i].len() && 0 <= k < l0.len() && 0 <= m < l0[k].len()
        && (i != k || j != m) implies
            #[trigger] l0[i][j] + list_block_size(i) <= #[trigger] l0[k][m]
            || l0[k][m] + list_block_size(k) <= l0[i][j] by {
        assert(l0[i][j] == lists[i][j]);
        assert(l0[k][m] == lists[k][m]);
    }
    assert(inside(owned, lists[found][n - 1] as int, list_block_size(found)));
    assert forall|p: (usize, int)| #[trigger] live.contains(p) implies
        apart(p.0 as int, list_block_size(p.1), block as int, list_block_size(found)) by {
        assert(apart(p.0 as int, list_block_size(p.1), lists[found][n - 1] as int, list_block_size(found)));
    }
    lemma_split_sound(l0, block, found as nat, idx as nat, owned, live);
}

} // verus!
