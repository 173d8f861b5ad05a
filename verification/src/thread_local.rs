//! Thread-local allocation cache
//!
//! One cache per thread keeps freed blocks of each tiny and small size class
//! for reuse, up to `CACHE_SIZE` per class. Blocks come from, and go back to,
//! the page allocator: the cache says how many pages to map or unmap and its
//! caller does it.

use vstd::prelude::*;
use crate::page::{PAGE_SIZE, pages_for, div_ceil_pages};
use crate::size_class::{SizeClass, class_of, round_up_pow2, next_pow2, ceil_log2, exact_log2, lemma_next_pow2_is_least, lemma_ceil_log2_least, MAX_POW2_REQUEST};
use vstd::arithmetic::power2::{pow2, lemma2_to64, lemma_pow2_adds, lemma_pow2_strictly_increases};

verus! {

/// Number of tiny size classes (16B, 32B, 64B, 128B = 4 classes)
pub const TINY_CLASSES: usize = 4;
/// Number of small size classes (256B, 512B, 1KB, 2KB, 4KB, 8KB = 6 classes)
pub const SMALL_CLASSES: usize = 6;

/// Maximum number of cached pointers per size class
pub const CACHE_SIZE: usize = 32;

/// A cache slot: the cached blocks of one size class, most recently cached last
pub struct CacheSlot {
    blocks: Vec<usize>,
}

/// Block size of slot `idx` of the tiny (`is_tiny`) or small classes.
pub open spec fn slot_block_size(is_tiny: bool, idx: nat) -> nat {
    if is_tiny {
        16 * pow2(idx)
    } else {
        256 * pow2(idx)
    }
}

impl CacheSlot {
    pub closed spec fn view(&self) -> Seq<usize> {
        self.blocks@
    }

    pub fn new() -> (s: Self)
        ensures
            s@ == Seq::<usize>::empty(),
    {
        Self { blocks: Vec::new() }
    }

    /// Block size of slot `idx`: 16, 32, 64, 128 for the tiny slots and
    /// 256 .. 8192 for the small ones.
    pub fn size_for_index(is_tiny: bool, idx: usize) -> (r: usize)
        requires
            is_tiny ==> idx < TINY_CLASSES,
            !is_tiny ==> idx < SMALL_CLASSES,
        ensures
            r == slot_block_size(is_tiny, idx as nat),
    {
        let mut r: usize = if is_tiny {
            16
        } else {
            256
        };
        let ghost base = r;
        let mut k: usize = 0;
        proof {
            lemma2_to64();
        }
        while k < idx
            invariant
                k <= idx,
                idx < 6,
                base == 16 || base == 256,
                base == (if is_tiny { 16int } else { 256int }),
                r == base * pow2(k as nat),
            decreases idx - k,
        {
            proof {
                lemma2_to64();
                vstd::arithmetic::power2::lemma_pow2_strictly_increases(k as nat, 6);
                vstd::arithmetic::power2::lemma_pow2_unfold((k + 1) as nat);
                if k + 1 < 6 {
                    vstd::arithmetic::power2::lemma_pow2_strictly_increases((k + 1) as nat, 6);
                }
            }
            assert(r <= 256 * 64) by (nonlinear_arith)
                requires
                    r == base * pow2(k as nat),
                    base <= 256,
                    pow2(k as nat) < 64,
            ;
            r = r * 2;
            k = k + 1;
            assert(r == base * pow2(k as nat)) by (nonlinear_arith)
                requires
                    r == 2 * (base * pow2((k - 1) as nat)),
                    pow2(k as nat) == 2 * pow2((k - 1) as nat),
            ;
        }
        r
    }
}

/// The slot that `get_slot` picks for a request of `size` bytes: the tiny
/// slot of the rounded-up size for tiny requests, the small one for small
/// requests, none for medium and large ones.
pub open spec fn slot_of(size: nat) -> Option<(bool, nat)> {
    match class_of(size) {
        SizeClass::Tiny => Some((true, if ceil_log2(size) < 4 { 0 } else { (ceil_log2(size) - 4) as nat })),
        SizeClass::Small => Some((false, (ceil_log2(size) - 8) as nat)),
        _ => None,
    }
}

/// What an allocation from the cache gives.
#[derive(Debug, Clone, Copy, PartialEq, Eq, Structural)]
pub enum CacheAlloc {
    /// A cached block.
    Cached(usize),
    /// The class's cache is empty: map this many pages for a fresh block.
    MapPages(usize),
    /// The size has no cache slot.
    Uncached,
}

/// What returning a block to the cache asks of the caller.
#[derive(Debug, Clone, Copy, PartialEq, Eq, Structural)]
pub enum CacheFree {
    /// The block was cached.
    Cached,
    /// Unmap this many pages at the block.
    Unmap { ptr: usize, pages: usize },
}

/// The unmaps for the cached blocks `blocks` of one slot, `pages` pages
/// each, most recently cached first.
pub open spec fn slot_unmaps(blocks: Seq<usize>, pages: usize) -> Seq<(usize, usize)> {
    Seq::new(blocks.len(), |j: int| (blocks[blocks.len() - 1 - j], pages))
}

/// Thread-local cache for small allocations
pub struct ThreadLocalCache {
    /// Cache slots for tiny sizes: 16B, 32B, 64B, 128B
    tiny: Vec<CacheSlot>,
    /// Cache slots for small sizes: 256B, 512B, 1KB, 2KB, 4KB, 8KB
    small: Vec<CacheSlot>,
}

impl ThreadLocalCache {
    pub closed spec fn wf(&self) -> bool {
        self.tiny@.len() == TINY_CLASSES && self.small@.len() == SMALL_CLASSES
    }

    /// The cached blocks of slot `idx` of the tiny (`is_tiny`) or small classes.
    pub closed spec fn slot_view(&self, is_tiny: bool, idx: int) -> Seq<usize> {
        if is_tiny {
            self.tiny@[idx]@
        } else {
            self.small@[idx]@
        }
    }

    /// Every slot holds no block.
    pub open spec fn is_cleared(&self) -> bool {
        &&& forall|i: int| 0 <= i < TINY_CLASSES ==> #[trigger] self.slot_view(true, i).len() == 0
        &&& forall|i: int| 0 <= i < SMALL_CLASSES ==> #[trigger] self.slot_view(false, i).len() == 0
    }

    /// Create a new thread-local cache
    pub fn new() -> (c: Self)
        ensures
            c.wf(),
            c.is_cleared(),
    {
        let mut tiny: Vec<CacheSlot> = Vec::new();
        let mut small: Vec<CacheSlot> = Vec::new();
        let mut i: usize = 0;
        while i < TINY_CLASSES
            invariant
                tiny@.len() == i,
                i <= TINY_CLASSES,
                forall|j: int| 0 <= j < i ==> (#[trigger] tiny@[j])@.len() == 0,
            decreases TINY_CLASSES - i,
        {
            tiny.push(CacheSlot::new());
            i = i + 1;
        }
        let mut i: usize = 0;
        while i < SMALL_CLASSES
            invariant
                small@.len() == i,
                i <= SMALL_CLASSES,
                forall|j: int| 0 <= j < i ==> (#[trigger] small@[j])@.len() == 0,
            decreases SMALL_CLASSES - i,
        {
            small.push(CacheSlot::new());
            i = i + 1;
        }
        Self { tiny, small }
    }

    /// Get the cache slot for a given size: whether it is a tiny slot, and
    /// its index.
    pub fn get_slot(size: usize) -> (r: Option<(bool, usize)>)
        ensures
            r matches Some((t, i)) ==> slot_of(size as nat) == Some((t, i as nat))
                && (t ==> i < TINY_CLASSES) && (!t ==> i < SMALL_CLASSES),
            r is None ==> slot_of(size as nat) is None,
    {
        let size_class = SizeClass::classify(size);
        proof {
            lemma2_to64();
        }
        match size_class {
            SizeClass::Tiny => {
                let rounded = round_up_pow2(size);
                proof {
                    lemma_ceil_log2_least(size as nat, 7);
                }
                if rounded <= 16 {
                    proof {
                        if ceil_log2(size as nat) > 4 {
                            lemma_pow2_strictly_increases(4, ceil_log2(size as nat));
                        }
                    }
                    return Some((true, 0));
                }
                let log = exact_log2(rounded, Ghost(ceil_log2(size as nat))) as usize;
                proof {
                    if log < 4 {
                        lemma_pow2_strictly_increases(log as nat, 4);
                    }
                }
                Some((true, log - 4))
            },
            SizeClass::Small => {
                let rounded = round_up_pow2(size);
                proof {
                    lemma_ceil_log2_least(size as nat, 13);
                    if ceil_log2(size as nat) <= 7 {
                        vstd::arithmetic::power2::lemma_pow2_strictly_increases(ceil_log2(size as nat), 8);
                        lemma_next_pow2_is_least(size as nat);
                        if ceil_log2(size as nat) < 7 {
                            lemma_pow2_strictly_increases(ceil_log2(size as nat), 7);
                        }
                    }
                }
                let log = exact_log2(rounded, Ghost(ceil_log2(size as nat))) as usize;
                Some((false, log - 8))
            },
            _ => None,
        }
    }

    /// Allocate from thread-local cache: the most recently cached block of
    /// the request's slot, or, when that slot is empty, the number of pages
    /// to map for a fresh block of the slot's size.
    pub fn allocate(&mut self, size: usize) -> (r: CacheAlloc)
        requires
            old(self).wf(),
        ensures
            final(self).wf(),
            slot_of(size as nat) is None ==> r == CacheAlloc::Uncached && final(self).slot_view(true, 0) == old(self).slot_view(true, 0),
            slot_of(size as nat) matches Some((t, i)) ==> (
                (old(self).slot_view(t, i as int).len() > 0 ==> r == CacheAlloc::Cached(old(self).slot_view(t, i as int).last())
                    && final(self).slot_view(t, i as int) == old(self).slot_view(t, i as int).drop_last())
                && (old(self).slot_view(t, i as int).len() == 0 ==> r == CacheAlloc::MapPages(
                    vstd::math::max(pages_for(slot_block_size(t, i)) as int, 1) as usize)
                    && final(self).slot_view(t, i as int) == old(self).slot_view(t, i as int))),
            forall|t: bool, j: int| (slot_of(size as nat) != Some((t, j as nat))) && 0 <= j
                && (t ==> j < TINY_CLASSES) && (!t ==> j < SMALL_CLASSES)
                ==> #[trigger] final(self).slot_view(t, j) == old(self).slot_view(t, j),
    {
        match Self::get_slot(size) {
            None => CacheAlloc::Uncached,
            Some((is_tiny, idx)) => {
                let popped = if is_tiny {
                    self.tiny[idx].blocks.pop()
                } else {
                    self.small[idx].blocks.pop()
                };
                match popped {
                    Some(ptr) => CacheAlloc::Cached(ptr),
                    None => {
                        let alloc_size = CacheSlot::size_for_index(is_tiny, idx);
                        let pages = div_ceil_pages(alloc_size);
                        CacheAlloc::MapPages(if pages > 1 {
                            pages
                        } else {
                            1
                        })
                    },
                }
            },
        }
    }

    /// Return to thread-local cache: the block is cached in its size's slot
    /// unless the size has no slot or the slot already holds `CACHE_SIZE`
    /// blocks; then the pages of the size rounded up to a power of two are
    /// to be unmapped.
    pub fn dealloc(&mut self, ptr: usize, size: usize) -> (r: CacheFree)
        requires
            old(self).wf(),
            size <= MAX_POW2_REQUEST,
        ensures
            final(self).wf(),
            slot_of(size as nat) is None ==> r == (CacheFree::Unmap { ptr, pages: pages_for(next_pow2(size as nat)) as usize }),
            slot_of(size as nat) matches Some((t, i)) ==> (
                (old(self).slot_view(t, i as int).len() >= CACHE_SIZE ==> r == (CacheFree::Unmap { ptr, pages: pages_for(next_pow2(size as nat)) as usize })
                    && final(self).slot_view(t, i as int) == old(self).slot_view(t, i as int))
                && (old(self).slot_view(t, i as int).len() < CACHE_SIZE ==> r == CacheFree::Cached
                    && final(self).slot_view(t, i as int) == old(self).slot_view(t, i as int).push(ptr))),
            forall|t: bool, j: int| (slot_of(size as nat) != Some((t, j as nat))) && 0 <= j
                && (t ==> j < TINY_CLASSES) && (!t ==> j < SMALL_CLASSES)
                ==> #[trigger] final(self).slot_view(t, j) == old(self).slot_view(t, j),
    {
        match Self::get_slot(size) {
            None => {
                let alloc_size = round_up_pow2(size);
                let pages = div_ceil_pages(alloc_size);
                CacheFree::Unmap { ptr, pages }
            },
            Some((is_tiny, idx)) => {
                let count = if is_tiny {
                    self.tiny[idx].blocks.len()
                } else {
                    self.small[idx].blocks.len()
                };
                if count >= CACHE_SIZE {
                    let alloc_size = round_up_pow2(size);
                    let pages = div_ceil_pages(alloc_size);
                    return CacheFree::Unmap { ptr, pages };
                }
                if is_tiny {
                    self.tiny[idx].blocks.push(ptr);
                } else {
                    self.small[idx].blocks.push(ptr);
                }
                CacheFree::Cached
            },
        }
    }

    /// Empties slot `i` of the tiny (`is_tiny`) or small classes, adding
    /// each of its blocks (most recently cached first) with `pages` to
    /// `unmaps`.
    fn drain_slot(&mut self, is_tiny: bool, i: usize, pages: usize, unmaps: &mut Vec<(usize, usize)>)
        requires
            old(self).wf(),
            is_tiny ==> i < TINY_CLASSES,
            !is_tiny ==> i < SMALL_CLASSES,
        ensures
            final(self).wf(),
            final(unmaps)@ == old(unmaps)@ + slot_unmaps(old(self).slot_view(is_tiny, i as int), pages),
            final(self).slot_view(is_tiny, i as int).len() == 0,
            forall|t: bool, j: int| !(t == is_tiny && j == i) && 0 <= j && (t ==> j < TINY_CLASSES) && (!t ==> j < SMALL_CLASSES)
                ==> #[trigger] final(self).slot_view(t, j) == old(self).slot_view(t, j),
    {
        let ghost orig = self.slot_view(is_tiny, i as int);
        let ghost base = unmaps@;
        while self.slot_len(is_tiny, i) > 0
            invariant
                self.wf(),
                is_tiny ==> i < TINY_CLASSES,
                !is_tiny ==> i < SMALL_CLASSES,
                orig == old(self).slot_view(is_tiny, i as int),
                base == old(unmaps)@,
                self.slot_view(is_tiny, i as int).len() <= orig.len(),
                self.slot_view(is_tiny, i as int) == orig.subrange(0, self.slot_view(is_tiny, i as int).len() as int),
                unmaps@ == base + slot_unmaps(orig, pages).subrange(0, orig.len() - self.slot_view(is_tiny, i as int).len()),
                forall|t: bool, j: int| !(t == is_tiny && j == i) && 0 <= j && (t ==> j < TINY_CLASSES) && (!t ==> j < SMALL_CLASSES)
                    ==> #[trigger] self.slot_view(t, j) == old(self).slot_view(t, j),
            decreases self.slot_view(is_tiny, i as int).len(),
        {
            let ghost cur = self.slot_view(is_tiny, i as int);
            let ghost before = *self;
            let popped = if is_tiny {
                self.tiny[i].blocks.pop()
            } else {
                self.small[i].blocks.pop()
            };
            let ptr = match popped {
                Some(p) => p,
                None => 0,
            };
            unmaps.push((ptr, pages));
            proof {
                let k = orig.len() - cur.len();
                assert(cur.len() > 0);
                assert(ptr == cur[cur.len() - 1]);
                assert(cur[cur.len() - 1] == orig[cur.len() - 1]);
                assert(slot_unmaps(orig, pages)[k] == (ptr, pages));
                assert(slot_unmaps(orig, pages).subrange(0, k + 1)
                    =~= slot_unmaps(orig, pages).subrange(0, k).push((ptr, pages)));
                assert(self.slot_view(is_tiny, i as int) =~= orig.subrange(0, cur.len() - 1));
                assert forall|t: bool, j: int| !(t == is_tiny && j == i) && 0 <= j && (t ==> j < TINY_CLASSES) && (!t ==> j < SMALL_CLASSES)
                    implies #[trigger] self.slot_view(t, j) == before.slot_view(t, j) by {
                    if t {
                        assert(self.tiny@[j] == before.tiny@[j]);
                    } else {
                        assert(self.small@[j] == before.small@[j]);
                    }
                }
            }
        }
        proof {
            assert(orig.len() - self.slot_view(is_tiny, i as int).len() == orig.len());
            assert(slot_unmaps(orig, pages).subrange(0, orig.len() as int) =~= slot_unmaps(orig, pages));
        }
    }

    /// Number of blocks in slot `i` of the tiny (`is_tiny`) or small classes.
    fn slot_len(&self, is_tiny: bool, i: usize) -> (r: usize)
        requires
            self.wf(),
            is_tiny ==> i < TINY_CLASSES,
            !is_tiny ==> i < SMALL_CLASSES,
        ensures
            r == self.slot_view(is_tiny, i as int).len(),
    {
        if is_tiny {
            self.tiny[i].blocks.len()
        } else {
            self.small[i].blocks.len()
        }
    }

    /// Clear all cached allocations: empties every slot and gives, slot by
    /// slot (tiny ones first), each cached block (most recently cached
    /// first) with the number of pages to unmap for it.
    pub fn clear(&mut self) -> (r: Vec<(usize, usize)>)
        requires
            old(self).wf(),
        ensures
            final(self).wf(),
            final(self).is_cleared(),
            r@ == slots_unmaps(*old(self), true, TINY_CLASSES as int) + slots_unmaps(*old(self), false, SMALL_CLASSES as int),
    {
        let mut unmaps: Vec<(usize, usize)> = Vec::new();
        let mut i: usize = 0;
        while i < TINY_CLASSES
            invariant
                self.wf(),
                i <= TINY_CLASSES,
                forall|j: int| 0 <= j < i ==> #[trigger] self.slot_view(true, j).len() == 0,
                forall|j: int| i <= j < TINY_CLASSES ==> #[trigger] self.slot_view(true, j) == old(self).slot_view(true, j),
                forall|j: int| 0 <= j < SMALL_CLASSES ==> #[trigger] self.slot_view(false, j) == old(self).slot_view(false, j),
                unmaps@ == slots_unmaps(*old(self), true, i as int),
            decreases TINY_CLASSES - i,
        {
            let pages = div_ceil_pages(CacheSlot::size_for_index(true, i));
            self.drain_slot(true, i, pages, &mut unmaps);
            i = i + 1;
        }
        let ghost tiny_part = unmaps@;
        let mut i: usize = 0;
        while i < SMALL_CLASSES
            invariant
                self.wf(),
                i <= SMALL_CLASSES,
                forall|j: int| 0 <= j < TINY_CLASSES ==> #[trigger] self.slot_view(true, j).len() == 0,
                forall|j: int| 0 <= j < i ==> #[trigger] self.slot_view(false, j).len() == 0,
                forall|j: int| i <= j < SMALL_CLASSES ==> #[trigger] self.slot_view(false, j) == old(self).slot_view(false, j),
                tiny_part == slots_unmaps(*old(self), true, TINY_CLASSES as int),
                unmaps@ == tiny_part + slots_unmaps(*old(self), false, i as int),
            decreases SMALL_CLASSES - i,
        {
            let pages = div_ceil_pages(CacheSlot::size_for_index(false, i));
            self.drain_slot(false, i, pages, &mut unmaps);
            assert(unmaps@ =~= tiny_part + slots_unmaps(*old(self), false, (i + 1) as int));
            i = i + 1;
        }
        unmaps
    }
}

/// The unmaps for the first `k` slots of the tiny (`is_tiny`) or small
/// classes of `c`, slot by slot.
pub open spec fn slots_unmaps(c: ThreadLocalCache, is_tiny: bool, k: int) -> Seq<(usize, usize)>
    decreases k,
{
    if k <= 0 {
        Seq::empty()
    } else {
        slots_unmaps(c, is_tiny, k - 1) + slot_unmaps(
            c.slot_view(is_tiny, k - 1),
            pages_for(slot_block_size(is_tiny, (k - 1) as nat)) as usize,
        )
    }
}

impl Default for ThreadLocalCache {
    fn default() -> (c: Self)
        ensures
            c.wf(),
            c.is_cleared(),
    {
        Self::new()
    }
}

/// Law: a block returned to a cache slot with room (`dealloc` pushes it) is
/// the next block that `allocate` hands out for that slot, and taking it
/// leaves the slot as it was before.
pub proof fn lemma_cache_reuses_freed_block(slot: Seq<usize>, ptr: usize)
    ensures
        slot.push(ptr).len() > 0,
        slot.push(ptr).last() == ptr,
        slot.push(ptr).drop_last() == slot,
{
    assert(slot.push(ptr).drop_last() =~= slot);
}

} // verus!
