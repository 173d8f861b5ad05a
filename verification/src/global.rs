//! The global allocator's decisions.
//!
//! Requests of at most `MAX_CACHE_SIZE` bytes with an alignment of at most
//! eight are served from per-class magazines: a block is `cache size + 16`
//! bytes, its first word holds the requested size and the caller gets the
//! address 16 bytes in. Empty magazines are refilled from the global pool of
//! full magazines or by carving a fresh page; full magazines of freed blocks
//! go to the global pool. Other requests get their own pages, with a page
//! header at the start and a large-allocation header just before the
//! returned address, which is aligned to the requested alignment and to at
//! least 16 bytes. A freed pointer is recognised by the word 16 bytes
//! before it. Counters are kept per thread and flushed to the global
//! counters, and to the support core's ring, every few thousand operations.
//!
//! Mapping pages and reading or writing the headers in memory is done by
//! the caller, as the steps returned here say.

use vstd::prelude::*;
use crate::page::{PAGE_SIZE, pages_for, div_ceil_pages};
use crate::size_class::{round_up_pow2, next_pow2, ceil_log2, exact_log2, lemma_next_pow2_is_least, lemma_ceil_log2_least, MAX_POW2_REQUEST};
use crate::magazine::{Magazine, MagazineNode, GlobalMagazinePools, GlobalMagazinePool, MetadataAllocator, NodeSlot, MAGAZINE_CAPACITY};
use crate::metrics::{GlobalMetrics, ThreadMetrics, MetricsSnapshot, METRICS_FLUSH_THRESHOLD, snapshot_of, flushed_into, zero_thread_metrics};
use crate::ring_buffer::RingBuffer;
use crate::command::{RingCommand, RingEntry, RingPayload, FreeBlockPayload, StatsReportPayload};
use crate::tag_manager::Tag;
use crate::simple_cache::GlobalFreeLists;
use crate::ownership::{cache_aligned, lemma_take_keeps_alignment, lemma_same_magazines_keep_alignment, lemma_free_keeps_alignment,
    lemma_carve_keeps_alignment, stashed};
use vstd::arithmetic::power2::{pow2, lemma2_to64, lemma_pow2_strictly_increases};

verus! {

pub const MAX_CACHE_SIZE: usize = 65536;
pub const NUM_SIZE_CLASSES: usize = 14;
pub const MAGIC: u32 = 0xA7E8_A110;
pub const LARGE_MAGIC: u32 = 0xA7E8_A11F;
/// Bytes of a `PageHeader` in memory.
pub const PAGE_HEADER_SIZE: usize = 24;
pub const CACHE_HEADER_SIZE: usize = 16;
pub const LARGE_HEADER_SIZE: usize = 16;
/// AMO ring buffer capacity (power of 2)
pub const AMO_RING_CAPACITY: usize = 1024;

/// Header at the start of the pages of a large allocation
#[derive(Debug, Clone, Copy, PartialEq, Eq, Structural)]
pub struct PageHeader {
    pub magic: u32,
    pub num_pages: u32,
    pub requested_size: usize,
    pub tag: Tag,
}

/// Header just before the address of a large allocation
#[derive(Debug, Clone, Copy, PartialEq, Eq, Structural)]
pub struct LargeAllocHeader {
    pub magic: u32,
    pub base_ptr: usize,
}

/// The cache class of a request of `size` bytes: the exponent of its
/// rounded-up size (at least 16) less four, for sizes up to 64 KiB.
pub open spec fn class_for(size: nat) -> Option<usize> {
    if ceil_log2(size) <= 4 {
        Some(0)
    } else if ceil_log2(size) <= 16 {
        Some((ceil_log2(size) - 4) as usize)
    } else {
        None
    }
}

/// The class of size `size` rounded up to a power of two of at least 16:
/// 16 B is class 0, 32 B class 1, up to 64 KiB, class 12; larger sizes have
/// no class.
pub fn size_to_class(size: usize) -> (r: Option<usize>)
    requires
        size <= MAX_POW2_REQUEST,
    ensures
        r == class_for(size as nat),
        r matches Some(c) ==> c <= 12,
{
    let p = round_up_pow2(size);
    proof {
        lemma2_to64();
        lemma_next_pow2_is_least(size as nat);
    }
    if p <= 16 {
        proof {
            if ceil_log2(size as nat) > 4 {
                lemma_pow2_strictly_increases(4, ceil_log2(size as nat));
            }
        }
        return Some(0);
    }
    proof {
        if ceil_log2(size as nat) <= 4 {
            vstd::arithmetic::power2::lemma_pow2_strictly_increases(ceil_log2(size as nat), 4);
        }
        vstd::arithmetic::power2::lemma_pow2_unfold(64);
        lemma_ceil_log2_least(size as nat, 63);
    }
    let log = exact_log2(p, Ghost(ceil_log2(size as nat))) as usize;
    if log <= 16 {
        Some(log - 4)
    } else {
        None
    }
}

/// The global allocator
pub struct AethAlloc;

impl AethAlloc {
    pub fn new() -> (a: Self) {
        AethAlloc
    }

    /// `addr` rounded up to a multiple of `align` (a power of two): the
    /// least address at or above `addr` whose bits below `align` are zero.
    pub fn align_up(addr: usize, align: usize) -> (r: usize)
        requires
            align >= 1,
            addr + align - 1 <= usize::MAX,
        ensures
            addr <= r < addr + align,
            r & ((align - 1) as usize) == 0,
            r == ((addr + align - 1) as usize) & !((align - 1) as usize),
    {
        let m = align - 1;
        let x = addr + m;
        let r = x & !m;
        proof {
            assert(x & !m <= x && x - (x & !m) <= m && (x & !m) & m == 0usize) by (bit_vector);
        }
        r
    }

    /// Start of the page that holds `ptr`.
    pub fn page_header_from_ptr(ptr: usize) -> (r: usize)
        ensures
            r == ptr & !0xFFFusize,
            r <= ptr < r + PAGE_SIZE,
            r as int % PAGE_SIZE as int == 0,
    {
        proof {
            assert(ptr & !0xFFFusize <= ptr && ptr - (ptr & !0xFFFusize) < 4096 && (ptr & !0xFFFusize) % 4096 == 0) by (bit_vector);
        }
        ptr & !0xFFFusize
    }
}

/// The block of class `class` handed out by a thread cache whose allocation
/// magazine holds `am` and free magazine `fm`, with `full` the global stack
/// of full magazines of the class.
pub open spec fn take_result(am: Seq<usize>, fm: Seq<usize>, full: Seq<MagazineNode>) -> Option<usize> {
    if am.len() > 0 {
        Some(am.last())
    } else if fm.len() > 0 {
        Some(fm.last())
    } else if full.len() > 0 && full.last().magazine@.len() > 0 {
        Some(full.last().magazine@.last())
    } else {
        None
    }
}

/// How taking a block of class `class` changes the thread cache (from `tc`
/// to `tc2`) and the global pools (from `gp` to `gp2`): the allocation
/// magazine loses its top block; or, when it is empty, the free magazine
/// becomes the allocation magazine (less its top block) and the empty one
/// the free magazine; or, when both are empty, the top full magazine of the
/// global pool becomes the allocation magazine (less its top block, if it
/// has one) and an emptied magazine goes on the pool's empty stack. Nothing
/// else in the magazines changes.
pub open spec fn took(class: int, tc: ThreadCache, gp: GlobalMagazinePools, tc2: ThreadCache, gp2: GlobalMagazinePools) -> bool {
    let am = tc.alloc_view(class);
    let fm = tc.free_view(class);
    let full = gp.pools@[class].full_view();
    let empty = gp.pools@[class].empty_view();
    let am2 = tc2.alloc_view(class);
    let fm2 = tc2.free_view(class);
    let full2 = gp2.pools@[class].full_view();
    let empty2 = gp2.pools@[class].empty_view();
    &&& am.len() > 0 ==> am2 == am.drop_last() && fm2 == fm && full2 == full && empty2 == empty
    &&& am.len() == 0 && fm.len() > 0 ==> am2 == fm.drop_last() && fm2 == am && full2 == full && empty2 == empty
    &&& am.len() == 0 && fm.len() == 0 && full.len() > 0 ==> (
        fm2 == fm && full2 == full.drop_last()
        && empty2.len() == empty.len() + 1 && empty2.drop_last() == empty
        && empty2.last().magazine@ == Seq::<usize>::empty()
        && empty2.last().next == full.last().next
        && (full.last().magazine@.len() > 0 ==> am2 == full.last().magazine@.drop_last())
        && (full.last().magazine@.len() == 0 ==> am2 == full.last().magazine@))
    &&& am.len() == 0 && fm.len() == 0 && full.len() == 0 ==> am2 == am && fm2 == fm && full2 == full && empty2 == empty
    &&& forall|d: int| 0 <= d < NUM_SIZE_CLASSES && d != class ==> #[trigger] tc2.alloc_view(d) == tc.alloc_view(d)
        && tc2.free_view(d) == tc.free_view(d)
    &&& forall|d: int| 0 <= d < 13 && d != class ==> #[trigger] gp2.pools@[d] == gp.pools@[d]
}

/// The thread cache: an allocation magazine and a free magazine per class,
/// and the thread's counters.
pub struct ThreadCache {
    alloc_mags: Vec<Magazine>,
    free_mags: Vec<Magazine>,
    pub metrics: ThreadMetrics,
}

impl ThreadCache {
    pub closed spec fn wf(&self) -> bool {
        &&& self.alloc_mags@.len() == NUM_SIZE_CLASSES
        &&& self.free_mags@.len() == NUM_SIZE_CLASSES
        &&& forall|c: int| 0 <= c < NUM_SIZE_CLASSES ==> (#[trigger] self.alloc_mags@[c]).wf()
        &&& forall|c: int| 0 <= c < NUM_SIZE_CLASSES ==> (#[trigger] self.free_mags@[c]).wf()
    }

    /// The thread's counters.
    pub closed spec fn thread_metrics(&self) -> ThreadMetrics {
        self.metrics
    }

    /// The blocks of the allocation magazine of class `c`.
    pub closed spec fn alloc_view(&self, c: int) -> Seq<usize> {
        self.alloc_mags@[c]@
    }

    /// The blocks of the free magazine of class `c`.
    pub closed spec fn free_view(&self, c: int) -> Seq<usize> {
        self.free_mags@[c]@
    }

    pub fn new() -> (t: Self)
        ensures
            t.wf(),
            t.thread_metrics() == crate::metrics::zero_thread_metrics(),
            forall|c: int| 0 <= c < NUM_SIZE_CLASSES ==> #[trigger] t.alloc_view(c) == Seq::<usize>::empty()
                && t.free_view(c) == Seq::<usize>::empty(),
    {
        let mut alloc_mags: Vec<Magazine> = Vec::new();
        let mut free_mags: Vec<Magazine> = Vec::new();
        let mut i: usize = 0;
        while i < NUM_SIZE_CLASSES
            invariant
                alloc_mags@.len() == i,
                free_mags@.len() == i,
                i <= NUM_SIZE_CLASSES,
                forall|c: int| 0 <= c < i ==> (#[trigger] alloc_mags@[c]).wf() && alloc_mags@[c]@ == Seq::<usize>::empty(),
                forall|c: int| 0 <= c < i ==> (#[trigger] free_mags@[c]).wf() && free_mags@[c]@ == Seq::<usize>::empty(),
            decreases NUM_SIZE_CLASSES - i,
        {
            alloc_mags.push(Magazine::new());
            free_mags.push(Magazine::new());
            i = i + 1;
        }
        Self { alloc_mags, free_mags, metrics: ThreadMetrics::new() }
    }

    /// A cached block of class `class`: from the allocation magazine; else
    /// from the free magazine, after swapping the two; else from a full
    /// magazine taken from the global pool, which becomes the allocation
    /// magazine while the (empty) allocation magazine goes back to the
    /// pool's empty stack.
    pub fn take_block(&mut self, class: usize, pools: &mut GlobalMagazinePools) -> (r: Option<usize>)
        requires
            old(self).wf(),
            old(pools).wf(),
            class < 13,
        ensures
            final(self).wf(),
            final(pools).wf(),
            r == take_result(old(self).alloc_view(class as int), old(self).free_view(class as int),
                old(pools).pools@[class as int].full_view()),
            took(class as int, *old(self), *old(pools), *final(self), *final(pools)),
            final(self).thread_metrics() == old(self).thread_metrics(),
    {
        let ghost old_alloc = self.alloc_mags@;
        let ghost old_free = self.free_mags@;
        if let Some(block) = self.alloc_mags[class].pop() {
            assert(self.free_mags@ == old_free);
            return Some(block);
        }
        if !self.free_mags[class].is_empty() {
            let mut a = Magazine::new();
            let mut f = Magazine::new();
            std::mem::swap(&mut a, &mut self.alloc_mags[class]);
            std::mem::swap(&mut f, &mut self.free_mags[class]);
            self.alloc_mags.set(class, f);
            self.free_mags.set(class, a);
            let r = self.alloc_mags[class].pop();
            return r;
        }
        match pools.pools[class].pop_full() {
            Some(node) => {
                let mut node = node;
                let mut a = Magazine::new();
                std::mem::swap(&mut a, &mut self.alloc_mags[class]);
                self.alloc_mags.set(class, node.magazine);
                let mut cleared = a;
                cleared.clear();
                let ghost empty_before = pools.pools@[class as int].empty_view();
                pools.pools[class].push_empty(MagazineNode { next: node.next, magazine: cleared });
                assert(pools.pools@[class as int].empty_view().drop_last() =~= empty_before);
                self.alloc_mags[class].pop()
            },
            None => None,
        }
    }
}

/// Blocks that carving a page into blocks of `block_size` bytes adds to the
/// magazine: all but the first.
pub open spec fn carve_count(block_size: nat) -> nat {
    if PAGE_SIZE as nat / block_size > 1 {
        (PAGE_SIZE as nat / block_size - 1) as nat
    } else {
        0
    }
}

impl ThreadCache {
    /// Fills the allocation magazine of class `class` from a fresh page at
    /// `base`, split into blocks of `block_size` bytes: every block but the
    /// first (which the caller keeps), as many as fit in the magazine.
    pub fn carve_page(&mut self, class: usize, base: usize, block_size: usize)
        requires
            old(self).wf(),
            class < NUM_SIZE_CLASSES,
            block_size >= 1,
            base + PAGE_SIZE <= usize::MAX,
        ensures
            final(self).wf(),
            final(self).thread_metrics() == old(self).thread_metrics(),
            final(self).alloc_view(class as int) == old(self).alloc_view(class as int) + Seq::new(
                vstd::math::min(carve_count(block_size as nat) as int, MAGAZINE_CAPACITY - old(self).alloc_view(class as int).len()) as nat,
                |i: int| (base + block_size + i * block_size) as usize,
            ),
            forall|d: int| 0 <= d < NUM_SIZE_CLASSES && d != class ==> #[trigger] final(self).alloc_view(d) == old(self).alloc_view(d),
            forall|d: int| 0 <= d < NUM_SIZE_CLASSES ==> #[trigger] final(self).free_view(d) == old(self).free_view(d),
    {
        let blocks_per_page = PAGE_SIZE / block_size;
        let remaining = if blocks_per_page > 1 {
            blocks_per_page - 1
        } else {
            0
        };
        let ghost old_count = self.alloc_mags@[class as int].count;
        proof {
            if remaining > 0 {
                assert(blocks_per_page * block_size <= PAGE_SIZE) by (nonlinear_arith)
                    requires
                        blocks_per_page == PAGE_SIZE / block_size,
                        block_size >= 1,
                ;
                assert(block_size + (remaining - 1) * block_size == blocks_per_page * block_size - block_size) by (nonlinear_arith)
                    requires
                        remaining == blocks_per_page - 1,
                        remaining > 0,
                ;
            }
        }
        if remaining > 0 {
            self.alloc_mags[class].bulk_init(base + block_size, block_size, remaining);
        }
        proof {
            assert(old(self).alloc_view(class as int).len() == old_count);
            if remaining == 0 {
                assert(self.alloc_view(class as int) =~= old(self).alloc_view(class as int) + Seq::new(
                    0, |i: int| (base + block_size + i * block_size) as usize));
            }
        }
    }
}

/// `tm` after counting a cache hit (an allocation served from a magazine).
pub open spec fn count_hit(tm: ThreadMetrics) -> ThreadMetrics {
    ThreadMetrics { cache_hits: (tm.cache_hits + 1) as usize, allocs: (tm.allocs + 1) as usize, ..tm }
}

/// `tm` after counting a cache miss.
pub open spec fn count_miss(tm: ThreadMetrics) -> ThreadMetrics {
    ThreadMetrics { cache_misses: (tm.cache_misses + 1) as usize, allocs: (tm.allocs + 1) as usize, ..tm }
}

/// `tm` after counting a direct (large) allocation.
pub open spec fn count_direct(tm: ThreadMetrics) -> ThreadMetrics {
    ThreadMetrics { direct_allocs: (tm.direct_allocs + 1) as usize, allocs: (tm.allocs + 1) as usize, ..tm }
}

/// `tm` after counting a free.
pub open spec fn count_free(tm: ThreadMetrics) -> ThreadMetrics {
    ThreadMetrics { frees: (tm.frees + 1) as usize, ..tm }
}

/// The counters can take two more counts without overflowing.
pub open spec fn counters_have_room(tm: ThreadMetrics) -> bool {
    tm.allocs + tm.frees + tm.cache_hits + tm.cache_misses + tm.direct_allocs + 2 <= usize::MAX
}

/// The support-core entry that reports a thread's flushed counts.
pub open spec fn stats_entry(thread_id: u64, allocs: u64, frees: u64) -> RingEntry {
    RingEntry {
        command: RingCommand::StatsReport,
        payload: RingPayload::Stats(StatsReportPayload { thread_id, allocs, frees }),
    }
}

/// The support-core entry that reports a freed block.
pub open spec fn free_block_entry(ptr: usize, size: usize, size_class: u8) -> RingEntry {
    RingEntry {
        command: RingCommand::FreeBlock,
        payload: RingPayload::FreeBlock(FreeBlockPayload { ptr, size, size_class }),
    }
}

/// `ring` after offering `entry`: appended when there is room, unchanged
/// otherwise.
pub open spec fn offered(ring: Seq<RingEntry>, entry: RingEntry) -> Seq<RingEntry> {
    if ring.len() < AMO_RING_CAPACITY - 1 {
        ring.push(entry)
    } else {
        ring
    }
}

/// Push a FreeBlock command to the AMO ring buffer; dropped when the ring is
/// full.
pub fn amo_push_free_block(ring: &mut RingBuffer<AMO_RING_CAPACITY>, ptr: usize, size: usize, size_class: u8)
    requires
        old(ring).wf(),
    ensures
        final(ring).wf(),
        final(ring)@ == offered(old(ring)@, free_block_entry(ptr, size, size_class)),
{
    let payload = RingPayload::FreeBlock(FreeBlockPayload { ptr, size, size_class });
    let entry = RingEntry::new(RingCommand::FreeBlock, payload);
    let _ = ring.try_push(entry);
}

/// Push a batch of `count` freed blocks starting at `ptr` as one FreeBlock
/// command (the count in the class field, truncated to a byte); dropped
/// when the ring is full.
pub fn amo_push_free_batch(ring: &mut RingBuffer<AMO_RING_CAPACITY>, ptr: usize, count: u32)
    requires
        old(ring).wf(),
    ensures
        final(ring).wf(),
        final(ring)@ == offered(old(ring)@, free_block_entry(ptr, 0, count as u8)),
{
    amo_push_free_block(ring, ptr, 0, count as u8);
}

/// Push a StatsReport command to the AMO ring buffer; dropped when the ring
/// is full.
pub fn amo_push_stats(ring: &mut RingBuffer<AMO_RING_CAPACITY>, thread_id: u64, allocs: u64, frees: u64)
    requires
        old(ring).wf(),
    ensures
        final(ring).wf(),
        final(ring)@ == offered(old(ring)@, stats_entry(thread_id, allocs, frees)),
{
    let payload = RingPayload::Stats(StatsReportPayload { thread_id, allocs, frees });
    let entry = RingEntry::new(RingCommand::StatsReport, payload);
    let _ = ring.try_push(entry);
}

/// What the caller does next for an allocation.
#[derive(Debug, Clone, Copy, PartialEq, Eq, Structural)]
pub enum AllocStep {
    /// Return a null pointer.
    Null,
    /// Write the requested size into the first word of `block` and return
    /// `block + CACHE_HEADER_SIZE`.
    Block { block: usize },
    /// Map one page; on success call `carve_page`, on failure map
    /// `single_block_pages(cache_size)` pages for a lone block.
    MapForCarve { class: usize, cache_size: usize },
    /// Map `pages` pages for a lone block; on success use their base as the
    /// block (as for `Block`); on failure return null.
    MapPages { pages: usize },
    /// Map `pages` pages for a large allocation; on success write the
    /// headers of `large_headers` and return `large_user_addr`; on failure
    /// return null.
    MapLarge { pages: usize },
}

/// Pages for a lone block of a class of `cache_size` bytes.
pub open spec fn lone_block_pages(cache_size: nat) -> nat {
    vstd::math::max(pages_for((cache_size + CACHE_HEADER_SIZE) as nat) as int, 1) as nat
}

/// The alignment that a large allocation gets: the requested one, but at
/// least 16, so that every address handed out is 16-byte aligned.
pub open spec fn large_align(align: nat) -> nat {
    if align < 16 {
        16
    } else {
        align
    }
}

/// `large_align(align)`.
pub fn large_alignment(align: usize) -> (r: usize)
    ensures
        r == large_align(align as nat),
{
    if align < 16 {
        16
    } else {
        align
    }
}

/// Pages for a large allocation of `size` bytes aligned to `align`: room
/// for both headers, the bytes and the padding up to `large_align(align)`.
pub open spec fn large_pages(size: nat, align: nat) -> nat {
    vstd::math::max(pages_for((PAGE_HEADER_SIZE + LARGE_HEADER_SIZE + size + large_align(align)) as nat) as int, 1) as nat
}

/// Pages for a lone block of a class of `cache_size` bytes.
pub fn single_block_pages(cache_size: usize) -> (r: usize)
    requires
        cache_size + CACHE_HEADER_SIZE <= usize::MAX,
    ensures
        r == lone_block_pages(cache_size as nat),
{
    let pages = div_ceil_pages(cache_size + CACHE_HEADER_SIZE);
    if pages > 1 {
        pages
    } else {
        1
    }
}

/// The address handed out for the cached or lone block at `block`: just
/// past the header word; a multiple of 16 whenever the block is (a lone
/// block starts a fresh page, a cached block is one while the caches are
/// `cache_aligned`).
pub fn cached_user_addr(block: usize) -> (r: usize)
    requires
        block + CACHE_HEADER_SIZE <= usize::MAX,
    ensures
        r == block + CACHE_HEADER_SIZE,
        block % 16 == 0 ==> r % 16 == 0,
{
    block + CACHE_HEADER_SIZE
}

/// The headers of a large allocation of `size` bytes over `pages` pages at
/// `base`: the page header (the page count truncated to 32 bits) and the
/// large-allocation header that points back at `base`.
pub fn large_headers(base: usize, pages: usize, size: usize) -> (r: (PageHeader, LargeAllocHeader))
    ensures
        r.0 == (PageHeader { magic: MAGIC, num_pages: pages as u32, requested_size: size, tag: 0 }),
        r.1 == (LargeAllocHeader { magic: LARGE_MAGIC, base_ptr: base }),
{
    (
        PageHeader { magic: MAGIC, num_pages: pages as u32, requested_size: size, tag: 0 },
        LargeAllocHeader { magic: LARGE_MAGIC, base_ptr: base },
    )
}

/// The address handed out for a large allocation at `base` aligned to
/// `align`: past both headers, rounded up to `large_align(align)`. For an
/// alignment that is a power of two (or below 16) the address is a
/// multiple of 16, and of a power-of-two `align`.
pub fn large_user_addr(base: usize, align: usize) -> (r: usize)
    requires
        align >= 1,
        base + PAGE_HEADER_SIZE + LARGE_HEADER_SIZE + large_align(align as nat) - 1 <= usize::MAX,
    ensures
        base + PAGE_HEADER_SIZE + LARGE_HEADER_SIZE <= r < base + PAGE_HEADER_SIZE + LARGE_HEADER_SIZE + large_align(align as nat),
        r & ((large_align(align as nat) - 1) as usize) == 0,
        align < 16 || align & ((align - 1) as usize) == 0 ==> r % 16 == 0,
        align & ((align - 1) as usize) == 0 ==> r & ((align - 1) as usize) == 0,
{
    let a = large_alignment(align);
    let r = AethAlloc::align_up(base + PAGE_HEADER_SIZE + LARGE_HEADER_SIZE, a);
    proof {
        let am = (a - 1) as usize;
        let alm = (align - 1) as usize;
        if align < 16 {
            assert(a == 16);
            assert(r & am == 0usize && am == 15usize ==> r % 16 == 0) by (bit_vector);
            assert(r & am == 0usize && am == 15usize && align >= 1usize && align < 16usize && alm + 1 == align
                && align & alm == 0usize ==> r & alm == 0usize) by (bit_vector);
        } else if align & alm == 0 {
            assert(a == align);
            assert(r & alm == 0usize && align >= 16usize && alm + 1 == align && align & alm == 0usize
                ==> r & 15usize == 0usize) by (bit_vector);
            assert(r & 15usize == 0usize ==> r % 16 == 0) by (bit_vector);
        }
    }
    r
}

/// How a freed pointer's header word (the word 16 bytes before it) marks it.
#[derive(Debug, Clone, Copy, PartialEq, Eq, Structural)]
pub enum HeaderKind {
    /// A large allocation: the word starts a `LargeAllocHeader`.
    Large,
    /// A cached block of this requested size.
    Cached(usize),
    /// Neither: look for a page header at the start of the pointer's page.
    Other,
}

/// The kind that `classify_header` gives the header word `word`.
pub open spec fn header_kind(word: usize) -> HeaderKind {
    if word as u32 == LARGE_MAGIC {
        HeaderKind::Large
    } else if 0 < word <= MAX_CACHE_SIZE && word as u32 != MAGIC {
        HeaderKind::Cached(word)
    } else {
        HeaderKind::Other
    }
}

/// Classifies a pointer by the word 16 bytes before it: a large-allocation
/// magic in its low 32 bits marks a large allocation; a size of at most
/// `MAX_CACHE_SIZE` whose low 32 bits are not the page magic marks a cached
/// block.
pub fn classify_header(word: usize) -> (r: HeaderKind)
    ensures
        r == header_kind(word),
{
    if word as u32 == LARGE_MAGIC {
        return HeaderKind::Large;
    }
    if word > 0 && word <= MAX_CACHE_SIZE && word as u32 != MAGIC {
        return HeaderKind::Cached(word);
    }
    HeaderKind::Other
}

/// The pages to unmap for a page header with `magic` and `num_pages`: its
/// page count when the magic is right and the count nonzero.
pub fn pages_to_release(magic: u32, num_pages: u32) -> (r: Option<usize>)
    ensures
        r == (if magic == MAGIC && num_pages > 0 { Some(num_pages as usize) } else { None::<usize> }),
{
    if magic == MAGIC && num_pages > 0 {
        Some(num_pages as usize)
    } else {
        None
    }
}

/// The requested size that a page header with `magic` records (0 when the
/// magic is wrong).
pub fn recorded_size(magic: u32, requested_size: usize) -> (r: usize)
    ensures
        r == (if magic == MAGIC { requested_size } else { 0 }),
{
    if magic == MAGIC {
        requested_size
    } else {
        0
    }
}

/// The class reported for a freed block of `alloc_size` bytes (class 0 when
/// the size has none).
pub fn free_block_class(alloc_size: usize) -> (r: u8)
    requires
        alloc_size <= MAX_POW2_REQUEST,
    ensures
        r == (match class_for(alloc_size as nat) {
            Some(c) => c as u8,
            None => 0u8,
        }),
{
    let rounded = round_up_pow2(alloc_size);
    let cache_size = if rounded < 16 {
        16
    } else {
        rounded
    };
    proof {
        lemma_class_of_rounded(alloc_size as nat);
    }
    if cache_size > MAX_CACHE_SIZE {
        proof {
            lemma2_to64();
            crate::size_class::lemma_next_pow2_covers(cache_size as nat);
            if ceil_log2(cache_size as nat) <= 16 {
                vstd::arithmetic::power2::lemma_pow2_strictly_increases(ceil_log2(cache_size as nat), 17);
                lemma_ceil_log2_least(cache_size as nat, 16);
            }
        }
        return 0;
    }
    match size_to_class(cache_size) {
        Some(c) => c as u8,
        None => 0,
    }
}

/// The class of a size rounded up to a power of two (at least 16) is the
/// class of the size.
proof fn lemma_class_of_rounded(size: nat)
    requires
        size <= MAX_POW2_REQUEST,
    ensures
        class_for(vstd::math::max(next_pow2(size) as int, 16) as nat) == class_for(size),
{
    lemma2_to64();
    lemma_next_pow2_is_least(size);
    let c = ceil_log2(size);
    let m = vstd::math::max(next_pow2(size) as int, 16) as nat;
    if c <= 4 {
        if c < 4 {
            lemma_pow2_strictly_increases(c, 4);
        }
        lemma_ceil_log2_least(m, 4);
    } else {
        lemma_pow2_strictly_increases(4, c);
        lemma_ceil_log2_least(m, c);
        crate::size_class::lemma_next_pow2_covers(m);
        if ceil_log2(m) < c {
            vstd::arithmetic::power2::lemma_pow2_strictly_increases(ceil_log2(m), c);
        }
    }
}

/// What all threads share: the global magazine pools, the allocator of
/// magazine nodes, the global free lists of the simple caching mode, the
/// global counters and the support core's ring.
pub struct SharedState {
    pub magazines: GlobalMagazinePools,
    pub metadata: MetadataAllocator,
    pub free_lists: GlobalFreeLists,
    pub metrics: GlobalMetrics,
    pub ring: RingBuffer<AMO_RING_CAPACITY>,
}

impl SharedState {
    pub open spec fn wf(&self) -> bool {
        &&& self.magazines.wf()
        &&& self.metadata.wf()
        &&& self.free_lists.wf()
        &&& self.ring.wf()
    }

    pub fn new() -> (s: Self)
        ensures
            s.wf(),
            s.ring@ == Seq::<RingEntry>::empty(),
            snapshot_of(s.metrics) == (MetricsSnapshot { allocs: 0, frees: 0, cache_hits: 0, cache_misses: 0, direct_allocs: 0 }),
            s.metadata.used() == crate::magazine::PAGE_SIZE,
            forall|c: int| 0 <= c < crate::magazine::NUM_SIZE_CLASSES ==> (#[trigger] s.magazines.pools@[c]).full_view().len() == 0
                && s.magazines.pools@[c].empty_view().len() == 0,
            forall|c: int| 0 <= c < NUM_SIZE_CLASSES ==> #[trigger] s.free_lists.list_view(c) == Seq::<usize>::empty(),
    {
        proof {
            lemma2_to64();
            assert(pow2(10) == AMO_RING_CAPACITY);
        }
        Self {
            magazines: GlobalMagazinePools::new(),
            metadata: MetadataAllocator::new(),
            free_lists: GlobalFreeLists::new(),
            metrics: GlobalMetrics::new(),
            ring: RingBuffer::new(),
        }
    }
}

/// The thread counters `tm` are due for a flush.
pub open spec fn flush_due(tm: ThreadMetrics) -> bool {
    tm.allocs + tm.frees >= METRICS_FLUSH_THRESHOLD
}

/// The thread counters after a flush check of `tm`: reset when due.
pub open spec fn flushed_metrics(tm: ThreadMetrics) -> ThreadMetrics {
    if flush_due(tm) {
        zero_thread_metrics()
    } else {
        tm
    }
}

/// The global counters `g` after a flush check of `tm`: the thread counts
/// added in when due.
pub open spec fn flushed_global(g: MetricsSnapshot, tm: ThreadMetrics) -> MetricsSnapshot {
    if flush_due(tm) {
        flushed_into(g, tm)
    } else {
        g
    }
}

/// The ring after a flush check of `tm` on thread `thread_id`: when due, the
/// flushed allocation and free counts are offered to the support core.
pub open spec fn flushed_ring(ring: Seq<RingEntry>, tm: ThreadMetrics, thread_id: u64) -> Seq<RingEntry> {
    if flush_due(tm) {
        offered(ring, stats_entry(thread_id, tm.allocs as u64, tm.frees as u64))
    } else {
        ring
    }
}

/// Flush check of the thread counters `metrics` on thread `thread_id`: once
/// `METRICS_FLUSH_THRESHOLD` allocations and frees have been counted, they
/// are added into the global counters, reported to the support core and
/// reset.
pub fn maybe_flush_metrics(metrics: &mut ThreadMetrics, shared: &mut SharedState, thread_id: u64)
    requires
        old(shared).wf(),
        old(metrics).allocs + old(metrics).frees <= usize::MAX,
    ensures
        final(shared).wf(),
        final(shared).magazines == old(shared).magazines,
        final(shared).metadata == old(shared).metadata,
        final(shared).free_lists == old(shared).free_lists,
        *final(metrics) == flushed_metrics(*old(metrics)),
        snapshot_of(final(shared).metrics) == flushed_global(snapshot_of(old(shared).metrics), *old(metrics)),
        final(shared).ring@ == flushed_ring(old(shared).ring@, *old(metrics), thread_id),
{
    match metrics.maybe_flush(&mut shared.metrics) {
        Some((allocs, frees)) => amo_push_stats(&mut shared.ring, thread_id, allocs, frees),
        None => {},
    }
}

/// Requests served from the magazines: nonzero, at most `MAX_CACHE_SIZE`
/// bytes, aligned to at most eight.
pub open spec fn cacheable(size: usize, align: usize) -> bool {
    0 < size <= MAX_CACHE_SIZE && align <= 8
}

/// The rounded size of the blocks that serve a request of `size` bytes: a
/// power of two, at least 16.
pub open spec fn cache_size_of(size: nat) -> nat {
    vstd::math::max(next_pow2(size) as int, 16) as nat
}

/// The step for a cacheable request of `size` bytes that no magazine could
/// serve: carve a fresh page when more than one block fits in it, else map
/// pages for a lone block.
pub open spec fn miss_step(size: nat) -> AllocStep {
    let cs = cache_size_of(size);
    if PAGE_SIZE as int / (cs + CACHE_HEADER_SIZE) > 1 {
        AllocStep::MapForCarve { class: class_for(size).unwrap(), cache_size: cs as usize }
    } else {
        AllocStep::MapPages { pages: lone_block_pages(cs) as usize }
    }
}

/// The magazines of `tc2` hold what those of `tc` hold.
pub open spec fn same_magazines(tc: ThreadCache, tc2: ThreadCache) -> bool {
    forall|d: int| 0 <= d < NUM_SIZE_CLASSES ==> #[trigger] tc2.alloc_view(d) == tc.alloc_view(d)
        && tc2.free_view(d) == tc.free_view(d)
}

/// The block that a magazine hands out for a cacheable request of `size`
/// bytes, if any.
pub open spec fn cached_block(size: usize, tc: ThreadCache, s: SharedState) -> Option<usize> {
    let c = class_for(size as nat).unwrap() as int;
    take_result(tc.alloc_view(c), tc.free_view(c), s.magazines.pools@[c].full_view())
}

/// The first step of an allocation of `size` bytes aligned to `align` on
/// thread `thread_id`, with the thread cache `cache` and the shared state
/// `shared`.
///
/// A size of zero gets a null pointer. A cacheable request takes a block
/// from the magazines of its class (see `take_block`): on success it counts
/// a cache hit and an allocation, runs the flush check and hands out the
/// block; otherwise it counts a miss and an allocation and asks for pages
/// (`miss_step`). Any other request counts a direct allocation and an
/// allocation, runs the flush check and asks for `large_pages` pages.
pub fn alloc_step(cache: &mut ThreadCache, shared: &mut SharedState, size: usize, align: usize, thread_id: u64) -> (r: AllocStep)
    requires
        old(cache).wf(),
        old(shared).wf(),
        counters_have_room(old(cache).thread_metrics()),
        size + large_align(align as nat) + PAGE_HEADER_SIZE + LARGE_HEADER_SIZE <= usize::MAX,
    ensures
        final(cache).wf(),
        final(shared).wf(),
        final(shared).metadata == old(shared).metadata,
        size == 0 ==> r == AllocStep::Null && *final(cache) == *old(cache) && *final(shared) == *old(shared),
        cacheable(size, align) ==> took(class_for(size as nat).unwrap() as int, *old(cache), old(shared).magazines,
            *final(cache), final(shared).magazines),
        cacheable(size, align) && cached_block(size, *old(cache), *old(shared)) is Some ==> (
            r == AllocStep::Block { block: cached_block(size, *old(cache), *old(shared)).unwrap() }
            && final(cache).thread_metrics() == flushed_metrics(count_hit(old(cache).thread_metrics()))
            && snapshot_of(final(shared).metrics) == flushed_global(snapshot_of(old(shared).metrics), count_hit(old(cache).thread_metrics()))
            && final(shared).ring@ == flushed_ring(old(shared).ring@, count_hit(old(cache).thread_metrics()), thread_id)),
        cacheable(size, align) && cached_block(size, *old(cache), *old(shared)) is None ==> (
            r == miss_step(size as nat)
            && final(cache).thread_metrics() == count_miss(old(cache).thread_metrics())
            && final(shared).metrics == old(shared).metrics
            && final(shared).ring@ == old(shared).ring@),
        size > 0 && !cacheable(size, align) ==> (
            r == AllocStep::MapLarge { pages: large_pages(size as nat, align as nat) as usize }
            && same_magazines(*old(cache), *final(cache))
            && final(shared).magazines == old(shared).magazines
            && final(cache).thread_metrics() == flushed_metrics(count_direct(old(cache).thread_metrics()))
            && snapshot_of(final(shared).metrics) == flushed_global(snapshot_of(old(shared).metrics), count_direct(old(cache).thread_metrics()))
            && final(shared).ring@ == flushed_ring(old(shared).ring@, count_direct(old(cache).thread_metrics()), thread_id)),
        cache_aligned(*old(cache), old(shared).magazines) ==> cache_aligned(*final(cache), final(shared).magazines)
            && (r matches AllocStep::Block { block } ==> block % 16 == 0),
{
    if size == 0 {
        return AllocStep::Null;
    }
    if size <= MAX_CACHE_SIZE && align <= 8 {
        let rounded = round_up_pow2(size);
        let cache_size = if rounded < 16 {
            16
        } else {
            rounded
        };
        proof {
            lemma_class_of_rounded(size as nat);
            lemma2_to64();
            lemma_next_pow2_is_least(size as nat);
        }
        let class = match size_to_class(cache_size) {
            Some(c) => c,
            None => {
                proof {
                    lemma_cacheable_has_class(size as nat);
                }
                return AllocStep::Null;
            },
        };
        proof {
            lemma_cacheable_has_class(size as nat);
        }
        let taken = cache.take_block(class, &mut shared.magazines);
        let ghost tc1 = *cache;
        let ghost gp1 = shared.magazines;
        match taken {
            Some(block) => {
                cache.metrics.record_cache_hit();
                cache.metrics.record_alloc();
                maybe_flush_metrics(&mut cache.metrics, shared, thread_id);
                proof {
                    assert(same_magazines(tc1, *cache));
                    lemma_took_then_same(class as int, *old(cache), old(shared).magazines, tc1, gp1, *cache, shared.magazines);
                    if cache_aligned(*old(cache), old(shared).magazines) {
                        lemma_take_keeps_alignment(class as int, *old(cache), old(shared).magazines, *cache, shared.magazines);
                    }
                }
                return AllocStep::Block { block };
            },
            None => {
                cache.metrics.record_cache_miss();
                cache.metrics.record_alloc();
                proof {
                    assert(same_magazines(tc1, *cache));
                    lemma_took_then_same(class as int, *old(cache), old(shared).magazines, tc1, gp1, *cache, shared.magazines);
                    if cache_aligned(*old(cache), old(shared).magazines) {
                        lemma_take_keeps_alignment(class as int, *old(cache), old(shared).magazines, *cache, shared.magazines);
                    }
                }
                let block_size = cache_size + CACHE_HEADER_SIZE;
                let blocks_per_page = PAGE_SIZE / block_size;
                if blocks_per_page > 1 {
                    return AllocStep::MapForCarve { class, cache_size };
                }
                return AllocStep::MapPages { pages: single_block_pages(cache_size) };
            },
        }
    }
    cache.metrics.record_direct_alloc();
    cache.metrics.record_alloc();
    maybe_flush_metrics(&mut cache.metrics, shared, thread_id);
    proof {
        assert(same_magazines(*old(cache), *cache));
        if cache_aligned(*old(cache), old(shared).magazines) {
            lemma_same_magazines_keep_alignment(*old(cache), old(shared).magazines, *cache);
        }
    }
    AllocStep::MapLarge { pages: large_page_count(size, align) }
}

/// Pages for a large allocation of `size` bytes aligned to `align`.
pub fn large_page_count(size: usize, align: usize) -> (r: usize)
    requires
        size + large_align(align as nat) + PAGE_HEADER_SIZE + LARGE_HEADER_SIZE <= usize::MAX,
    ensures
        r == large_pages(size as nat, align as nat),
{
    let pages = div_ceil_pages(PAGE_HEADER_SIZE + LARGE_HEADER_SIZE + size + large_alignment(align));
    if pages > 1 {
        pages
    } else {
        1
    }
}

/// A take followed by changes outside the magazines is still that take.
proof fn lemma_took_then_same(class: int, tc: ThreadCache, gp: GlobalMagazinePools, tc1: ThreadCache,
    gp1: GlobalMagazinePools, tc2: ThreadCache, gp2: GlobalMagazinePools)
    requires
        0 <= class < 13,
        took(class, tc, gp, tc1, gp1),
        same_magazines(tc1, tc2),
        gp2 == gp1,
    ensures
        took(class, tc, gp, tc2, gp2),
{
    assert(tc2.alloc_view(class) == tc1.alloc_view(class));
    assert(tc2.free_view(class) == tc1.free_view(class));
}

/// A cacheable size has a class, and the class of its rounded size is its
/// own.
pub(crate) proof fn lemma_cacheable_has_class(size: nat)
    requires
        0 < size <= MAX_CACHE_SIZE,
    ensures
        class_for(size) is Some,
        class_for(size).unwrap() < 13,
        class_for(cache_size_of(size)) == class_for(size),
        cache_size_of(size) <= MAX_CACHE_SIZE,
        cache_size_of(size) >= 16,
{
    lemma2_to64();
    lemma_next_pow2_is_least(size);
    lemma_class_of_rounded(size);
    crate::size_class::lemma_next_pow2_covers(size);
    if ceil_log2(size) > 16 {
        lemma_ceil_log2_least(size, 16);
    }
    if next_pow2(size) > 65536 {
        lemma_ceil_log2_least(size, 16);
        if ceil_log2(size) < 16 {
            lemma_pow2_strictly_increases(ceil_log2(size), 16);
        }
    }
}

/// After the page asked for by `MapForCarve { class, cache_size }` was
/// mapped at `base`: the allocation magazine of `class` takes the page's
/// other blocks of `cache_size + CACHE_HEADER_SIZE` bytes, then the counters
/// get a flush check. The caller writes the requested size into the first
/// word at `base` and returns `base + CACHE_HEADER_SIZE`.
pub fn carve_mapped(cache: &mut ThreadCache, shared: &mut SharedState, class: usize, cache_size: usize, base: usize, thread_id: u64)
    requires
        old(cache).wf(),
        old(shared).wf(),
        class < NUM_SIZE_CLASSES,
        cache_size <= MAX_CACHE_SIZE,
        base + PAGE_SIZE <= usize::MAX,
        old(cache).thread_metrics().allocs + old(cache).thread_metrics().frees <= usize::MAX,
    ensures
        final(cache).wf(),
        final(shared).wf(),
        final(shared).magazines == old(shared).magazines,
        final(shared).metadata == old(shared).metadata,
        final(cache).alloc_view(class as int) == old(cache).alloc_view(class as int) + Seq::new(
            vstd::math::min(carve_count((cache_size + CACHE_HEADER_SIZE) as nat) as int,
                MAGAZINE_CAPACITY - old(cache).alloc_view(class as int).len()) as nat,
            |i: int| (base + (cache_size + CACHE_HEADER_SIZE) + i * (cache_size + CACHE_HEADER_SIZE)) as usize,
        ),
        forall|d: int| 0 <= d < NUM_SIZE_CLASSES && d != class ==> #[trigger] final(cache).alloc_view(d) == old(cache).alloc_view(d),
        forall|d: int| 0 <= d < NUM_SIZE_CLASSES ==> #[trigger] final(cache).free_view(d) == old(cache).free_view(d),
        base % 16 == 0 && cache_size % 16 == 0 ==> forall|j: int|
            old(cache).alloc_view(class as int).len() <= j < final(cache).alloc_view(class as int).len()
            ==> #[trigger] final(cache).alloc_view(class as int)[j] % 16 == 0,
        final(cache).thread_metrics() == flushed_metrics(old(cache).thread_metrics()),
        snapshot_of(final(shared).metrics) == flushed_global(snapshot_of(old(shared).metrics), old(cache).thread_metrics()),
        final(shared).ring@ == flushed_ring(old(shared).ring@, old(cache).thread_metrics(), thread_id),
        cache_aligned(*old(cache), old(shared).magazines) && base % 16 == 0 && cache_size % 16 == 0
            ==> cache_aligned(*final(cache), final(shared).magazines),
{
    cache.carve_page(class, base, cache_size + CACHE_HEADER_SIZE);
    let ghost tc1 = *cache;
    maybe_flush_metrics(&mut cache.metrics, shared, thread_id);
    proof {
        assert(same_magazines(tc1, *cache));
        assert(cache.alloc_view(class as int) == tc1.alloc_view(class as int));
        assert forall|d: int| 0 <= d < NUM_SIZE_CLASSES implies #[trigger] cache.free_view(d) == old(cache).free_view(d) by {
            assert(cache.alloc_view(d) == tc1.alloc_view(d));
        }
        let bs = (cache_size + CACHE_HEADER_SIZE) as int;
        let n0 = old(cache).alloc_view(class as int).len();
        if base % 16 == 0 && cache_size % 16 == 0 {
            assert forall|j: int| n0 <= j < cache.alloc_view(class as int).len()
                implies #[trigger] cache.alloc_view(class as int)[j] % 16 == 0 by {
                let i = j - n0;
                assert(i < carve_count(bs as nat));
                assert(bs + i * bs <= PAGE_SIZE) by (nonlinear_arith)
                    requires
                        0 <= i < carve_count(bs as nat),
                        carve_count(bs as nat) == (if PAGE_SIZE as nat / bs as nat > 1 { (PAGE_SIZE as nat / bs as nat - 1) as nat } else { 0 }),
                        bs >= 1,
                ;
                let q = base as int / 16;
                let m = bs / 16;
                assert(i * bs == 16 * (m * i)) by (nonlinear_arith)
                    requires
                        bs == 16 * m,
                ;
                assert(base + bs + i * bs == (q + m + m * i) * 16);
                vstd::arithmetic::div_mod::lemma_mod_multiples_basic(q + m + m * i, 16);
            }
            if cache_aligned(*old(cache), old(shared).magazines) {
                lemma_carve_keeps_alignment(class as int, base, (cache_size + CACHE_HEADER_SIZE) as usize, *old(cache),
                    old(shared).magazines, *cache);
            }
        }
    }
}

/// What the caller does next when freeing a cached block.
#[derive(Debug, Clone, Copy, PartialEq, Eq, Structural)]
pub enum FreeStep {
    /// Nothing more.
    Done,
    /// The free magazine of `class` is full and the node allocator needs a
    /// fresh page: map one and call `free_with_node_page`.
    NeedNodePage { class: usize, block: usize },
}

/// `tc2`, `gp2` are `tc`, `gp` after the free magazine of class `c` went, in
/// a fresh unlinked node, on top of the pool's stack of full magazines and
/// a new free magazine holding just `block` took its place.
pub open spec fn retired(c: int, block: usize, tc: ThreadCache, gp: GlobalMagazinePools, tc2: ThreadCache, gp2: GlobalMagazinePools) -> bool {
    let full = gp.pools@[c].full_view();
    let full2 = gp2.pools@[c].full_view();
    &&& full2.len() == full.len() + 1
    &&& full2.drop_last() == full
    &&& full2.last().next == 0
    &&& full2.last().magazine@ == tc.free_view(c)
    &&& gp2.pools@[c].empty_view() == gp.pools@[c].empty_view()
    &&& tc2.free_view(c) == seq![block]
    &&& tc2.alloc_view(c) == tc.alloc_view(c)
    &&& forall|d: int| 0 <= d < NUM_SIZE_CLASSES && d != c ==> #[trigger] tc2.alloc_view(d) == tc.alloc_view(d)
        && tc2.free_view(d) == tc.free_view(d)
    &&& forall|d: int| 0 <= d < 13 && d != c ==> #[trigger] gp2.pools@[d] == gp.pools@[d]
}

/// A retirement followed by changes outside the magazines is still that
/// retirement.
proof fn lemma_retired_then_same(c: int, block: usize, tc: ThreadCache, gp: GlobalMagazinePools, tc1: ThreadCache,
    gp1: GlobalMagazinePools, tc2: ThreadCache, gp2: GlobalMagazinePools)
    requires
        0 <= c < 13,
        retired(c, block, tc, gp, tc1, gp1),
        same_magazines(tc1, tc2),
        gp2 == gp1,
    ensures
        retired(c, block, tc, gp, tc2, gp2),
{
    assert(tc2.alloc_view(c) == tc1.alloc_view(c));
    assert(tc2.free_view(c) == tc1.free_view(c));
}

/// A node fits in the rest of the node allocator's page.
pub open spec fn node_fits(m: MetadataAllocator) -> bool {
    crate::magazine::align_node_offset(m.used() as nat) + crate::magazine::NODE_SIZE <= crate::magazine::PAGE_SIZE
}

impl ThreadCache {
    /// Hands the full free magazine of `class` to the global pool in a fresh
    /// node and starts a new free magazine with `block`.
    fn retire_free_magazine(&mut self, pools: &mut GlobalMagazinePools, class: usize, block: usize)
        requires
            old(self).wf(),
            old(pools).wf(),
            class < 13,
        ensures
            final(self).wf(),
            final(pools).wf(),
            retired(class as int, block, *old(self), *old(pools), *final(self), *final(pools)),
            final(self).thread_metrics() == old(self).thread_metrics(),
    {
        let mut full_mag = Magazine::new();
        std::mem::swap(&mut full_mag, &mut self.free_mags[class]);
        let ghost full_before = pools.pools@[class as int].full_view();
        pools.pools[class].push_full(MagazineNode { next: 0, magazine: full_mag });
        assert(pools.pools@[class as int].full_view().drop_last() =~= full_before);
        let pushed = self.free_mags[class].push(block);
        assert(self.free_view(class as int) =~= seq![block]);
    }
}

/// Frees the cached block at `block` (16 bytes before the freed pointer)
/// whose header records `size` requested bytes, on thread `thread_id`.
///
/// The block goes on the free magazine of its class. When that magazine is
/// full, it is first handed to the global pool in a node from the node
/// allocator; when the node allocator needs a page, nothing changes and the
/// caller is asked for one. Once the block is placed, a free is counted and
/// the counters get a flush check.
pub fn free_cached(cache: &mut ThreadCache, shared: &mut SharedState, block: usize, size: usize, thread_id: u64) -> (r: FreeStep)
    requires
        old(cache).wf(),
        old(shared).wf(),
        0 < size <= MAX_CACHE_SIZE,
        counters_have_room(old(cache).thread_metrics()),
    ensures
        final(cache).wf(),
        final(shared).wf(),
        old(cache).free_view(class_for(size as nat).unwrap() as int).len() < MAGAZINE_CAPACITY ==> (
            r == FreeStep::Done
            && final(cache).free_view(class_for(size as nat).unwrap() as int)
                == old(cache).free_view(class_for(size as nat).unwrap() as int).push(block)
            && final(cache).alloc_view(class_for(size as nat).unwrap() as int)
                == old(cache).alloc_view(class_for(size as nat).unwrap() as int)
            && (forall|d: int| 0 <= d < NUM_SIZE_CLASSES && d != class_for(size as nat).unwrap() ==>
                #[trigger] final(cache).alloc_view(d) == old(cache).alloc_view(d) && final(cache).free_view(d) == old(cache).free_view(d))
            && final(shared).magazines == old(shared).magazines
            && final(shared).metadata == old(shared).metadata),
        old(cache).free_view(class_for(size as nat).unwrap() as int).len() >= MAGAZINE_CAPACITY && node_fits(old(shared).metadata) ==> (
            r == FreeStep::Done
            && retired(class_for(size as nat).unwrap() as int, block, *old(cache), old(shared).magazines, *final(cache), final(shared).magazines)
            && final(shared).metadata.page() == old(shared).metadata.page()
            && final(shared).metadata.used() == crate::magazine::align_node_offset(old(shared).metadata.used() as nat) + crate::magazine::NODE_SIZE),
        r == FreeStep::Done ==> (
            final(cache).thread_metrics() == flushed_metrics(count_free(old(cache).thread_metrics()))
            && snapshot_of(final(shared).metrics) == flushed_global(snapshot_of(old(shared).metrics), count_free(old(cache).thread_metrics()))
            && final(shared).ring@ == flushed_ring(old(shared).ring@, count_free(old(cache).thread_metrics()), thread_id)),
        cache_aligned(*old(cache), old(shared).magazines) && block % 16 == 0
            ==> cache_aligned(*final(cache), final(shared).magazines),
        old(cache).free_view(class_for(size as nat).unwrap() as int).len() >= MAGAZINE_CAPACITY && !node_fits(old(shared).metadata) ==> (
            r == (FreeStep::NeedNodePage { class: class_for(size as nat).unwrap(), block })
            && *final(cache) == *old(cache)
            && *final(shared) == *old(shared)),
{
    let rounded = round_up_pow2(size);
    let cache_size = if rounded < 16 {
        16
    } else {
        rounded
    };
    proof {
        lemma_cacheable_has_class(size as nat);
        lemma2_to64();
        lemma_next_pow2_is_least(size as nat);
    }
    let class = match size_to_class(cache_size) {
        Some(c) => c,
        None => {
            return FreeStep::Done;
        },
    };
    if !cache.free_mags[class].is_full() {
        let pushed = cache.free_mags[class].push(block);
        let ghost tc1 = *cache;
        cache.metrics.record_free();
        maybe_flush_metrics(&mut cache.metrics, shared, thread_id);
        proof {
            assert(same_magazines(tc1, *cache));
            if cache_aligned(*old(cache), old(shared).magazines) && block % 16 == 0 {
                assert(cache.free_view(class as int) == old(cache).free_view(class as int).push(block));
                assert forall|d: int| 0 <= d < NUM_SIZE_CLASSES && d != class implies
                    #[trigger] cache.alloc_view(d) == old(cache).alloc_view(d) && cache.free_view(d) == old(cache).free_view(d) by {
                    assert(cache.alloc_view(d) == tc1.alloc_view(d));
                }
                assert(cache.alloc_view(class as int) == tc1.alloc_view(class as int));
                assert(stashed(class as int, block, *old(cache), old(shared).magazines, *cache, shared.magazines));
                lemma_free_keeps_alignment(class as int, block, *old(cache), old(shared).magazines, *cache, shared.magazines);
            }
        }
        return FreeStep::Done;
    }
    match shared.metadata.alloc_node() {
        NodeSlot::Carved(_) => {
            let ghost tc0 = *cache;
            let ghost gp0 = shared.magazines;
            cache.retire_free_magazine(&mut shared.magazines, class, block);
            let ghost tc1 = *cache;
            let ghost gp1 = shared.magazines;
            cache.metrics.record_free();
            maybe_flush_metrics(&mut cache.metrics, shared, thread_id);
            proof {
                assert(same_magazines(tc1, *cache));
                lemma_retired_then_same(class as int, block, tc0, gp0, tc1, gp1, *cache, shared.magazines);
                if cache_aligned(*old(cache), old(shared).magazines) && block % 16 == 0 {
                    lemma_free_keeps_alignment(class as int, block, *old(cache), old(shared).magazines, *cache, shared.magazines);
                }
            }
            FreeStep::Done
        },
        NodeSlot::NeedPage => FreeStep::NeedNodePage { class, block },
    }
}

/// After `NeedNodePage { class, block }`: with the freshly mapped `page`,
/// the node allocator starts carving from it and the full free magazine
/// goes to the global pool in a node from it, with `block` starting the new
/// free magazine; without one (`None`: mapping failed), the free magazine
/// stays full and `block` is not kept. Either way a free is counted and the
/// counters get a flush check.
pub fn free_with_node_page(cache: &mut ThreadCache, shared: &mut SharedState, class: usize, block: usize,
    page: Option<usize>, thread_id: u64)
    requires
        old(cache).wf(),
        old(shared).wf(),
        class < 13,
        old(cache).free_view(class as int).len() >= MAGAZINE_CAPACITY,
        page matches Some(p) ==> p + crate::magazine::PAGE_SIZE <= usize::MAX,
        counters_have_room(old(cache).thread_metrics()),
    ensures
        final(cache).wf(),
        final(shared).wf(),
        page matches Some(p) ==> (
            retired(class as int, block, *old(cache), old(shared).magazines, *final(cache), final(shared).magazines)
            && final(shared).metadata.page() == p
            && final(shared).metadata.used() == crate::magazine::NODE_SIZE),
        page is None ==> (
            same_magazines(*old(cache), *final(cache))
            && final(shared).magazines == old(shared).magazines
            && final(shared).metadata == old(shared).metadata),
        final(cache).thread_metrics() == flushed_metrics(count_free(old(cache).thread_metrics())),
        snapshot_of(final(shared).metrics) == flushed_global(snapshot_of(old(shared).metrics), count_free(old(cache).thread_metrics())),
        final(shared).ring@ == flushed_ring(old(shared).ring@, count_free(old(cache).thread_metrics()), thread_id),
        cache_aligned(*old(cache), old(shared).magazines) && block % 16 == 0
            ==> cache_aligned(*final(cache), final(shared).magazines),
{
    let ghost tc0 = *cache;
    let ghost gp0 = shared.magazines;
    match page {
        Some(p) => {
            let _node = shared.metadata.install_page(p);
            cache.retire_free_magazine(&mut shared.magazines, class, block);
        },
        None => {
            let _ = cache.free_mags[class].push(block);
        },
    }
    let ghost tc1 = *cache;
    let ghost gp1 = shared.magazines;
    cache.metrics.record_free();
    maybe_flush_metrics(&mut cache.metrics, shared, thread_id);
    proof {
        assert(same_magazines(tc1, *cache));
        if page is Some {
            lemma_retired_then_same(class as int, block, tc0, gp0, tc1, gp1, *cache, shared.magazines);
            if cache_aligned(*old(cache), old(shared).magazines) && block % 16 == 0 {
                lemma_free_keeps_alignment(class as int, block, *old(cache), old(shared).magazines, *cache, shared.magazines);
            }
        } else {
            assert(same_magazines(tc0, tc1));
            if cache_aligned(*old(cache), old(shared).magazines) {
                assert(same_magazines(*old(cache), *cache));
                lemma_same_magazines_keep_alignment(*old(cache), old(shared).magazines, *cache);
            }
        }
    }
}

/// After the pages of a large allocation were released (or found not to be
/// ours): counts a free in the thread counters `metrics` and runs the flush
/// check.
pub fn free_large(metrics: &mut ThreadMetrics, shared: &mut SharedState, thread_id: u64)
    requires
        old(shared).wf(),
        counters_have_room(*old(metrics)),
    ensures
        final(shared).wf(),
        final(shared).magazines == old(shared).magazines,
        final(shared).metadata == old(shared).metadata,
        final(shared).free_lists == old(shared).free_lists,
        *final(metrics) == flushed_metrics(count_free(*old(metrics))),
        snapshot_of(final(shared).metrics) == flushed_global(snapshot_of(old(shared).metrics), count_free(*old(metrics))),
        final(shared).ring@ == flushed_ring(old(shared).ring@, count_free(*old(metrics)), thread_id),
{
    metrics.record_free();
    maybe_flush_metrics(metrics, shared, thread_id);
}

/// Frees a pointer that is neither large nor cached, after the pages under
/// its page header (if any) were released: counts a free in the thread
/// counters `metrics`, runs the flush check and reports the block, of
/// `alloc_size` recorded bytes, to the support core.
pub fn free_other(metrics: &mut ThreadMetrics, shared: &mut SharedState, ptr: usize, alloc_size: usize, thread_id: u64)
    requires
        old(shared).wf(),
        counters_have_room(*old(metrics)),
        alloc_size <= MAX_POW2_REQUEST,
    ensures
        final(shared).wf(),
        final(shared).magazines == old(shared).magazines,
        final(shared).metadata == old(shared).metadata,
        final(shared).free_lists == old(shared).free_lists,
        *final(metrics) == flushed_metrics(count_free(*old(metrics))),
        snapshot_of(final(shared).metrics) == flushed_global(snapshot_of(old(shared).metrics), count_free(*old(metrics))),
        final(shared).ring@ == offered(
            flushed_ring(old(shared).ring@, count_free(*old(metrics)), thread_id),
            free_block_entry(ptr, alloc_size, match class_for(alloc_size as nat) {
                Some(c) => c as u8,
                None => 0u8,
            }),
        ),
{
    metrics.record_free();
    maybe_flush_metrics(metrics, shared, thread_id);
    let class = free_block_class(alloc_size);
    amo_push_free_block(&mut shared.ring, ptr, alloc_size, class);
}

/// The size that `alloc_size_of` reads for a header word of kind `kind`
/// and the page header `header`.
pub open spec fn size_from_header(kind: HeaderKind, header: PageHeader) -> usize {
    match kind {
        HeaderKind::Cached(size) => size,
        _ => if header.magic == MAGIC { header.requested_size } else { 0 },
    }
}

/// The requested size of an allocation, from the kind of its header word
/// and the page header that the kind leads to (the large allocation's base
/// page for `Large`, the pointer's own page for `Other`; unused for
/// `Cached`): 0 when that page header's magic is wrong.
pub fn alloc_size_of(kind: HeaderKind, header: PageHeader) -> (r: usize)
    ensures
        r == size_from_header(kind, header),
{
    match kind {
        HeaderKind::Cached(size) => size,
        _ => recorded_size(header.magic, header.requested_size),
    }
}

/// Law: a flush check never loses a count: for each counter, the global
/// value plus the thread's value (modulo 2^64) is the same before and after.
pub proof fn lemma_flush_keeps_counts(g: MetricsSnapshot, tm: ThreadMetrics)
    ensures
        (flushed_global(g, tm).allocs + flushed_metrics(tm).allocs) % 0x1_0000_0000_0000_0000
            == (g.allocs + tm.allocs) % 0x1_0000_0000_0000_0000,
        (flushed_global(g, tm).frees + flushed_metrics(tm).frees) % 0x1_0000_0000_0000_0000
            == (g.frees + tm.frees) % 0x1_0000_0000_0000_0000,
        (flushed_global(g, tm).cache_hits + flushed_metrics(tm).cache_hits) % 0x1_0000_0000_0000_0000
            == (g.cache_hits + tm.cache_hits) % 0x1_0000_0000_0000_0000,
        (flushed_global(g, tm).cache_misses + flushed_metrics(tm).cache_misses) % 0x1_0000_0000_0000_0000
            == (g.cache_misses + tm.cache_misses) % 0x1_0000_0000_0000_0000,
        (flushed_global(g, tm).direct_allocs + flushed_metrics(tm).direct_allocs) % 0x1_0000_0000_0000_0000
            == (g.direct_allocs + tm.direct_allocs) % 0x1_0000_0000_0000_0000,
{
    if flush_due(tm) {
        assert(tm.allocs as u64 == tm.allocs);
        assert(tm.frees as u64 == tm.frees);
        assert(tm.cache_hits as u64 == tm.cache_hits);
        assert(tm.cache_misses as u64 == tm.cache_misses);
        assert(tm.direct_allocs as u64 == tm.direct_allocs);
    }
}

/// Law: a block freed into a class whose allocation magazine is empty is
/// the block the next allocation of that class takes (`free_cached` pushes
/// it on the free magazine; `take_block` then swaps the magazines and pops
/// it), whatever the global pool holds.
pub proof fn lemma_freed_block_reused(alloc_mag: Seq<usize>, free_mag: Seq<usize>, full: Seq<MagazineNode>, block: usize)
    requires
        alloc_mag.len() == 0,
    ensures
        take_result(alloc_mag, free_mag.push(block), full) == Some(block),
{
}

/// Law: the size read back from a live block is the size it was allocated
/// with. A cached block of `size` bytes has `size` in its header word,
/// which reads as a cached block of that size. A large allocation of
/// `size` bytes has a large-allocation header whose first word carries
/// `LARGE_MAGIC` in its low 32 bits (`large_word`), which reads as a large
/// allocation, and whose base page holds the page header that
/// `large_headers` writes, which gives `size` back.
pub proof fn lemma_size_read_back(size: usize, large_word: usize, pages: usize, any_header: PageHeader)
    requires
        large_word as u32 == LARGE_MAGIC,
    ensures
        0 < size <= MAX_CACHE_SIZE ==> header_kind(size) == HeaderKind::Cached(size)
            && size_from_header(header_kind(size), any_header) == size,
        header_kind(large_word) == HeaderKind::Large,
        size_from_header(header_kind(large_word),
            PageHeader { magic: MAGIC, num_pages: pages as u32, requested_size: size, tag: 0 }) == size,
{
    if 0 < size <= MAX_CACHE_SIZE {
        assert(size as u32 == size) by (bit_vector)
            requires size <= 65536usize;
    }
}

} // verus!
