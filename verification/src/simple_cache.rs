//! The simple caching mode of the global allocator.
//!
//! Each thread keeps one free list of cached blocks per class. When a list
//! reaches `MAX_FREE_LIST_LENGTH` blocks, its newest half goes to the global
//! free list of the class in one batch (anti-hoarding); a thread whose list
//! is empty fetches up to `GLOBAL_FREE_BATCH` blocks back from there before
//! it carves a fresh page. Requests that are not cacheable go to their own
//! pages as in the magazine mode (`crate::global`).

use vstd::prelude::*;
use crate::global::{
    AllocStep, SharedState, NUM_SIZE_CLASSES, MAX_CACHE_SIZE, CACHE_HEADER_SIZE, PAGE_HEADER_SIZE,
    LARGE_HEADER_SIZE, cacheable, class_for, miss_step, carve_count, counters_have_room, count_hit, count_miss,
    count_direct, count_free, flushed_metrics, flushed_global, flushed_ring, large_pages, size_to_class,
    single_block_pages, large_page_count, maybe_flush_metrics,
};
use crate::metrics::{ThreadMetrics, snapshot_of};
use crate::page::PAGE_SIZE;
use crate::size_class::{round_up_pow2, next_pow2, lemma_next_pow2_is_least};
use vstd::arithmetic::power2::lemma2_to64;

verus! {

/// Blocks a thread's free list may reach before half of it goes global.
pub const MAX_FREE_LIST_LENGTH: usize = 4096;
/// Blocks fetched from the global free list at a time.
pub const GLOBAL_FREE_BATCH: usize = 128;

/// The global free list of one class: a stack of blocks.
pub struct GlobalFreeList {
    stack: Vec<usize>,
}

impl GlobalFreeList {
    /// The blocks, top last.
    pub closed spec fn view(&self) -> Seq<usize> {
        self.stack@
    }

    pub fn new() -> (l: Self)
        ensures
            l@ == Seq::<usize>::empty(),
    {
        Self { stack: Vec::new() }
    }

    /// Pushes the blocks of `batch` (its top last) on top, in one step.
    pub fn push_batch(&mut self, batch: &mut Vec<usize>)
        ensures
            final(self)@ == old(self)@ + old(batch)@,
            final(batch)@ == Seq::<usize>::empty(),
    {
        self.stack.append(batch);
    }

    /// Takes the top block.
    pub fn pop(&mut self) -> (r: Option<usize>)
        ensures
            old(self)@.len() == 0 ==> r == None::<usize> && final(self)@ == old(self)@,
            old(self)@.len() > 0 ==> r == Some(old(self)@.last()) && final(self)@ == old(self)@.drop_last(),
    {
        self.stack.pop()
    }

    /// Moves up to `count` blocks, one at a time, from the top of this list
    /// to the top of `local`; returns how many moved.
    pub fn pop_batch(&mut self, count: usize, local: &mut Vec<usize>) -> (moved: usize)
        ensures
            moved == vstd::math::min(count as int, old(self)@.len() as int),
            final(self)@ == old(self)@.subrange(0, old(self)@.len() - moved),
            final(local)@ == old(local)@ + Seq::new(moved as nat, |i: int| old(self)@[old(self)@.len() - 1 - i]),
    {
        let mut transferred: usize = 0;
        let ghost n = self.stack@.len();
        while transferred < count
            invariant
                n == old(self)@.len(),
                transferred <= count,
                transferred <= n,
                self.stack@ == old(self)@.subrange(0, n - transferred),
                local@ == old(local)@ + Seq::new(transferred as nat, |i: int| old(self)@[n - 1 - i]),
            ensures
                transferred == vstd::math::min(count as int, n as int),
                self.stack@ == old(self)@.subrange(0, n - transferred),
                local@ == old(local)@ + Seq::new(transferred as nat, |i: int| old(self)@[n - 1 - i]),
            decreases count - transferred,
        {
            match self.stack.pop() {
                Some(block) => {
                    local.push(block);
                    assert(local@ =~= old(local)@ + Seq::new((transferred + 1) as nat, |i: int| old(self)@[n - 1 - i]));
                    transferred = transferred + 1;
                    assert(self.stack@ =~= old(self)@.subrange(0, n - transferred));
                },
                None => {
                    break;
                },
            }
        }
        transferred
    }
}

/// The global free lists, one per class.
pub struct GlobalFreeLists {
    lists: Vec<GlobalFreeList>,
}

impl GlobalFreeLists {
    pub closed spec fn wf(&self) -> bool {
        self.lists@.len() == NUM_SIZE_CLASSES
    }

    /// The blocks of the global free list of class `c`, top last.
    pub closed spec fn list_view(&self, c: int) -> Seq<usize> {
        self.lists@[c]@
    }

    pub fn new() -> (g: Self)
        ensures
            g.wf(),
            forall|c: int| 0 <= c < NUM_SIZE_CLASSES ==> #[trigger] g.list_view(c) == Seq::<usize>::empty(),
    {
        let mut lists: Vec<GlobalFreeList> = Vec::new();
        let mut i: usize = 0;
        while i < NUM_SIZE_CLASSES
            invariant
                lists@.len() == i,
                i <= NUM_SIZE_CLASSES,
                forall|c: int| 0 <= c < i ==> #[trigger] lists@[c]@ == Seq::<usize>::empty(),
            decreases NUM_SIZE_CLASSES - i,
        {
            lists.push(GlobalFreeList::new());
            i = i + 1;
        }
        Self { lists }
    }

    /// Number of blocks on the global free list of `class`.
    pub fn len_of(&self, class: usize) -> (r: usize)
        requires
            self.wf(),
            class < NUM_SIZE_CLASSES,
        ensures
            r == self.list_view(class as int).len(),
    {
        self.lists[class].stack.len()
    }
}

/// A thread's cache in the simple mode: a free list per class, and the
/// thread's counters.
pub struct SimpleThreadCache {
    heads: Vec<Vec<usize>>,
    pub metrics: ThreadMetrics,
}

impl SimpleThreadCache {
    pub closed spec fn wf(&self) -> bool {
        self.heads@.len() == NUM_SIZE_CLASSES
    }

    /// The free list of class `c`, most recently freed last.
    pub closed spec fn list_view(&self, c: int) -> Seq<usize> {
        self.heads@[c]@
    }

    /// The thread's counters.
    pub closed spec fn thread_metrics(&self) -> ThreadMetrics {
        self.metrics
    }

    pub fn new() -> (t: Self)
        ensures
            t.wf(),
            t.thread_metrics() == crate::metrics::zero_thread_metrics(),
            forall|c: int| 0 <= c < NUM_SIZE_CLASSES ==> #[trigger] t.list_view(c) == Seq::<usize>::empty(),
    {
        let mut heads: Vec<Vec<usize>> = Vec::new();
        let mut i: usize = 0;
        while i < NUM_SIZE_CLASSES
            invariant
                heads@.len() == i,
                i <= NUM_SIZE_CLASSES,
                forall|c: int| 0 <= c < i ==> #[trigger] heads@[c]@ == Seq::<usize>::empty(),
            decreases NUM_SIZE_CLASSES - i,
        {
            heads.push(Vec::new());
            i = i + 1;
        }
        Self { heads, metrics: ThreadMetrics::new() }
    }

    /// Number of blocks on the free list of `class`.
    pub fn count(&self, class: usize) -> (r: usize)
        requires
            self.wf(),
            class < NUM_SIZE_CLASSES,
        ensures
            r == self.list_view(class as int).len(),
    {
        self.heads[class].len()
    }
}

/// The free lists of `tc2` other than that of class `c` are those of `tc`.
pub open spec fn other_lists_kept(c: int, tc: SimpleThreadCache, tc2: SimpleThreadCache) -> bool {
    forall|d: int| 0 <= d < NUM_SIZE_CLASSES && d != c ==> #[trigger] tc2.list_view(d) == tc.list_view(d)
}

/// The global free lists of `g2` other than that of class `c` are those of
/// `g`.
pub open spec fn other_globals_kept(c: int, g: GlobalFreeLists, g2: GlobalFreeLists) -> bool {
    forall|d: int| 0 <= d < NUM_SIZE_CLASSES && d != c ==> #[trigger] g2.list_view(d) == g.list_view(d)
}

/// Blocks that a fetch from a global list of `n` blocks moves.
pub open spec fn fetched(n: nat) -> nat {
    vstd::math::min(GLOBAL_FREE_BATCH as int, n as int) as nat
}

/// The block that a cacheable request of `size` bytes takes in the simple
/// mode: the newest block of its thread's list; when that is empty, the
/// last block of a batch fetched from the global list (the deepest block of
/// the batch); none when both are empty.
pub open spec fn simple_cached_block(size: usize, tc: SimpleThreadCache, s: SharedState) -> Option<usize> {
    let c = class_for(size as nat).unwrap() as int;
    let local = tc.list_view(c);
    let global = s.free_lists.list_view(c);
    if local.len() > 0 {
        Some(local.last())
    } else if global.len() > 0 {
        Some(global[global.len() - fetched(global.len())])
    } else {
        None
    }
}

/// How a cacheable request of `size` bytes changes the free lists of its
/// class `c`: the thread's list loses its newest block; or, when it is
/// empty, a batch is fetched from the global list and its last block
/// taken; nothing else changes.
pub open spec fn simple_took(size: usize, tc: SimpleThreadCache, s: SharedState, tc2: SimpleThreadCache, s2: SharedState) -> bool {
    let c = class_for(size as nat).unwrap() as int;
    let local = tc.list_view(c);
    let global = s.free_lists.list_view(c);
    let t = fetched(global.len());
    &&& local.len() > 0 ==> tc2.list_view(c) == local.drop_last() && s2.free_lists.list_view(c) == global
    &&& local.len() == 0 && global.len() > 0 ==> (
        tc2.list_view(c) == Seq::new((t - 1) as nat, |i: int| global[global.len() - 1 - i])
        && s2.free_lists.list_view(c) == global.subrange(0, global.len() - t))
    &&& local.len() == 0 && global.len() == 0 ==> tc2.list_view(c) == local && s2.free_lists.list_view(c) == global
    &&& other_lists_kept(c, tc, tc2)
    &&& other_globals_kept(c, s.free_lists, s2.free_lists)
}

/// The first step of an allocation of `size` bytes aligned to `align` in the
/// simple mode, on thread `thread_id`: as `alloc_step` of the magazine mode,
/// with the block of a cacheable request taken from the thread's free list
/// or a batch fetched from the global list (`simple_cached_block`).
pub fn simple_alloc_step(cache: &mut SimpleThreadCache, shared: &mut SharedState, size: usize, align: usize, thread_id: u64) -> (r: AllocStep)
    requires
        old(cache).wf(),
        old(shared).wf(),
        counters_have_room(old(cache).thread_metrics()),
        size + crate::global::large_align(align as nat) + PAGE_HEADER_SIZE + LARGE_HEADER_SIZE <= usize::MAX,
    ensures
        final(cache).wf(),
        final(shared).wf(),
        final(shared).magazines == old(shared).magazines,
        final(shared).metadata == old(shared).metadata,
        size == 0 ==> r == AllocStep::Null && *final(cache) == *old(cache) && *final(shared) == *old(shared),
        cacheable(size, align) ==> simple_took(size, *old(cache), *old(shared), *final(cache), *final(shared)),
        cacheable(size, align) && simple_cached_block(size, *old(cache), *old(shared)) is Some ==> (
            r == AllocStep::Block { block: simple_cached_block(size, *old(cache), *old(shared)).unwrap() }
            && final(cache).thread_metrics() == flushed_metrics(count_hit(old(cache).thread_metrics()))
            && snapshot_of(final(shared).metrics) == flushed_global(snapshot_of(old(shared).metrics), count_hit(old(cache).thread_metrics()))
            && final(shared).ring@ == flushed_ring(old(shared).ring@, count_hit(old(cache).thread_metrics()), thread_id)),
        cacheable(size, align) && simple_cached_block(size, *old(cache), *old(shared)) is None ==> (
            r == miss_step(size as nat)
            && final(cache).thread_metrics() == count_miss(old(cache).thread_metrics())
            && final(shared).metrics == old(shared).metrics
            && final(shared).ring@ == old(shared).ring@),
        size > 0 && !cacheable(size, align) ==> (
            r == AllocStep::MapLarge { pages: large_pages(size as nat, align as nat) as usize }
            && other_lists_kept(-1, *old(cache), *final(cache))
            && final(shared).free_lists == old(shared).free_lists
            && final(cache).thread_metrics() == flushed_metrics(count_direct(old(cache).thread_metrics()))
            && snapshot_of(final(shared).metrics) == flushed_global(snapshot_of(old(shared).metrics), count_direct(old(cache).thread_metrics()))
            && final(shared).ring@ == flushed_ring(old(shared).ring@, count_direct(old(cache).thread_metrics()), thread_id)),
{
    if size == 0 {
        return AllocStep::Null;
    }
    if size <= MAX_CACHE_SIZE && align <= 8 {
        let rounded = round_up_pow2(size);
        let cache_size = if rounded < 16 {
            16
        } else {
            rounded
        };
        proof {
            crate::global::lemma_cacheable_has_class(size as nat);
            lemma2_to64();
            lemma_next_pow2_is_least(size as nat);
        }
        let class = match size_to_class(cache_size) {
            Some(c) => c,
            None => {
                return AllocStep::Null;
            },
        };
        let ghost c = class as int;
        let ghost local0 = cache.list_view(c);
        let ghost global0 = shared.free_lists.list_view(c);
        let ghost heads0 = cache.heads@;
        let ghost lists0 = shared.free_lists.lists@;
        if let Some(block) = cache.heads[class].pop() {
            proof {
                assert(cache.list_view(c) =~= local0.drop_last());
                assert forall|d: int| 0 <= d < NUM_SIZE_CLASSES && d != c implies #[trigger] cache.list_view(d) == heads0[d]@ by {
                    assert(cache.heads@[d] == heads0[d]);
                }
            }
            cache.metrics.record_cache_hit();
            cache.metrics.record_alloc();
            maybe_flush_metrics(&mut cache.metrics, shared, thread_id);
            return AllocStep::Block { block };
        }
        if shared.free_lists.len_of(class) > 0 {
            let moved = shared.free_lists.lists[class].pop_batch(GLOBAL_FREE_BATCH, &mut cache.heads[class]);
            proof {
                assert forall|d: int| 0 <= d < NUM_SIZE_CLASSES && d != c implies #[trigger] cache.list_view(d) == heads0[d]@ by {
                    assert(cache.heads@[d] == heads0[d]);
                }
                assert forall|d: int| 0 <= d < NUM_SIZE_CLASSES && d != c implies #[trigger] shared.free_lists.list_view(d) == lists0[d]@ by {
                    assert(shared.free_lists.lists@[d] == lists0[d]);
                }
            }
            if moved > 0 {
                let popped = cache.heads[class].pop();
                let block = match popped {
                    Some(b) => b,
                    None => 0,
                };
                proof {
                    let n = global0.len();
                    let batch = Seq::new(moved as nat, |i: int| global0[n - 1 - i]);
                    assert(local0 =~= Seq::<usize>::empty());
                    assert(local0 + batch =~= batch);
                    assert(block == global0[n - moved]);
                    assert(cache.list_view(c) =~= Seq::new((moved - 1) as nat, |i: int| global0[n - 1 - i]));
                    assert forall|d: int| 0 <= d < NUM_SIZE_CLASSES && d != c implies #[trigger] cache.list_view(d) == heads0[d]@ by {
                        assert(cache.heads@[d] == heads0[d]);
                    }
                }
                cache.metrics.record_cache_hit();
                cache.metrics.record_alloc();
                maybe_flush_metrics(&mut cache.metrics, shared, thread_id);
                return AllocStep::Block { block };
            }
        }
        cache.metrics.record_cache_miss();
        cache.metrics.record_alloc();
        let block_size = cache_size + CACHE_HEADER_SIZE;
        let blocks_per_page = PAGE_SIZE / block_size;
        if blocks_per_page > 1 {
            return AllocStep::MapForCarve { class, cache_size };
        }
        return AllocStep::MapPages { pages: single_block_pages(cache_size) };
    }
    cache.metrics.record_direct_alloc();
    cache.metrics.record_alloc();
    maybe_flush_metrics(&mut cache.metrics, shared, thread_id);
    AllocStep::MapLarge { pages: large_page_count(size, align) }
}

/// After the page asked for by `MapForCarve { class, cache_size }` was
/// mapped at `base`: the thread's free list of `class` takes the page's
/// other blocks of `cache_size + CACHE_HEADER_SIZE` bytes (the last of
/// them on top), then the counters get a flush check. The caller writes the
/// requested size into the first word at `base` and returns
/// `base + CACHE_HEADER_SIZE`.
pub fn simple_carve_mapped(cache: &mut SimpleThreadCache, shared: &mut SharedState, class: usize, cache_size: usize, base: usize, thread_id: u64)
    requires
        old(cache).wf(),
        old(shared).wf(),
        class < NUM_SIZE_CLASSES,
        cache_size <= MAX_CACHE_SIZE,
        base + PAGE_SIZE <= usize::MAX,
        old(cache).thread_metrics().allocs + old(cache).thread_metrics().frees <= usize::MAX,
    ensures
        final(cache).wf(),
        final(shared).wf(),
        final(shared).magazines == old(shared).magazines,
        final(shared).metadata == old(shared).metadata,
        final(shared).free_lists == old(shared).free_lists,
        final(cache).list_view(class as int) == old(cache).list_view(class as int) + Seq::new(
            carve_count((cache_size + CACHE_HEADER_SIZE) as nat),
            |i: int| (base + (cache_size + CACHE_HEADER_SIZE) + i * (cache_size + CACHE_HEADER_SIZE)) as usize,
        ),
        other_lists_kept(class as int, *old(cache), *final(cache)),
        final(cache).thread_metrics() == flushed_metrics(old(cache).thread_metrics()),
        snapshot_of(final(shared).metrics) == flushed_global(snapshot_of(old(shared).metrics), old(cache).thread_metrics()),
        final(shared).ring@ == flushed_ring(old(shared).ring@, old(cache).thread_metrics(), thread_id),
{
    let block_size = cache_size + CACHE_HEADER_SIZE;
    let blocks_per_page = PAGE_SIZE / block_size;
    let ghost bs = block_size as int;
    let ghost old_list = cache.list_view(class as int);
    let ghost heads0 = cache.heads@;
    let mut i: usize = 1;
    while i < blocks_per_page
        invariant
            cache.wf(),
            class < NUM_SIZE_CLASSES,
            bs == block_size,
            block_size >= 1,
            blocks_per_page == PAGE_SIZE / block_size,
            base + PAGE_SIZE <= usize::MAX,
            1 <= i,
            blocks_per_page > 1 ==> i <= blocks_per_page,
            blocks_per_page <= 1 ==> i == 1,
            heads0 == old(cache).heads@,
            old_list == old(cache).list_view(class as int),
            cache.list_view(class as int) == old_list + Seq::new((i - 1) as nat, |j: int| (base + bs + j * bs) as usize),
            forall|d: int| 0 <= d < NUM_SIZE_CLASSES && d != class ==> #[trigger] cache.heads@[d] == heads0[d],
            cache.metrics == old(cache).thread_metrics(),
        decreases blocks_per_page - i,
    {
        proof {
            assert(i * block_size <= PAGE_SIZE) by (nonlinear_arith)
                requires
                    i < blocks_per_page,
                    blocks_per_page == PAGE_SIZE / block_size,
                    block_size >= 1,
            ;
        }
        let block = base + i * block_size;
        cache.heads[class].push(block);
        proof {
            assert((base + bs + (i - 1) * bs) == base + i * bs) by (nonlinear_arith);
            assert(cache.list_view(class as int) =~= old_list + Seq::new(i as nat, |j: int| (base + bs + j * bs) as usize));
        }
        i = i + 1;
    }
    proof {
        let n: int = if blocks_per_page > 1 { blocks_per_page - 1 } else { 0 };
        assert(carve_count(bs as nat) == n);
        if blocks_per_page <= 1 {
            assert(i == 1);
        }
        assert(cache.list_view(class as int) =~= old_list + Seq::new(carve_count(bs as nat), |j: int| (base + bs + j * bs) as usize));
    }
    let ghost tc1 = *cache;
    maybe_flush_metrics(&mut cache.metrics, shared, thread_id);
    proof {
        assert(cache.list_view(class as int) == tc1.list_view(class as int));
        assert forall|d: int| 0 <= d < NUM_SIZE_CLASSES && d != class implies #[trigger] cache.list_view(d) == old(cache).list_view(d) by {
            assert(cache.heads@[d] == heads0[d]);
        }
    }
}

/// The index from which the newest half of a free list of `len` blocks goes
/// global: the list keeps its oldest `len - len / 2` blocks.
pub open spec fn kept_len(len: nat) -> nat {
    (len - len / 2) as nat
}

/// Frees the cached block at `block` (16 bytes before the freed pointer)
/// whose header records `size` requested bytes, on thread `thread_id`: the
/// block goes on the thread's free list of its class; a free is counted and
/// the counters get a flush check; then, when the list holds
/// `MAX_FREE_LIST_LENGTH` blocks or more, its newest half moves, in order,
/// on top of the global free list of the class.
pub fn simple_free_cached(cache: &mut SimpleThreadCache, shared: &mut SharedState, block: usize, size: usize, thread_id: u64)
    requires
        old(cache).wf(),
        old(shared).wf(),
        0 < size <= MAX_CACHE_SIZE,
        counters_have_room(old(cache).thread_metrics()),
    ensures
        final(cache).wf(),
        final(shared).wf(),
        final(shared).magazines == old(shared).magazines,
        final(shared).metadata == old(shared).metadata,
        ({
            let c = class_for(size as nat).unwrap() as int;
            let pushed = old(cache).list_view(c).push(block);
            &&& pushed.len() < MAX_FREE_LIST_LENGTH ==> final(cache).list_view(c) == pushed
                && final(shared).free_lists.list_view(c) == old(shared).free_lists.list_view(c)
            &&& pushed.len() >= MAX_FREE_LIST_LENGTH ==> final(cache).list_view(c) == pushed.subrange(0, kept_len(pushed.len()) as int)
                && final(shared).free_lists.list_view(c) == old(shared).free_lists.list_view(c)
                    + pushed.subrange(kept_len(pushed.len()) as int, pushed.len() as int)
            &&& other_lists_kept(c, *old(cache), *final(cache))
            &&& other_globals_kept(c, old(shared).free_lists, final(shared).free_lists)
        }),
        final(cache).thread_metrics() == flushed_metrics(count_free(old(cache).thread_metrics())),
        snapshot_of(final(shared).metrics) == flushed_global(snapshot_of(old(shared).metrics), count_free(old(cache).thread_metrics())),
        final(shared).ring@ == flushed_ring(old(shared).ring@, count_free(old(cache).thread_metrics()), thread_id),
{
    let rounded = round_up_pow2(size);
    let cache_size = if rounded < 16 {
        16
    } else {
        rounded
    };
    proof {
        crate::global::lemma_cacheable_has_class(size as nat);
        lemma2_to64();
        lemma_next_pow2_is_least(size as nat);
    }
    let class = match size_to_class(cache_size) {
        Some(c) => c,
        None => {
            return;
        },
    };
    let ghost c = class as int;
    let ghost heads0 = cache.heads@;
    let ghost lists0 = shared.free_lists.lists@;
    let ghost pushed = cache.list_view(c).push(block);
    cache.heads[class].push(block);
    cache.metrics.record_free();
    maybe_flush_metrics(&mut cache.metrics, shared, thread_id);
    let count = cache.heads[class].len();
    if count >= MAX_FREE_LIST_LENGTH {
        let flush_count = count / 2;
        let mut batch = cache.heads[class].split_off(count - flush_count);
        shared.free_lists.lists[class].push_batch(&mut batch);
        proof {
            assert(count - flush_count == kept_len(pushed.len()));
        }
    }
    proof {
        assert forall|d: int| 0 <= d < NUM_SIZE_CLASSES && d != c implies #[trigger] cache.list_view(d) == heads0[d]@ by {
            assert(cache.heads@[d] == heads0[d]);
        }
        assert forall|d: int| 0 <= d < NUM_SIZE_CLASSES && d != c implies #[trigger] shared.free_lists.list_view(d) == lists0[d]@ by {
            assert(shared.free_lists.lists@[d] == lists0[d]);
        }
    }
}

/// Law (anti-hoarding): freeing into a thread's free list that holds fewer
/// than `MAX_FREE_LIST_LENGTH` blocks leaves it holding fewer than that, and
/// no block is lost: the kept blocks followed by those moved to the global
/// list are the list with the freed block pushed.
pub proof fn lemma_free_list_stays_bounded(list: Seq<usize>, block: usize)
    requires
        list.len() < MAX_FREE_LIST_LENGTH,
    ensures
        ({
            let pushed = list.push(block);
            &&& pushed.len() < MAX_FREE_LIST_LENGTH ==> pushed.len() < MAX_FREE_LIST_LENGTH
            &&& pushed.len() >= MAX_FREE_LIST_LENGTH ==> kept_len(pushed.len()) < MAX_FREE_LIST_LENGTH
                && pushed.subrange(0, kept_len(pushed.len()) as int)
                    + pushed.subrange(kept_len(pushed.len()) as int, pushed.len() as int) == pushed
        }),
{
    let pushed = list.push(block);
    if pushed.len() >= MAX_FREE_LIST_LENGTH {
        assert(pushed.subrange(0, kept_len(pushed.len()) as int)
            + pushed.subrange(kept_len(pushed.len()) as int, pushed.len() as int) =~= pushed);
    }
}

} // verus!
