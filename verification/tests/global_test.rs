use aethalloc::command::{FreeBlockPayload, RingCommand, RingPayload, StatsReportPayload};
use aethalloc::global::{
    alloc_size_of, alloc_step, cached_user_addr, carve_mapped, classify_header, free_block_class, free_cached, free_large, free_other,
    free_with_node_page, large_headers, large_page_count, large_user_addr, maybe_flush_metrics, pages_to_release,
    recorded_size, single_block_pages, size_to_class, AethAlloc, AllocStep, FreeStep, HeaderKind, LargeAllocHeader,
    PageHeader, SharedState, ThreadCache, LARGE_MAGIC, MAGIC,
};
use aethalloc::magazine::MAGAZINE_CAPACITY;

const TID: u64 = 77;

#[test]
fn classes_of_sizes() {
    assert_eq!(size_to_class(0), Some(0));
    assert_eq!(size_to_class(16), Some(0));
    assert_eq!(size_to_class(17), Some(1));
    assert_eq!(size_to_class(1024), Some(6));
    assert_eq!(size_to_class(65536), Some(12));
    assert_eq!(size_to_class(65537), None);
    assert_eq!(free_block_class(100), 3);
    assert_eq!(free_block_class(1 << 20), 0);
}

#[test]
fn alignment_and_page_start() {
    assert_eq!(AethAlloc::align_up(0x1001, 16), 0x1010);
    assert_eq!(AethAlloc::align_up(0x1000, 4096), 0x1000);
    assert_eq!(AethAlloc::align_up(1, 1), 1);
    assert_eq!(AethAlloc::page_header_from_ptr(0x1234_5678), 0x1234_5000);
}

#[test]
fn zero_size_is_null() {
    let mut cache = ThreadCache::new();
    let mut shared = SharedState::new();
    assert_eq!(alloc_step(&mut cache, &mut shared, 0, 8, TID), AllocStep::Null);
    assert_eq!(cache.metrics.allocs, 0);
}

#[test]
fn first_small_allocation_carves_a_page() {
    let mut cache = ThreadCache::new();
    let mut shared = SharedState::new();
    assert_eq!(alloc_step(&mut cache, &mut shared, 64, 8, TID), AllocStep::MapForCarve { class: 2, cache_size: 64 });
    assert_eq!(cache.metrics.cache_misses, 1);
    assert_eq!(cache.metrics.allocs, 1);
    let base = 0x10_0000;
    carve_mapped(&mut cache, &mut shared, 2, 64, base, TID);
    // 51 blocks of 80 bytes fit in the page; the first is the caller's, the
    // other 50 go to the magazine, the last on top.
    assert_eq!(alloc_step(&mut cache, &mut shared, 50, 8, TID), AllocStep::Block { block: base + 50 * 80 });
    assert_eq!(alloc_step(&mut cache, &mut shared, 64, 8, TID), AllocStep::Block { block: base + 49 * 80 });
    assert_eq!(cache.metrics.cache_hits, 2);
    assert_eq!(cache.metrics.allocs, 3);
}

#[test]
fn bigger_blocks_get_their_own_pages() {
    let mut cache = ThreadCache::new();
    let mut shared = SharedState::new();
    assert_eq!(alloc_step(&mut cache, &mut shared, 2048, 8, TID), AllocStep::MapPages { pages: 1 });
    assert_eq!(alloc_step(&mut cache, &mut shared, 65536, 8, TID), AllocStep::MapPages { pages: 17 });
    assert_eq!(single_block_pages(1024), 1);
}

#[test]
fn large_and_over_aligned_requests_go_direct() {
    let mut cache = ThreadCache::new();
    let mut shared = SharedState::new();
    assert_eq!(alloc_step(&mut cache, &mut shared, 100000, 8, TID), AllocStep::MapLarge { pages: 25 });
    assert_eq!(alloc_step(&mut cache, &mut shared, 64, 16, TID), AllocStep::MapLarge { pages: 1 });
    assert_eq!(cache.metrics.direct_allocs, 2);
    assert_eq!(large_page_count(4096 * 3, 4096), 5);
}

#[test]
fn large_headers_and_address() {
    let (page, large) = large_headers(0x7000_0000, 25, 100000);
    assert_eq!(page, PageHeader { magic: MAGIC, num_pages: 25, requested_size: 100000, tag: 0 });
    assert_eq!(large, LargeAllocHeader { magic: LARGE_MAGIC, base_ptr: 0x7000_0000 });
    // Below 16 the alignment is raised to 16: past the 40 header bytes the
    // next multiple of 16 is 48.
    assert_eq!(large_user_addr(0x7000_0000, 8), 0x7000_0000 + 48);
    assert_eq!(large_user_addr(0x7000_0000, 1), 0x7000_0000 + 48);
    assert_eq!(large_user_addr(0x7000_0000, 32), 0x7000_0040);
    assert_eq!(large_user_addr(0x7000_0000, 64), 0x7000_0040);
    assert_eq!(large_user_addr(0x7000_0000, 4096), 0x7000_1000);
}

#[test]
fn header_words_classify_pointers() {
    assert_eq!(classify_header(LARGE_MAGIC as usize), HeaderKind::Large);
    assert_eq!(classify_header(64), HeaderKind::Cached(64));
    assert_eq!(classify_header(65536), HeaderKind::Cached(65536));
    assert_eq!(classify_header(65537), HeaderKind::Other);
    assert_eq!(classify_header(0), HeaderKind::Other);
    assert_eq!(classify_header(MAGIC as usize), HeaderKind::Other);
    assert_eq!(pages_to_release(MAGIC, 3), Some(3));
    assert_eq!(pages_to_release(MAGIC, 0), None);
    assert_eq!(pages_to_release(0, 3), None);
    assert_eq!(recorded_size(MAGIC, 500), 500);
    assert_eq!(recorded_size(1, 500), 0);
}

#[test]
fn allocation_sizes_from_headers() {
    let good = PageHeader { magic: MAGIC, num_pages: 2, requested_size: 5000, tag: 0 };
    let bad = PageHeader { magic: 0, num_pages: 2, requested_size: 5000, tag: 0 };
    assert_eq!(alloc_size_of(HeaderKind::Cached(48), bad), 48);
    assert_eq!(alloc_size_of(HeaderKind::Large, good), 5000);
    assert_eq!(alloc_size_of(HeaderKind::Other, good), 5000);
    assert_eq!(alloc_size_of(HeaderKind::Large, bad), 0);
}

#[test]
fn freed_block_comes_back_from_the_free_magazine() {
    let mut cache = ThreadCache::new();
    let mut shared = SharedState::new();
    assert_eq!(free_cached(&mut cache, &mut shared, 0x5000, 100, TID), FreeStep::Done);
    assert_eq!(cache.metrics.frees, 1);
    assert_eq!(alloc_step(&mut cache, &mut shared, 120, 8, TID), AllocStep::Block { block: 0x5000 });
}

#[test]
fn full_free_magazine_moves_to_the_global_pool() {
    let mut cache = ThreadCache::new();
    let mut shared = SharedState::new();
    for i in 0..MAGAZINE_CAPACITY {
        assert_eq!(free_cached(&mut cache, &mut shared, 0x10_0000 + i * 32, 32, TID), FreeStep::Done);
    }
    let extra = 0x20_0000;
    assert_eq!(free_cached(&mut cache, &mut shared, extra, 32, TID), FreeStep::NeedNodePage { class: 1, block: extra });
    assert_eq!(cache.metrics.frees, MAGAZINE_CAPACITY);
    free_with_node_page(&mut cache, &mut shared, 1, extra, Some(0x30_0000), TID);
    assert_eq!(shared.magazines.get(1).full_depth(), 1);
    // The fresh free magazine holds just the extra block; after it the full
    // magazine comes back from the pool, newest block first.
    assert_eq!(alloc_step(&mut cache, &mut shared, 32, 8, TID), AllocStep::Block { block: extra });
    assert_eq!(
        alloc_step(&mut cache, &mut shared, 32, 8, TID),
        AllocStep::Block { block: 0x10_0000 + (MAGAZINE_CAPACITY - 1) * 32 }
    );
    assert_eq!(shared.magazines.get(1).full_depth(), 0);
    // The next node comes from the page just installed.
    for i in 0..MAGAZINE_CAPACITY {
        free_cached(&mut cache, &mut shared, 0x40_0000 + i * 32, 32, TID);
    }
    let _ = free_cached(&mut cache, &mut shared, 0x50_0000, 32, TID);
    assert_eq!(free_cached(&mut cache, &mut shared, 0x50_0020, 32, TID), FreeStep::Done);
}

#[test]
fn failed_node_page_drops_the_block() {
    let mut cache = ThreadCache::new();
    let mut shared = SharedState::new();
    for i in 0..MAGAZINE_CAPACITY {
        free_cached(&mut cache, &mut shared, 0x10_0000 + i * 16, 16, TID);
    }
    assert_eq!(free_cached(&mut cache, &mut shared, 0x20_0000, 16, TID), FreeStep::NeedNodePage { class: 0, block: 0x20_0000 });
    free_with_node_page(&mut cache, &mut shared, 0, 0x20_0000, None, TID);
    assert_eq!(shared.magazines.get(0).full_depth(), 0);
    assert_eq!(
        alloc_step(&mut cache, &mut shared, 16, 8, TID),
        AllocStep::Block { block: 0x10_0000 + (MAGAZINE_CAPACITY - 1) * 16 }
    );
}

#[test]
fn counters_flush_into_globals_and_ring() {
    let mut cache = ThreadCache::new();
    let mut shared = SharedState::new();
    for _ in 0..4095 {
        free_large(&mut cache.metrics, &mut shared, TID);
    }
    assert_eq!(cache.metrics.frees, 4095);
    assert!(shared.ring.is_empty());
    free_large(&mut cache.metrics, &mut shared, TID);
    assert_eq!(cache.metrics.frees, 0);
    assert_eq!(shared.metrics.snapshot().frees, 4096);
    let entry = shared.ring.try_pop().unwrap();
    assert_eq!(entry.command, RingCommand::StatsReport);
    assert_eq!(entry.payload, RingPayload::Stats(StatsReportPayload { thread_id: TID, allocs: 0, frees: 4096 }));
    maybe_flush_metrics(&mut cache.metrics, &mut shared, TID);
    assert!(shared.ring.is_empty());
}

#[test]
fn other_frees_are_reported() {
    let mut cache = ThreadCache::new();
    let mut shared = SharedState::new();
    free_other(&mut cache.metrics, &mut shared, 0x9000, 300, TID);
    let entry = shared.ring.try_pop().unwrap();
    assert_eq!(entry.command, RingCommand::FreeBlock);
    assert_eq!(entry.payload, RingPayload::FreeBlock(FreeBlockPayload { ptr: 0x9000, size: 300, size_class: 5 }));
    assert_eq!(cache.metrics.frees, 1);
}

#[test]
fn batch_report_truncates_the_count() {
    let mut shared = SharedState::new();
    aethalloc::global::amo_push_free_batch(&mut shared.ring, 0x7000, 300);
    let entry = shared.ring.try_pop().unwrap();
    assert_eq!(entry.payload, RingPayload::FreeBlock(FreeBlockPayload { ptr: 0x7000, size: 0, size_class: 44 }));
}

#[test]
fn carved_blocks_are_sixteen_byte_aligned() {
    for (class, cache_size) in [(0usize, 16usize), (1, 32), (3, 128), (6, 1024)] {
        let mut cache = ThreadCache::new();
        let mut shared = SharedState::new();
        carve_mapped(&mut cache, &mut shared, class, cache_size, 0x40_0000, TID);
        let mut handed = 0;
        while let AllocStep::Block { block } = alloc_step(&mut cache, &mut shared, cache_size, 8, TID) {
            assert_eq!((block + 16) % 16, 0);
            handed += 1;
        }
        assert!(handed > 0);
    }
}

#[test]
fn size_read_back_is_size_allocated() {
    // A cached block's header word is its size.
    for size in [1usize, 100, 4096, 65536] {
        let header = PageHeader { magic: 0, num_pages: 0, requested_size: 0, tag: 0 };
        assert_eq!(alloc_size_of(classify_header(size), header), size);
    }
    // A large allocation: the word before the address starts with the
    // large magic, and the base page's header records the size.
    let (page, large) = large_headers(0x7000_0000, 25, 100000);
    let word = large.magic as usize | (0xdead_usize << 32);
    assert_eq!(classify_header(word), HeaderKind::Large);
    assert_eq!(alloc_size_of(classify_header(word), page), 100000);
}

#[test]
fn freed_and_reused_blocks_stay_sixteen_byte_aligned() {
    let mut cache = ThreadCache::new();
    let mut shared = SharedState::new();
    for i in 0..60usize {
        let block = 0x50_0000 + i * 48;
        assert_eq!(free_cached(&mut cache, &mut shared, block, 32, TID), FreeStep::Done);
    }
    let mut handed = 0;
    while let AllocStep::Block { block } = alloc_step(&mut cache, &mut shared, 32, 8, TID) {
        assert_eq!(block % 16, 0);
        assert_eq!(cached_user_addr(block) % 16, 0);
        handed += 1;
    }
    assert_eq!(handed, 60);
    assert_eq!(cached_user_addr(0x40_0000), 0x40_0010);
}
