use aethalloc::global::{AllocStep, SharedState};
use aethalloc::simple_cache::{
    simple_alloc_step, simple_carve_mapped, simple_free_cached, GlobalFreeList, SimpleThreadCache,
    GLOBAL_FREE_BATCH, MAX_FREE_LIST_LENGTH,
};

const TID: u64 = 5;

#[test]
fn global_free_list_batches() {
    let mut list = GlobalFreeList::new();
    let mut batch = vec![1usize, 2, 3];
    list.push_batch(&mut batch);
    assert!(batch.is_empty());
    assert_eq!(list.pop(), Some(3));
    let mut local = vec![10usize];
    assert_eq!(list.pop_batch(5, &mut local), 2);
    assert_eq!(local, vec![10, 2, 1]);
    assert_eq!(list.pop(), None);
}

#[test]
fn miss_then_carve_then_hits() {
    let mut cache = SimpleThreadCache::new();
    let mut shared = SharedState::new();
    assert_eq!(simple_alloc_step(&mut cache, &mut shared, 100, 8, TID), AllocStep::MapForCarve { class: 3, cache_size: 128 });
    let base = 0x50_0000;
    simple_carve_mapped(&mut cache, &mut shared, 3, 128, base, TID);
    // 4096 / 144 = 28 blocks; the caller keeps the first, the thread's list
    // gets the other 27, the last on top.
    assert_eq!(cache.count(3), 27);
    assert_eq!(simple_alloc_step(&mut cache, &mut shared, 128, 8, TID), AllocStep::Block { block: base + 27 * 144 });
    assert_eq!(cache.metrics.cache_hits, 1);
    assert_eq!(cache.metrics.cache_misses, 1);
}

#[test]
fn freed_block_is_reused() {
    let mut cache = SimpleThreadCache::new();
    let mut shared = SharedState::new();
    simple_free_cached(&mut cache, &mut shared, 0x9000, 64, TID);
    assert_eq!(simple_alloc_step(&mut cache, &mut shared, 64, 8, TID), AllocStep::Block { block: 0x9000 });
}

#[test]
fn anti_hoarding_moves_half_to_the_global_list() {
    let mut cache = SimpleThreadCache::new();
    let mut shared = SharedState::new();
    for i in 0..MAX_FREE_LIST_LENGTH {
        simple_free_cached(&mut cache, &mut shared, 0x100_0000 + i * 32, 32, TID);
    }
    assert_eq!(cache.count(1), MAX_FREE_LIST_LENGTH / 2);
    assert_eq!(shared.free_lists.len_of(1), MAX_FREE_LIST_LENGTH / 2);
    // The newest kept block is on top of the thread's list.
    assert_eq!(
        simple_alloc_step(&mut cache, &mut shared, 32, 8, TID),
        AllocStep::Block { block: 0x100_0000 + (MAX_FREE_LIST_LENGTH / 2 - 1) * 32 }
    );
}

#[test]
fn empty_thread_list_fetches_a_batch() {
    let mut cache = SimpleThreadCache::new();
    let mut shared = SharedState::new();
    for i in 0..MAX_FREE_LIST_LENGTH {
        simple_free_cached(&mut cache, &mut shared, 0x100_0000 + i * 32, 32, TID);
    }
    let kept = cache.count(1);
    for _ in 0..kept {
        assert!(matches!(simple_alloc_step(&mut cache, &mut shared, 32, 8, TID), AllocStep::Block { .. }));
    }
    assert_eq!(cache.count(1), 0);
    // The global list holds the newest half, the newest on top; a batch of
    // 128 comes over and its deepest block is handed out.
    let top = 0x100_0000 + (MAX_FREE_LIST_LENGTH - 1) * 32;
    assert_eq!(
        simple_alloc_step(&mut cache, &mut shared, 32, 8, TID),
        AllocStep::Block { block: top - (GLOBAL_FREE_BATCH - 1) * 32 }
    );
    assert_eq!(cache.count(1), GLOBAL_FREE_BATCH - 1);
    assert_eq!(shared.free_lists.len_of(1), MAX_FREE_LIST_LENGTH / 2 - GLOBAL_FREE_BATCH);
}

#[test]
fn large_requests_in_simple_mode() {
    let mut cache = SimpleThreadCache::new();
    let mut shared = SharedState::new();
    assert_eq!(simple_alloc_step(&mut cache, &mut shared, 0, 8, TID), AllocStep::Null);
    assert_eq!(simple_alloc_step(&mut cache, &mut shared, 70000, 8, TID), AllocStep::MapLarge { pages: 18 });
    assert_eq!(simple_alloc_step(&mut cache, &mut shared, 4096, 8, TID), AllocStep::MapPages { pages: 2 });
}
