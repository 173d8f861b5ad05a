use aethalloc::thread_local::{CacheAlloc, CacheFree, CacheSlot, ThreadLocalCache, CACHE_SIZE};

const PAGE_SIZE: usize = 4096;

/// Allocates from `cache`, mapping fresh pages from `next_page` when asked.
fn cache_alloc(cache: &mut ThreadLocalCache, size: usize, next_page: &mut usize) -> Option<usize> {
    match cache.allocate(size) {
        CacheAlloc::Cached(p) => Some(p),
        CacheAlloc::MapPages(pages) => {
            let p = *next_page;
            *next_page += pages * PAGE_SIZE;
            Some(p)
        }
        CacheAlloc::Uncached => None,
    }
}

#[test]
fn test_cache_alloc_dealloc() {
    let mut cache = ThreadLocalCache::new();
    let mut pages = 0x100_0000;

    let ptr = cache_alloc(&mut cache, 64, &mut pages).expect("allocation should succeed");

    cache.dealloc(ptr, 64);
}

#[test]
fn test_cache_reuse() {
    let mut cache = ThreadLocalCache::new();
    let mut pages = 0x100_0000;

    let ptr1 = cache_alloc(&mut cache, 64, &mut pages).expect("allocation should succeed");

    cache.dealloc(ptr1, 64);

    let ptr2 = cache_alloc(&mut cache, 64, &mut pages).expect("allocation should succeed");

    // Should reuse the cached pointer
    assert_eq!(ptr1, ptr2);

    cache.dealloc(ptr2, 64);
}

#[test]
fn test_cache_tiny_sizes() {
    let mut cache = ThreadLocalCache::new();
    let mut pages = 0x100_0000;

    for &size in &[16, 32, 64, 128] {
        let ptr = cache_alloc(&mut cache, size, &mut pages).expect("allocation should succeed");
        assert_eq!(ptr % size, 0, "should be aligned to size");

        cache.dealloc(ptr, size);
    }
}

#[test]
fn test_cache_small_sizes() {
    let mut cache = ThreadLocalCache::new();
    let mut pages = 0x100_0000;

    for &size in &[256, 512, 1024, 2048, 4096, 8192] {
        let ptr = cache_alloc(&mut cache, size, &mut pages).expect("allocation should succeed");
        // Only guarantee page alignment (4KB), not size alignment for larger sizes
        assert_eq!(ptr % PAGE_SIZE, 0, "should be page-aligned");

        cache.dealloc(ptr, size);
    }
}

#[test]
fn test_cache_rejects_large_sizes() {
    let mut cache = ThreadLocalCache::new();
    let mut pages = 0x100_0000;

    // Medium and large sizes should return None
    assert!(cache_alloc(&mut cache, 16384, &mut pages).is_none());
    assert!(cache_alloc(&mut cache, 262145, &mut pages).is_none());
}

#[test]
fn test_cache_full_frees_directly() {
    let mut cache = ThreadLocalCache::new();
    let mut pages = 0x100_0000;

    let mut ptrs = Vec::new();

    // Fill the cache beyond its capacity
    for _ in 0..CACHE_SIZE + 5 {
        let ptr = cache_alloc(&mut cache, 64, &mut pages).expect("allocation should succeed");
        ptrs.push(ptr);
    }

    let mut unmapped = 0;
    for ptr in ptrs {
        if let CacheFree::Unmap { ptr: p, pages: n } = cache.dealloc(ptr, 64) {
            assert_eq!(p, ptr);
            assert_eq!(n, 1);
            unmapped += 1;
        }
    }
    assert_eq!(unmapped, 5);
}

#[test]
fn test_stress_thread_local_cache() {
    let mut cache = ThreadLocalCache::new();
    let mut pages = 0x100_0000;

    let mut ptrs = Vec::new();

    for size in 16..=4096 {
        if let Some(ptr) = cache_alloc(&mut cache, size, &mut pages) {
            ptrs.push((ptr, size));
        }
    }

    for (ptr, size) in ptrs {
        cache.dealloc(ptr, size);
    }
}

#[test]
fn test_zero_allocations() {
    let mut cache = ThreadLocalCache::new();
    let mut pages = 0x100_0000;
    let ptr = cache_alloc(&mut cache, 0, &mut pages);
    assert!(ptr.is_some());
    if let Some(p) = ptr {
        cache.dealloc(p, 0);
    }
}

#[test]
fn test_large_allocations() {
    let mut cache = ThreadLocalCache::new();
    let mut pages = 0x100_0000;

    assert!(cache_alloc(&mut cache, 1024 * 1024, &mut pages).is_none());
    assert!(cache_alloc(&mut cache, 10 * 1024 * 1024, &mut pages).is_none());
}

#[test]
fn slots_for_sizes() {
    assert_eq!(ThreadLocalCache::get_slot(1), Some((true, 0)));
    assert_eq!(ThreadLocalCache::get_slot(17), Some((true, 1)));
    assert_eq!(ThreadLocalCache::get_slot(128), Some((true, 3)));
    assert_eq!(ThreadLocalCache::get_slot(129), Some((false, 0)));
    assert_eq!(ThreadLocalCache::get_slot(8192), Some((false, 5)));
    assert_eq!(ThreadLocalCache::get_slot(8193), None);
    assert_eq!(CacheSlot::size_for_index(true, 2), 64);
    assert_eq!(CacheSlot::size_for_index(false, 5), 8192);
}

#[test]
fn map_pages_for_an_empty_slot() {
    let mut cache = ThreadLocalCache::new();
    assert_eq!(cache.allocate(64), CacheAlloc::MapPages(1));
    assert_eq!(cache.allocate(8000), CacheAlloc::MapPages(2));
    assert_eq!(cache.dealloc(0x5000, 20000), CacheFree::Unmap { ptr: 0x5000, pages: 8 });
}

#[test]
fn clear_returns_every_cached_block() {
    let mut cache = ThreadLocalCache::new();
    assert_eq!(cache.dealloc(0x1000, 16), CacheFree::Cached);
    assert_eq!(cache.dealloc(0x2000, 16), CacheFree::Cached);
    assert_eq!(cache.dealloc(0x4000, 8192), CacheFree::Cached);
    let unmaps = cache.clear();
    assert_eq!(unmaps, vec![(0x2000, 1), (0x1000, 1), (0x4000, 2)]);
    assert_eq!(cache.allocate(16), CacheAlloc::MapPages(1));
}
