use aethalloc::slab::{PageRequest, Slab, SlabStep, MAX_SLAB_PAGES};

const PAGE_SIZE: usize = 4096;

/// Allocates from `slab`, handing it fresh pages from `next_page` as asked.
fn slab_alloc(slab: &mut Slab, next_page: &mut usize) -> Option<usize> {
    let mut step = slab.allocate();
    loop {
        match step {
            SlabStep::Slot(p) => return Some(p),
            SlabStep::Full => return None,
            SlabStep::NeedPage(request) => {
                let page = *next_page;
                *next_page += PAGE_SIZE;
                step = slab.add_page(request, page);
            }
        }
    }
}

#[test]
fn test_slab_alloc_dealloc() {
    let mut slab = Slab::new(64);
    let mut pages = 0x10_0000;

    let ptr1 = slab_alloc(&mut slab, &mut pages).expect("allocation should succeed");
    let ptr2 = slab_alloc(&mut slab, &mut pages).expect("allocation should succeed");

    assert_ne!(ptr1, ptr2);

    slab.dealloc(ptr1);
    slab.dealloc(ptr2);
}

#[test]
fn test_slab_reuse_freed_slots() {
    let mut slab = Slab::new(64);
    let mut pages = 0x10_0000;

    let ptr1 = slab_alloc(&mut slab, &mut pages).expect("allocation should succeed");

    slab.dealloc(ptr1);

    let ptr2 = slab_alloc(&mut slab, &mut pages).expect("allocation should succeed");

    // Should reuse the freed slot
    assert_eq!(ptr1, ptr2);
}

#[test]
fn test_slab_multiple_pages() {
    let mut slab = Slab::new(64);
    let mut pages = 0x10_0000;
    let slots_per_page = PAGE_SIZE / 64;

    let mut ptrs = Vec::new();

    // Allocate more than one page worth
    for _ in 0..(slots_per_page + 10) {
        let ptr = slab_alloc(&mut slab, &mut pages).expect("allocation should succeed");
        ptrs.push(ptr);
    }

    for ptr in ptrs {
        slab.dealloc(ptr);
    }
}

#[test]
fn test_slab_reuse_across_pages() {
    let mut slab = Slab::new(64);
    let mut pages = 0x10_0000;
    let slots_per_page = PAGE_SIZE / 64;

    let mut ptrs = Vec::new();

    // Allocate two pages worth
    for _ in 0..(slots_per_page * 2) {
        let ptr = slab_alloc(&mut slab, &mut pages).expect("allocation should succeed");
        ptrs.push(ptr);
    }

    // Free a slot from the first page (index 0)
    let first_page_ptr = ptrs[0];
    slab.dealloc(first_page_ptr);

    // Allocate again - should get the same pointer back
    let new_ptr = slab_alloc(&mut slab, &mut pages).expect("allocation should succeed");
    assert_eq!(first_page_ptr, new_ptr, "should reuse freed slot from first page");

    slab.dealloc(new_ptr);
    for ptr in ptrs.into_iter().skip(1) {
        slab.dealloc(ptr);
    }
}

#[test]
fn test_slab_various_sizes() {
    // Only test sizes that fit in a page (slab allocator doesn't handle >4KB)
    for &size in &[16, 32, 64, 128, 256, 512, 1024, 2048, 4096] {
        let mut slab = Slab::new(size);
        let mut pages = 0x10_0000;

        let ptr = slab_alloc(&mut slab, &mut pages).expect("allocation should succeed");
        assert_eq!(ptr % size, 0, "should be aligned to slot_size");

        slab.dealloc(ptr);
    }
}

#[test]
fn test_stress_slab_allocator() {
    let mut slab = Slab::new(64);
    let mut pages = 0x10_0000;
    let mut ptrs = Vec::new();

    for _ in 0..1000 {
        if let Some(ptr) = slab_alloc(&mut slab, &mut pages) {
            ptrs.push(ptr);
        }
    }

    assert!(!ptrs.is_empty());

    for ptr in ptrs {
        slab.dealloc(ptr);
    }
}

#[test]
fn test_stress_fragmentation() {
    let mut slab = Slab::new(128);
    let mut pages = 0x10_0000;

    let mut all_ptrs = Vec::new();
    for _ in 0..32 {
        if let Some(ptr) = slab_alloc(&mut slab, &mut pages) {
            all_ptrs.push(ptr);
        }
    }

    let mut keep_ptrs = Vec::new();
    for (i, ptr) in all_ptrs.into_iter().enumerate() {
        if i % 2 == 0 {
            keep_ptrs.push(ptr);
        } else {
            slab.dealloc(ptr);
        }
    }

    for _ in 0..16 {
        if let Some(ptr) = slab_alloc(&mut slab, &mut pages) {
            keep_ptrs.push(ptr);
        }
    }

    for ptr in keep_ptrs {
        slab.dealloc(ptr);
    }
}

#[test]
fn slab_stops_at_its_page_limit() {
    let mut slab = Slab::new(1024);
    let mut pages = 0x10_0000;
    let mut count = 0;
    while let Some(_) = slab_alloc(&mut slab, &mut pages) {
        count += 1;
    }
    assert_eq!(count, MAX_SLAB_PAGES * (PAGE_SIZE / 1024));
    assert_eq!(slab.pages().len(), MAX_SLAB_PAGES);
    assert_eq!(slab.allocate(), SlabStep::Full);
}

#[test]
fn slab_asks_for_first_page_then_next() {
    let mut slab = Slab::new(2048);
    assert_eq!(slab.allocate(), SlabStep::NeedPage(PageRequest::First));
    assert_eq!(slab.add_page(PageRequest::First, 0x20_0000), SlabStep::Slot(0x20_0000));
    assert_eq!(slab.allocate(), SlabStep::Slot(0x20_0800));
    assert_eq!(slab.allocate(), SlabStep::NeedPage(PageRequest::Next));
    assert_eq!(slab.add_page(PageRequest::Next, 0x30_0000), SlabStep::Slot(0x30_0000));
}

#[test]
fn slab_ignores_foreign_pointers() {
    let mut slab = Slab::new(64);
    let mut pages = 0x10_0000;
    let a = slab_alloc(&mut slab, &mut pages).unwrap();
    slab.dealloc(0x99_0000);
    let b = slab_alloc(&mut slab, &mut pages).unwrap();
    assert_eq!(b, a + 64);
}

#[test]
fn slab_hands_out_distinct_aligned_slots_until_full() {
    let slot = 256;
    let mut slab = Slab::new(slot);
    let mut pages = 0x20_0000;
    let mut seen: Vec<usize> = Vec::new();
    while let Some(p) = slab_alloc(&mut slab, &mut pages) {
        assert_eq!(p % slot, 0);
        assert!(!seen.contains(&p));
        seen.push(p);
    }
    assert_eq!(seen.len(), MAX_SLAB_PAGES * (PAGE_SIZE / slot));
    assert_eq!(slab.allocate(), SlabStep::Full);
}
