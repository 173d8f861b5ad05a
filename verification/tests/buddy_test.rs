use aethalloc::buddy::{BuddyAlloc, BuddyAllocator};

/// Allocates from `buddy`, giving it a region at `region` when it asks for one.
fn buddy_alloc(buddy: &mut BuddyAllocator, size: usize, region: usize) -> Option<usize> {
    match buddy.allocate(size) {
        BuddyAlloc::Block(p) => Some(p),
        BuddyAlloc::Invalid => None,
        BuddyAlloc::NeedRegion { pages, size: region_size } => {
            assert_eq!(pages * 4096, region_size);
            buddy.init(region, region_size);
            match buddy.allocate(size) {
                BuddyAlloc::Block(p) => Some(p),
                _ => None,
            }
        }
    }
}

const REGION: usize = 0x4000_0000;

#[test]
fn test_buddy_alloc_dealloc() {
    let mut buddy = BuddyAllocator::new();

    let ptr = buddy_alloc(&mut buddy, 16 * 1024, REGION).expect("16KB allocation should succeed");

    buddy.dealloc(ptr, 16 * 1024);
}

#[test]
fn test_buddy_various_sizes() {
    let mut buddy = BuddyAllocator::new();

    for &size in &[16384, 32768, 65536, 131072, 262144] {
        let ptr = buddy_alloc(&mut buddy, size, REGION).expect("allocation should succeed");
        // Just verify allocation succeeded
        let _ = ptr;

        buddy.dealloc(ptr, size);
    }
}

#[test]
fn test_buddy_split_and_coalesce() {
    let mut buddy = BuddyAllocator::new();

    // Allocate a large block
    let ptr1 = buddy_alloc(&mut buddy, 262144, REGION).expect("256KB allocation should succeed");

    // Free it
    buddy.dealloc(ptr1, 262144);

    // Now allocate smaller blocks - should reuse the coalesced space
    let ptr2 = buddy_alloc(&mut buddy, 16384, REGION).expect("16KB allocation should succeed");
    let ptr3 = buddy_alloc(&mut buddy, 16384, REGION).expect("second 16KB allocation should succeed");

    assert_ne!(ptr2, ptr3);

    buddy.dealloc(ptr2, 16384);
    buddy.dealloc(ptr3, 16384);
}

#[test]
fn test_buddy_invalid_sizes() {
    let mut buddy = BuddyAllocator::new();

    // Too small
    assert!(buddy_alloc(&mut buddy, 8192, REGION).is_none());

    // Too large
    assert!(buddy_alloc(&mut buddy, 524288, REGION).is_none());
}

#[test]
fn test_stress_buddy_allocator() {
    let mut buddy = BuddyAllocator::new();

    let sizes = [16 * 1024, 32 * 1024, 64 * 1024, 128 * 1024];
    let mut allocations = Vec::new();

    buddy.init(REGION, 64 * 4096);

    for _ in 0..10 {
        for &size in &sizes {
            if let BuddyAlloc::Block(ptr) = buddy.allocate(size) {
                allocations.push((ptr, size));
            }
        }
    }

    for (ptr, size) in allocations {
        buddy.dealloc(ptr, size);
    }
}

#[test]
fn split_hands_out_the_lower_half_first() {
    let mut buddy = BuddyAllocator::new();
    buddy.init(REGION, 262144);
    assert_eq!(buddy.allocate(16384), BuddyAlloc::Block(REGION));
    assert_eq!(buddy.allocate(16384), BuddyAlloc::Block(REGION + 16384));
    assert_eq!(buddy.allocate(32768), BuddyAlloc::Block(REGION + 32768));
    assert_eq!(buddy.allocate(65536), BuddyAlloc::Block(REGION + 65536));
    assert_eq!(buddy.allocate(131072), BuddyAlloc::Block(REGION + 131072));
    assert_eq!(buddy.allocate(16384), BuddyAlloc::NeedRegion { pages: 64, size: 262144 });
}

#[test]
fn freeing_everything_coalesces_back_to_one_block() {
    let mut buddy = BuddyAllocator::new();
    buddy.init(REGION, 262144);
    let a = buddy_alloc(&mut buddy, 16384, REGION).unwrap();
    let b = buddy_alloc(&mut buddy, 16384, REGION).unwrap();
    let c = buddy_alloc(&mut buddy, 32768, REGION).unwrap();
    buddy.dealloc(b, 16384);
    buddy.dealloc(a, 16384);
    buddy.dealloc(c, 32768);
    // The 64 KiB above is still free from the first split, so the whole
    // region is one free block again.
    assert_eq!(buddy.allocate(262144), BuddyAlloc::Block(REGION));
}

#[test]
fn region_to_unmap_after_init() {
    let mut buddy = BuddyAllocator::new();
    assert_eq!(buddy.region_to_unmap(), None);
    buddy.init(REGION, 64 * 4096);
    assert_eq!(buddy.region_to_unmap(), Some((REGION, 64)));
}

#[test]
fn alloc_then_free_restores_the_region() {
    for order in 14..=18 {
        let mut buddy = BuddyAllocator::new();
        buddy.init(REGION, 262144);
        let size = 1usize << order;
        assert_eq!(buddy.allocate(size), BuddyAlloc::Block(REGION));
        buddy.dealloc(REGION, size);
        assert_eq!(buddy.allocate(262144), BuddyAlloc::Block(REGION));
    }
}

#[test]
fn two_halves_of_a_region_do_not_overlap() {
    let mut buddy = BuddyAllocator::new();
    buddy.init(REGION, 262144);
    let a = match buddy.allocate(131072) {
        BuddyAlloc::Block(p) => p,
        other => panic!("unexpected {:?}", other),
    };
    let b = match buddy.allocate(131072) {
        BuddyAlloc::Block(p) => p,
        other => panic!("unexpected {:?}", other),
    };
    assert!(a + 131072 <= b || b + 131072 <= a);
    assert!(REGION <= a && a + 131072 <= REGION + 262144);
    assert!(REGION <= b && b + 131072 <= REGION + 262144);
}
