use aethalloc::magazine::{
    GlobalMagazinePool, GlobalMagazinePools, Magazine, MagazineNode, MetadataAllocator, NodeSlot, MAGAZINE_CAPACITY,
    NODE_SIZE, PAGE_SIZE,
};

#[test]
fn test_magazine_push_pop() {
    let mut mag = Magazine::new();
    assert!(mag.is_empty());

    let ptr1: usize = 0x1000;
    let ptr2: usize = 0x2000;

    assert!(mag.push(ptr1));
    assert!(mag.push(ptr2));
    assert_eq!(mag.count, 2);

    assert_eq!(mag.pop(), Some(ptr2));
    assert_eq!(mag.pop(), Some(ptr1));
    assert!(mag.is_empty());
}

#[test]
fn test_magazine_capacity() {
    let mut mag = Magazine::new();
    for i in 0..MAGAZINE_CAPACITY {
        assert!(mag.push(i + 1));
    }
    assert!(mag.is_full());
    assert!(!mag.push(0xFFFF));
}

#[test]
fn test_pool_push_pop() {
    let mut pool = GlobalMagazinePool::new();

    let mut node = MagazineNode::new();
    node.next = 0x7000;
    pool.push_full(node.clone());

    let popped = pool.pop_full();
    assert!(popped.is_some());
    assert_eq!(popped.unwrap(), node);
}

#[test]
fn test_symmetric_stacks() {
    let mut pool = GlobalMagazinePool::new();

    // Create and fill a magazine
    let mut node = MagazineNode::new();
    for i in 0..MAGAZINE_CAPACITY {
        assert!(node.magazine.push(i + 1));
    }

    // Push to full, pop from full
    pool.push_full(node);
    let full = pool.pop_full();
    assert!(full.is_some());

    // Clear and push to empty
    let mut full = full.unwrap();
    full.magazine.clear();
    pool.push_empty(full);

    // Pop from empty
    let empty = pool.pop_empty();
    assert!(empty.is_some());
    assert!(empty.unwrap().magazine.is_empty());
}

#[test]
fn bulk_init_fills_up_to_capacity() {
    let mut mag = Magazine::new();
    assert!(mag.push(0x10));
    mag.bulk_init(0x1000, 80, 100);
    assert_eq!(mag.len(), MAGAZINE_CAPACITY);
    assert_eq!(mag.pop(), Some(0x1000 + 62 * 80));
    let mut mag = Magazine::new();
    mag.bulk_init(0x2000, 32, 3);
    assert_eq!(mag.len(), 3);
    assert_eq!(mag.pop(), Some(0x2040));
    assert_eq!(mag.pop(), Some(0x2020));
    assert_eq!(mag.pop(), Some(0x2000));
    assert_eq!(mag.pop(), None);
}

#[test]
fn full_depth_is_capped() {
    let mut pool = GlobalMagazinePool::new();
    assert_eq!(pool.full_depth(), 0);
    for _ in 0..12 {
        pool.push_full(MagazineNode::new());
    }
    assert_eq!(pool.full_depth(), 9);
}

#[test]
fn pools_have_one_pool_per_class() {
    let pools = GlobalMagazinePools::new();
    assert_eq!(pools.pools.len(), 13);
    assert_eq!(pools.get(12).full_depth(), 0);
}

#[test]
fn metadata_allocator_carves_nodes() {
    let mut meta = MetadataAllocator::new();
    assert_eq!(meta.alloc_node(), NodeSlot::NeedPage);
    assert_eq!(meta.install_page(0x10_0000), 0x10_0000);
    let per_page = PAGE_SIZE / NODE_SIZE;
    for i in 1..per_page {
        assert_eq!(meta.alloc_node(), NodeSlot::Carved(0x10_0000 + i * NODE_SIZE));
    }
    assert_eq!(meta.alloc_node(), NodeSlot::NeedPage);
}

#[test]
fn clear_drops_the_count_and_keeps_the_storage() {
    let mut mag = Magazine::new();
    assert!(mag.push(0x1000));
    assert!(mag.push(0x2000));
    let before = mag.blocks.clone();
    mag.clear();
    assert_eq!(mag.len(), 0);
    assert!(mag.is_empty());
    assert_eq!(mag.pop(), None);
    assert_eq!(mag.blocks, before);
}
