use aethalloc::global_pool::{GlobalPools, GlobalSlabPool};

#[test]
fn test_global_pool_push_pop_single() {
    let mut pools = GlobalPools::new();
    let block = vec![0u8; 64];
    let ptr = block.as_ptr() as usize;
    assert!(ptr != 0);

    pools.push(0, ptr);

    let popped = pools.pop(0);
    assert!(popped.is_some());
    assert_eq!(popped.unwrap(), ptr);
}

#[test]
fn test_global_pool_pop_empty() {
    let mut pools = GlobalPools::new();

    assert!(pools.pop(0).is_none());
    assert!(pools.pop(5).is_none());
    assert!(pools.pop(15).is_none());
}

#[test]
fn test_global_pool_multiple_push_pop() {
    let mut pools = GlobalPools::new();
    let blocks: Vec<Vec<u8>> = (0..10).map(|_| vec![0u8; 64]).collect();
    let ptrs: Vec<usize> = blocks.iter().map(|b| b.as_ptr() as usize).collect();

    for &ptr in &ptrs {
        pools.push(0, ptr);
    }

    let mut popped_count = 0;
    while let Some(_) = pools.pop(0) {
        popped_count += 1;
    }

    assert_eq!(popped_count, 10);
}

#[test]
fn test_global_pool_different_size_classes() {
    let mut pools = GlobalPools::new();

    pools.push(0, 0x1000);
    pools.push(5, 0x2000);
    pools.push(10, 0x3000);

    assert!(pools.pop(0).is_some());
    assert!(pools.pop(5).is_some());
    assert!(pools.pop(10).is_some());
}

#[test]
fn test_global_pool_lifo_order() {
    let mut pools = GlobalPools::new();

    let ptr1: usize = 0x1000;
    let ptr2: usize = 0x2000;
    let ptr3: usize = 0x3000;

    pools.push(0, ptr1);
    pools.push(0, ptr2);
    pools.push(0, ptr3);

    // LIFO: should get ptr3, ptr2, ptr1
    assert_eq!(pools.pop(0).unwrap(), ptr3);
    assert_eq!(pools.pop(0).unwrap(), ptr2);
    assert_eq!(pools.pop(0).unwrap(), ptr1);
}

#[test]
fn out_of_range_class_is_ignored() {
    let mut pools = GlobalPools::new();
    pools.push(16, 0x1000);
    assert!(pools.pop(16).is_none());
    assert!(pools.get_pool(16).is_none());
    assert!(pools.get_pool(15).is_some());
}

#[test]
fn slab_pool_is_a_stack() {
    let mut pool = GlobalSlabPool::new();
    pool.push(1);
    pool.push(2);
    assert_eq!(pool.pop(), Some(2));
    assert_eq!(pool.pop(), Some(1));
    assert_eq!(pool.pop(), None);
}
