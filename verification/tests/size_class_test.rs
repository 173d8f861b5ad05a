use aethalloc::size_class::{power_of_two, round_up_pow2, slab_index, SizeClass};

#[test]
fn test_classify_zero() {
    assert_eq!(SizeClass::classify(0), SizeClass::Tiny);
}

#[test]
fn test_classify_tiny() {
    assert_eq!(SizeClass::classify(1), SizeClass::Tiny);
    assert_eq!(SizeClass::classify(16), SizeClass::Tiny);
    assert_eq!(SizeClass::classify(64), SizeClass::Tiny);
    assert_eq!(SizeClass::classify(128), SizeClass::Tiny);
}

#[test]
fn test_classify_small() {
    assert_eq!(SizeClass::classify(129), SizeClass::Small);
    assert_eq!(SizeClass::classify(256), SizeClass::Small);
    assert_eq!(SizeClass::classify(4096), SizeClass::Small);
    assert_eq!(SizeClass::classify(8192), SizeClass::Small);
}

#[test]
fn test_classify_medium() {
    assert_eq!(SizeClass::classify(8193), SizeClass::Medium);
    assert_eq!(SizeClass::classify(16384), SizeClass::Medium);
    assert_eq!(SizeClass::classify(262144), SizeClass::Medium);
}

#[test]
fn test_classify_large() {
    assert_eq!(SizeClass::classify(262145), SizeClass::Large);
    assert_eq!(SizeClass::classify(1024 * 1024), SizeClass::Large);
}

#[test]
fn size_class_test_round_up_pow2() {
    assert_eq!(round_up_pow2(0), 1);
    assert_eq!(round_up_pow2(1), 1);
    assert_eq!(round_up_pow2(2), 2);
    assert_eq!(round_up_pow2(3), 4);
    assert_eq!(round_up_pow2(4), 4);
    assert_eq!(round_up_pow2(5), 8);
    assert_eq!(round_up_pow2(1023), 1024);
    assert_eq!(round_up_pow2(1024), 1024);
    assert_eq!(round_up_pow2(1025), 2048);
}

#[test]
fn test_slab_index() {
    assert_eq!(slab_index(16), Some(0));
    assert_eq!(slab_index(32), Some(1));
    assert_eq!(slab_index(64), Some(2));
    assert_eq!(slab_index(128), Some(3));
    assert_eq!(slab_index(256), Some(4));
    assert_eq!(slab_index(512), Some(5));
    assert_eq!(slab_index(1024), Some(6));
    assert_eq!(slab_index(2048), Some(7));
    assert_eq!(slab_index(4096), Some(8));
    assert_eq!(slab_index(8192), Some(9));
    assert_eq!(slab_index(0), None);
    assert_eq!(slab_index(8), None);
    assert_eq!(slab_index(16384), None);
}

#[test]
fn test_tiny_classification() {
    assert!(matches!(SizeClass::classify(16), SizeClass::Tiny));
    assert!(matches!(SizeClass::classify(128), SizeClass::Tiny));
}

#[test]
fn test_small_classification() {
    assert!(matches!(SizeClass::classify(256), SizeClass::Small));
    assert!(matches!(SizeClass::classify(8192), SizeClass::Small));
}

#[test]
fn test_medium_classification() {
    assert!(matches!(SizeClass::classify(16384), SizeClass::Medium));
    assert!(matches!(SizeClass::classify(262144), SizeClass::Medium));
}

#[test]
fn test_large_classification() {
    assert!(matches!(SizeClass::classify(262145), SizeClass::Large));
}

#[test]
fn size_class_test_test_round_up_pow2() {
    assert_eq!(round_up_pow2(1), 1);
    assert_eq!(round_up_pow2(3), 4);
    assert_eq!(round_up_pow2(1025), 2048);
}

#[test]
fn test_slab_index_valid() {
    assert_eq!(slab_index(16), Some(0));
    assert_eq!(slab_index(32), Some(1));
    assert_eq!(slab_index(64), Some(2));
    assert_eq!(slab_index(128), Some(3));
    assert_eq!(slab_index(256), Some(4));
    assert_eq!(slab_index(4096), Some(8));
    assert_eq!(slab_index(8192), Some(9));
}

#[test]
fn test_slab_index_invalid() {
    assert_eq!(slab_index(0), None);
    assert_eq!(slab_index(8), None);
    assert_eq!(slab_index(16384), None);
}

#[test]
fn test_size_class_boundaries() {
    assert_eq!(SizeClass::classify(16), SizeClass::Tiny);
    assert_eq!(SizeClass::classify(128), SizeClass::Tiny);
    assert_eq!(SizeClass::classify(256), SizeClass::Small);
    assert_eq!(SizeClass::classify(8192), SizeClass::Small);
    assert_eq!(SizeClass::classify(16384), SizeClass::Medium);
    assert_eq!(SizeClass::classify(262144), SizeClass::Medium);
    assert_eq!(SizeClass::classify(262145), SizeClass::Large);
}

#[test]
fn alloc_size_per_class() {
    assert_eq!(SizeClass::Tiny.alloc_size(0), 16);
    assert_eq!(SizeClass::Tiny.alloc_size(5), 16);
    assert_eq!(SizeClass::Tiny.alloc_size(100), 128);
    assert_eq!(SizeClass::Small.alloc_size(3000), 4096);
    assert_eq!(SizeClass::Medium.alloc_size(20000), 32768);
    assert_eq!(SizeClass::Large.alloc_size(262145), 266240);
    assert_eq!(SizeClass::Large.alloc_size(4096), 4096);
}

#[test]
fn alloc_size_covers_request() {
    for size in [0usize, 1, 15, 16, 17, 128, 129, 5000, 8192, 8193, 100000, 262144, 262145, 1 << 20] {
        let class = SizeClass::classify(size);
        assert!(class.alloc_size(size) >= size);
    }
}

#[test]
fn round_up_pow2_large_values() {
    assert_eq!(round_up_pow2(usize::MAX / 2), usize::MAX / 2 + 1);
    assert_eq!(round_up_pow2(usize::MAX / 2 + 1), usize::MAX / 2 + 1);
}

#[test]
fn power_of_two_checks() {
    assert!(!power_of_two(0));
    assert!(power_of_two(1));
    assert!(power_of_two(2));
    assert!(!power_of_two(3));
    assert!(power_of_two(4096));
    assert!(!power_of_two(4097));
    assert!(power_of_two(usize::MAX / 2 + 1));
    assert!(!power_of_two(usize::MAX));
}
