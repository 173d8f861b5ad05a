use aethalloc::abi::{
    aligned_alloc_layout, calloc_total, layout_fits, malloc_layout, posix_memalign_check, posix_memalign_status,
    realloc_step, ReallocStep, EINVAL, ENOMEM,
};
use aethalloc::global::{PageHeader, MAGIC};

#[test]
fn layouts() {
    assert!(layout_fits(0, 1));
    assert!(layout_fits(100, 8));
    assert!(!layout_fits(100, 0));
    assert!(!layout_fits(100, 24));
    assert!(layout_fits(isize::MAX as usize - 7, 8));
    assert!(!layout_fits(isize::MAX as usize - 6, 8));
}

#[test]
fn malloc_requests() {
    assert_eq!(malloc_layout(0), None);
    assert_eq!(malloc_layout(10), Some((10, 8)));
    assert_eq!(malloc_layout(usize::MAX), None);
}

#[test]
fn calloc_totals() {
    assert_eq!(calloc_total(10, 20), Some(200));
    assert_eq!(calloc_total(0, 20), Some(0));
    assert_eq!(calloc_total(usize::MAX, 2), None);
}

#[test]
fn aligned_alloc_requests() {
    assert_eq!(aligned_alloc_layout(0, 10), None);
    assert_eq!(aligned_alloc_layout(24, 10), None);
    assert_eq!(aligned_alloc_layout(64, 0), Some((1, 64)));
    assert_eq!(aligned_alloc_layout(64, 100), Some((100, 64)));
    assert_eq!(aligned_alloc_layout(64, usize::MAX), None);
}

#[test]
fn posix_memalign_statuses() {
    assert_eq!(posix_memalign_check(0), Some(EINVAL));
    assert_eq!(posix_memalign_check(4), Some(EINVAL));
    assert_eq!(posix_memalign_check(24), Some(EINVAL));
    assert_eq!(posix_memalign_check(16), None);
    assert_eq!(posix_memalign_status(false, 10), ENOMEM);
    assert_eq!(posix_memalign_status(false, 0), 0);
    assert_eq!(posix_memalign_status(true, 10), 0);
}

#[test]
fn realloc_steps() {
    let header = PageHeader { magic: MAGIC, num_pages: 50, requested_size: 100000, tag: 3 };
    assert_eq!(realloc_step(0, 10, 0, None), ReallocStep::Malloc { size: 10 });
    assert_eq!(realloc_step(0x1000, 0, 64, None), ReallocStep::FreeAndNull);
    assert_eq!(realloc_step(0x1000, 10, 0, None), ReallocStep::Null);
    assert_eq!(realloc_step(0x1000, 10, 64, None), ReallocStep::Keep);
    assert_eq!(realloc_step(0x1000, 100, 64, None), ReallocStep::Move { size: 100, copy: 64 });
    assert_eq!(
        realloc_step(0x1000, 150000, 100000, Some(header)),
        ReallocStep::Resize { header: PageHeader { magic: MAGIC, num_pages: 50, requested_size: 150000, tag: 3 } }
    );
    let capacity = 50 * 4096 - 24 - 16 - 8;
    assert_eq!(
        realloc_step(0x1000, capacity + 1, 100000, Some(header)),
        ReallocStep::Move { size: capacity + 1, copy: 100000 }
    );
    let bad = PageHeader { magic: 0, ..header };
    assert_eq!(realloc_step(0x1000, 150000, 100000, Some(bad)), ReallocStep::Move { size: 150000, copy: 100000 });
}
