use aethalloc::compactor::{compact_pages, try_relocate_page, CompactError, CompactResult, ErrnoCodes};
use aethalloc::page_table::{pagemap_file_offset, sparse_counts, worth_compacting, PageMapEntry, PageTableTracker};

#[test]
fn test_compact_result() {
    assert_eq!(CompactResult::Success, CompactResult::Success);
    assert_ne!(CompactResult::Success, CompactResult::NoAction);
}

#[test]
fn test_pagemap_entry_present() {
    let entry = PageMapEntry::new(1u64 << 63);
    assert!(entry.is_present());
    assert!(!entry.is_swapped());
}

#[test]
fn test_pagemap_entry_swapped() {
    let entry = PageMapEntry::new(1u64 << 62);
    assert!(entry.is_swapped());
    assert!(!entry.is_present());
}

#[test]
fn test_pagemap_entry_pfn() {
    let entry = PageMapEntry::new(0x1234);
    assert_eq!(entry.page_frame_number(), 0x1234);
}

#[test]
fn pagemap_entry_flags_and_address() {
    let entry = PageMapEntry::new((1u64 << 63) | (1u64 << 61) | 0x42);
    assert!(entry.is_present());
    assert!(entry.is_file_mapped());
    assert_eq!(entry.physical_address(), Some(0x42 * 4096));
    assert_eq!(PageMapEntry::new(0x42).physical_address(), None);
    assert_eq!(PageMapEntry::new((1u64 << 63) | (1u64 << 62) | 0x42).physical_address(), None);
    assert_eq!(PageMapEntry::new(u64::MAX).page_frame_number(), 0x007F_FFFF_FFFF_FFFF);
}

#[test]
fn pagemap_offsets() {
    assert_eq!(pagemap_file_offset(0), 0);
    assert_eq!(pagemap_file_offset(4095), 0);
    assert_eq!(pagemap_file_offset(0x7fff_0000), (0x7fff_0000 / 4096) * 8);
}

#[test]
fn tracker_compares_frames() {
    let tracker = PageTableTracker::new(None);
    let a = PageMapEntry::new((1u64 << 63) | 7);
    let b = PageMapEntry::new((1u64 << 63) | 7);
    let c = PageMapEntry::new(7);
    assert!(tracker.same_physical_page(Some(a), Some(b)));
    assert!(!tracker.same_physical_page(Some(a), Some(c)));
    assert!(!tracker.same_physical_page(Some(a), None));
    assert_eq!(tracker.physical_address(Some(a)), Some(7 * 4096));
    assert_eq!(tracker.physical_address(None), None);
}

#[test]
fn relocation_is_not_implemented() {
    assert!(matches!(try_relocate_page(0x1000, 4096), Err(CompactError::Unknown(_))));
}

#[test]
fn compaction_outcomes() {
    let pages = vec![0x1000usize, 0x2000, 0x3000];
    let sizes = vec![4096usize, 4096, 4096];
    assert_eq!(compact_pages(4, 256, &pages, &sizes), CompactResult::NoAction);
    assert_eq!(compact_pages(2, 256, &pages, &vec![4096usize]), CompactResult::Failed(CompactError::InvalidAddress));
    assert_eq!(compact_pages(2, 256, &pages, &sizes), CompactResult::NoAction);
}

#[test]
fn errno_numbers_map_to_compaction_errors() {
    let codes = ErrnoCodes { eacces: 13, enomem: 12, efault: 14, eperm: 1 };
    assert_eq!(CompactError::from_errno_code(13, codes), CompactError::PermissionDenied);
    assert_eq!(CompactError::from_errno_code(12, codes), CompactError::OutOfMemory);
    assert_eq!(CompactError::from_errno_code(14, codes), CompactError::InvalidAddress);
    assert_eq!(CompactError::from_errno_code(1, codes), CompactError::PermissionDenied);
    assert_eq!(CompactError::from_errno_code(38, codes), CompactError::Unknown(38));
    assert_eq!(CompactError::from_errno(9999), CompactError::Unknown(9999));
}

#[test]
fn sparse_pages_are_counted() {
    let present = PageMapEntry::new(1u64 << 63);
    let absent = PageMapEntry::new(0);
    let swapped = PageMapEntry::new((1u64 << 63) | (1u64 << 62));
    let entries = vec![Some(present), None, Some(absent), Some(swapped), Some(present)];
    assert_eq!(sparse_counts(&entries), (4, 2));
    assert!(!worth_compacting(4096));
    assert!(worth_compacting(8192));
}
