use aethalloc::cheri::permissions;
use aethalloc::cheri::{capability_usable, CapabilityMeta, CheriTagManager};
use aethalloc::hess::{tag_allocation, verify_tag};
use aethalloc::mte::{mte_supported_from_register, MteTagManager};
use aethalloc::tag_manager::{SoftwareTagManager, TagError, TagManager, TaggedAllocation, MAX_TAG, MIN_TAG};
use aethalloc::x86::{CpuidLeaf, X86FeatureFlags, X86TagManager};

#[test]
fn test_cheri_tag_manager_creation() {
    let manager = CheriTagManager::new();
    assert_eq!(manager.used_tags(), 0);
}

#[test]
fn test_cheri_tag_allocate() {
    let mut manager = CheriTagManager::new();
    let tag = manager.allocate_tag().unwrap();
    assert!(tag >= 1 && tag <= MAX_TAG);
}

#[test]
fn test_cheri_tag_free() {
    let mut manager = CheriTagManager::new();
    let tag = manager.allocate_tag().unwrap();
    manager.free_tag(tag).unwrap();
}

#[test]
fn test_capability_meta() {
    let meta = CapabilityMeta {
        base: 0x1000,
        length: 4096,
        offset: 0,
        permissions: permissions::READ_WRITE,
        tag: true,
    };
    assert_eq!(meta.base, 0x1000);
    assert_eq!(meta.length, 4096);
}

#[test]
fn test_permissions() {
    assert_eq!(
        permissions::READ_WRITE,
        permissions::LOAD | permissions::STORE | permissions::LOAD_CAP | permissions::STORE_CAP
    );
}

#[test]
fn test_mte_tag_manager_creation() {
    let manager = MteTagManager::new();
    assert_eq!(manager.used_tags(), 0);
}

#[test]
fn test_mte_tag_allocate() {
    let mut manager = MteTagManager::new();
    let tag = manager.allocate_tag().unwrap();
    assert!(tag >= MIN_TAG && tag <= MAX_TAG);
}

#[test]
fn test_software_tag_manager_allocate() {
    let mut manager = SoftwareTagManager::new();
    let tag = manager.allocate_tag().unwrap();
    assert!(tag >= MIN_TAG && tag <= MAX_TAG);
}

#[test]
fn test_software_tag_manager_free_reuse() {
    let mut manager = SoftwareTagManager::new();
    let _tag1 = manager.allocate_tag().unwrap();
    let tag2 = manager.allocate_tag().unwrap();
    manager.free_tag(tag2).unwrap();
    let _tag3 = manager.allocate_tag().unwrap();
}

#[test]
fn test_software_tag_manager_tag_pointer() {
    let manager = SoftwareTagManager::new();
    let ptr: u64 = 0x1000;
    let tagged = manager.tag_pointer(ptr, 5).unwrap();
    let extracted_tag = manager.get_tag(tagged);
    assert_eq!(extracted_tag, 5);
}

#[test]
fn test_software_tag_manager_untag_pointer() {
    let manager = SoftwareTagManager::new();
    let ptr: u64 = 0x1000;
    let tagged = manager.tag_pointer(ptr, 7).unwrap();
    let untagged = manager.untag_pointer(tagged);
    assert_eq!(untagged, ptr);
}

#[test]
fn test_tagged_allocation() {
    let buffer = [0u8; 64];
    let ptr = buffer.as_ptr() as u64;
    let alloc = TaggedAllocation::new(ptr, 64, 3);
    assert_eq!(alloc.size, 64);
    assert_eq!(alloc.tag, 3);
}

#[test]
fn test_tag_out_of_range() {
    let manager = SoftwareTagManager::new();
    let ptr: u64 = 0x1000;
    assert!(manager.tag_pointer(ptr, 20).is_err());
}

#[test]
fn test_feature_detection() {
    let flags = X86FeatureFlags::detect();
    let _ = flags.has_hardware_tagging();
}

#[test]
fn test_tag_manager() {
    let mut mgr = X86TagManager::default();
    let tag = mgr.allocate_tag().unwrap();
    assert!(tag >= 1 && tag <= 15);
}

#[test]
fn software_tags_are_handed_out_round_robin() {
    let mut manager = SoftwareTagManager::new();
    assert_eq!(manager.allocate_tag(), Ok(1));
    assert_eq!(manager.allocate_tag(), Ok(2));
    assert_eq!(manager.allocate_tag(), Ok(3));
    manager.free_tag(2).unwrap();
    for expected in 4..=15u16 {
        assert_eq!(manager.allocate_tag(), Ok(expected));
    }
    // The cursor wraps around: 1 and 3 are still taken, 2 was freed.
    assert_eq!(manager.allocate_tag(), Ok(2));
    assert_eq!(manager.allocate_tag(), Err(TagError::OutOfTags));
}

#[test]
fn software_free_of_invalid_tag() {
    let mut manager = SoftwareTagManager::new();
    assert_eq!(manager.free_tag(0), Err(TagError::InvalidTag));
    assert_eq!(manager.free_tag(16), Err(TagError::InvalidTag));
}

#[test]
fn software_tag_roundtrip_keeps_address() {
    let manager = SoftwareTagManager::new();
    let ptr: u64 = 0x0000_7fff_dead_b000;
    for tag in 0..=MAX_TAG {
        let tagged = manager.tag_pointer(ptr, tag).unwrap();
        assert_eq!(manager.get_tag(tagged), tag);
        assert_eq!(manager.untag_pointer(tagged), ptr);
    }
    assert_eq!(manager.tag_pointer(ptr, 9).unwrap(), 0x0900_7fff_dead_b000);
}

#[test]
fn cheri_first_fit_and_out_of_tags() {
    let mut manager = CheriTagManager::new();
    for expected in 1..=15u16 {
        assert_eq!(manager.allocate_tag(), Ok(expected));
    }
    assert_eq!(manager.allocate_tag(), Err(TagError::OutOfTags));
    manager.free_tag(7).unwrap();
    assert_eq!(manager.allocate_tag(), Ok(7));
    assert_eq!(manager.free_tag(0), Err(TagError::InvalidTag));
    assert_eq!(manager.tag_pointer(0x1234, 3), Ok(0x1234));
}

#[test]
fn mte_marks_and_frees_tags() {
    let mut manager = MteTagManager::new();
    let tag = manager.allocate_tag().unwrap();
    assert!(manager.is_tag_used(tag));
    manager.free_tag(tag).unwrap();
    assert!(!manager.is_tag_used(tag));
    assert_eq!(manager.free_tag(16), Err(TagError::InvalidTag));
}

#[test]
fn x86_flags_from_intel_leaves() {
    let intel = CpuidLeaf { leaf: 0, eax: 7, ebx: 0x756e_6547, ecx: 0x6c65_746e, edx: 0x4965_6e69 };
    let leaf7 = CpuidLeaf { leaf: 7, eax: 0, ebx: 0, ecx: 1 << 16, edx: 1 << 26 };
    let none = CpuidLeaf { leaf: 0, eax: 0, ebx: 0, ecx: 0, edx: 0 };
    let flags = X86FeatureFlags::from_leaves(intel, leaf7, none, none);
    assert!(flags.has_intel_lam);
    assert!(!flags.has_amd_uai);
    assert!(flags.has_la57);
    assert!(flags.has_hardware_tagging());
}

#[test]
fn x86_flags_from_amd_leaves() {
    // A real AMD part reports a small basic leaf count in leaf 0.
    let amd = CpuidLeaf { leaf: 0, eax: 0x10, ebx: 0x6874_7541, ecx: 0x444d_4163, edx: 0x6974_6e65 };
    let max_ext = CpuidLeaf { leaf: 0x8000_0000, eax: 0x8000_0001, ebx: 0, ecx: 0, edx: 0 };
    let ext = CpuidLeaf { leaf: 0x8000_0001, eax: 0, ebx: 0, ecx: 1 << 6, edx: 0 };
    let none = CpuidLeaf { leaf: 0, eax: 0, ebx: 0, ecx: 0, edx: 0 };
    let flags = X86FeatureFlags::from_leaves(amd, none, max_ext, ext);
    assert!(!flags.has_intel_lam);
    assert!(flags.has_amd_uai);
    assert!(!flags.has_la57);
    let short_ext = CpuidLeaf { leaf: 0x8000_0000, eax: 0x8000_0000, ebx: 0, ecx: 0, edx: 0 };
    assert!(!X86FeatureFlags::from_leaves(amd, none, short_ext, none).has_amd_uai);
}

#[test]
fn x86_tagging_without_hardware_support() {
    let none = X86FeatureFlags { has_intel_lam: false, has_amd_uai: false, has_la57: false };
    let mgr = X86TagManager::with_features(none);
    let tagged = mgr.tag_pointer(0x1000, 5);
    assert_eq!(tagged, 0x0005_0000_0000_1000);
    assert_eq!(mgr.get_tag(tagged), 5);
    assert_eq!(mgr.untag_pointer(tagged), 0x1000);
    assert_eq!(mgr.tag_pointer(0x1000, 16), 0x1000);
}

#[test]
fn x86_tagging_with_lam() {
    let lam = X86FeatureFlags { has_intel_lam: true, has_amd_uai: false, has_la57: false };
    let mgr = X86TagManager::with_features(lam);
    let tagged = mgr.tag_pointer(0x1000, 5);
    assert_eq!(tagged, 0x0500_0000_0000_1000);
    assert_eq!(mgr.get_tag(tagged), 5);
    assert_eq!(mgr.untag_pointer(tagged), 0x1000);
}

#[test]
fn tag_allocation_then_verify() {
    let a = tag_allocation(0x1000, 64);
    assert_eq!(a.tag, MIN_TAG);
    assert_eq!(a.size, 64);
    assert_eq!(a.as_ptr(), 0x0100_0000_0000_1000);
    assert!(verify_tag(a.ptr, a.tag));
    assert!(!verify_tag(a.ptr, 2));
    assert!(verify_tag(0x1000, 0));
}

#[test]
fn mte_marks_by_hand() {
    let mut manager = MteTagManager::new();
    manager.mark_tag_used(4);
    assert!(manager.is_tag_used(4));
    assert_eq!(manager.used_tags(), 1 << 4);
    manager.mark_tag_free(4);
    assert!(!manager.is_tag_used(4));
}

#[test]
fn capabilities_need_all_permissions_and_a_tag() {
    assert!(capability_usable(permissions::ALL, permissions::READ_WRITE, true));
    assert!(!capability_usable(permissions::LOAD, permissions::READ_WRITE, true));
    assert!(!capability_usable(permissions::ALL, permissions::READ_WRITE, false));
}

#[test]
fn mte_field_of_the_feature_register() {
    assert!(!mte_supported_from_register(0));
    assert!(mte_supported_from_register(1 << 8));
    assert!(mte_supported_from_register(0x2 << 8));
    assert!(!mte_supported_from_register(0xF0));
    assert!(!mte_supported_from_register(1 << 12));
}
