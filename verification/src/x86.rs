//! x86_64 pointer masking support
//!
//! Provides Intel LAM (Linear Address Masking) and AMD UAI (Upper Address Ignore)
//! support for hardware-enforced pointer tagging on x86_64.

use vstd::prelude::*;
use crate::tag_manager::{Tag, TagError, MIN_TAG, MAX_TAG, allocate_round_robin, round_robin_outcome};

verus! {

/// The four registers that one `cpuid` query returns, with the leaf that
/// was asked for.
#[derive(Debug, Clone, Copy, PartialEq, Eq, Structural)]
pub struct CpuidLeaf {
    pub leaf: u32,
    pub eax: u32,
    pub ebx: u32,
    pub ecx: u32,
    pub edx: u32,
}

/// Queries leaf `leaf` of the processor's `cpuid` instruction.
///
/// Trusted: calls `core::arch::x86_64::__cpuid` with `leaf` and copies the
/// four registers, beside the leaf itself. The registers depend on the
/// processor; nothing about them is stated.
#[verifier::external_body]
fn cpuid(leaf: u32) -> (r: CpuidLeaf)
    ensures
        r.leaf == leaf,
{
    let c = core::arch::x86_64::__cpuid(leaf);
    CpuidLeaf { leaf, eax: c.eax, ebx: c.ebx, ecx: c.ecx, edx: c.edx }
}

/// The answer that stands for a leaf that was not read: all zeros.
pub open spec fn zero_leaf() -> CpuidLeaf {
    CpuidLeaf { leaf: 0, eax: 0, ebx: 0, ecx: 0, edx: 0 }
}

/// Vendor string "GenuineIntel", as `cpuid` leaf 0 returns it in ebx, edx, ecx
/// (four little-endian bytes per register).
pub open spec fn is_intel_vendor(l: CpuidLeaf) -> bool {
    l.ebx == 0x756e_6547 && l.edx == 0x4965_6e69 && l.ecx == 0x6c65_746e
}

/// Vendor string "AuthenticAMD", as `cpuid` leaf 0 returns it in ebx, edx, ecx.
pub open spec fn is_amd_vendor(l: CpuidLeaf) -> bool {
    l.ebx == 0x6874_7541 && l.edx == 0x6974_6e65 && l.ecx == 0x444d_4163
}

/// Bit `b` of `x`.
pub open spec fn bit_of(x: u32, b: u32) -> bool {
    x & (1u32 << b) != 0
}

/// CPU feature flags for x86_64 pointer masking
#[derive(Debug, Clone, Copy, PartialEq, Eq, Structural)]
pub struct X86FeatureFlags {
    pub has_intel_lam: bool,
    pub has_amd_uai: bool,
    pub has_la57: bool,
}

/// The flags that the `cpuid` answers `vendor` (leaf 0), `leaf7` (leaf 7),
/// `max_ext` (leaf 0x8000_0000) and `ext` (leaf 0x8000_0001) describe. On
/// AMD, upper-address-ignore is reported when the extended leaf count in
/// `max_ext` reaches 0x8000_0001 and bit 6 of `ext.ecx` is set.
pub open spec fn flags_from_leaves(vendor: CpuidLeaf, leaf7: CpuidLeaf, max_ext: CpuidLeaf, ext: CpuidLeaf) -> X86FeatureFlags {
    if is_intel_vendor(vendor) && vendor.eax >= 7 {
        X86FeatureFlags {
            has_intel_lam: bit_of(leaf7.edx, 26),
            has_amd_uai: false,
            has_la57: bit_of(leaf7.ecx, 16),
        }
    } else if is_amd_vendor(vendor) {
        X86FeatureFlags {
            has_intel_lam: false,
            has_amd_uai: max_ext.eax >= 0x8000_0001 && bit_of(ext.ecx, 6),
            has_la57: false,
        }
    } else {
        X86FeatureFlags { has_intel_lam: false, has_amd_uai: false, has_la57: false }
    }
}

/// The leaves that `detect` asks `cpuid` for: leaf 0 (`vendor`); on Intel
/// with at least seven basic leaves, leaf 7; on AMD, leaf 0x8000_0000 and,
/// when it reports at least 0x8000_0001 extended leaves, leaf 0x8000_0001.
/// Leaves not asked for are `zero_leaf()`.
pub open spec fn detect_reads(vendor: CpuidLeaf, leaf7: CpuidLeaf, max_ext: CpuidLeaf, ext: CpuidLeaf) -> bool {
    &&& vendor.leaf == 0
    &&& if is_intel_vendor(vendor) && vendor.eax >= 7 {
        leaf7.leaf == 7 && max_ext == zero_leaf() && ext == zero_leaf()
    } else if is_amd_vendor(vendor) {
        &&& leaf7 == zero_leaf()
        &&& max_ext.leaf == 0x8000_0000
        &&& if max_ext.eax >= 0x8000_0001 { ext.leaf == 0x8000_0001 } else { ext == zero_leaf() }
    } else {
        leaf7 == zero_leaf() && max_ext == zero_leaf() && ext == zero_leaf()
    }
}

impl X86FeatureFlags {
    /// Decodes the feature flags from the `cpuid` answers: leaf 0 (`vendor`),
    /// leaf 7 (`leaf7`, read only on Intel), leaf 0x8000_0000 (`max_ext`) and
    /// leaf 0x8000_0001 (`ext`, both read only on AMD).
    pub fn from_leaves(vendor: CpuidLeaf, leaf7: CpuidLeaf, max_ext: CpuidLeaf, ext: CpuidLeaf) -> (f: Self)
        ensures
            f == flags_from_leaves(vendor, leaf7, max_ext, ext),
    {
        let mut flags = Self { has_intel_lam: false, has_amd_uai: false, has_la57: false };
        let is_intel = vendor.ebx == 0x756e_6547 && vendor.edx == 0x4965_6e69 && vendor.ecx == 0x6c65_746e;
        let is_amd = vendor.ebx == 0x6874_7541 && vendor.edx == 0x6974_6e65 && vendor.ecx == 0x444d_4163;
        if is_intel && vendor.eax >= 7 {
            if (leaf7.edx & (1u32 << 26u32)) != 0 {
                flags.has_intel_lam = true;
            }
            if (leaf7.ecx & (1u32 << 16u32)) != 0 {
                flags.has_la57 = true;
            }
        } else if is_amd {
            if max_ext.eax >= 0x8000_0001 {
                if (ext.ecx & (1u32 << 6u32)) != 0 {
                    flags.has_amd_uai = true;
                }
            }
        }
        flags
    }

    /// Queries the processor and decodes its pointer-masking features: the
    /// result is `flags_from_leaves` of the answers that `cpuid` gave for
    /// the leaves that `detect_reads` names (a leaf that the vendor branch
    /// does not read counts as all zeros).
    pub fn detect() -> (f: Self)
        ensures
            exists|vendor: CpuidLeaf, leaf7: CpuidLeaf, max_ext: CpuidLeaf, ext: CpuidLeaf|
                detect_reads(vendor, leaf7, max_ext, ext) && f == #[trigger] flags_from_leaves(vendor, leaf7, max_ext, ext),
            !(f.has_intel_lam && f.has_amd_uai),
            f.has_la57 ==> !f.has_amd_uai,
    {
        let none = CpuidLeaf { leaf: 0, eax: 0, ebx: 0, ecx: 0, edx: 0 };
        let vendor = cpuid(0);
        let is_intel = vendor.ebx == 0x756e_6547 && vendor.edx == 0x4965_6e69 && vendor.ecx == 0x6c65_746e;
        let is_amd = vendor.ebx == 0x6874_7541 && vendor.edx == 0x6974_6e65 && vendor.ecx == 0x444d_4163;
        if is_intel && vendor.eax >= 7 {
            let leaf7 = cpuid(0x07);
            Self::from_leaves(vendor, leaf7, none, none)
        } else if is_amd {
            let max_ext = cpuid(0x8000_0000);
            if max_ext.eax >= 0x8000_0001 {
                let ext = cpuid(0x8000_0001);
                Self::from_leaves(vendor, none, max_ext, ext)
            } else {
                Self::from_leaves(vendor, none, max_ext, none)
            }
        } else {
            Self::from_leaves(vendor, none, none, none)
        }
    }

    pub fn has_hardware_tagging(&self) -> (r: bool)
        ensures
            r == (self.has_intel_lam || self.has_amd_uai),
    {
        self.has_intel_lam || self.has_amd_uai
    }
}

/// Address bits that survive tagging when the hardware ignores the top byte.
pub const HW_ADDR_MASK: u64 = 0x00FF_FFFF_FFFF_FFFF;
/// Address bits that survive tagging in the software (48-bit) scheme.
pub const SW_ADDR_MASK: u64 = 0x0000_FFFF_FFFF_FFFF;

/// `tag_pointer` of an x86 manager with hardware tagging `hw`.
pub open spec fn x86_tagged(hw: bool, addr: u64, tag: u64) -> u64 {
    if hw {
        (addr & HW_ADDR_MASK) | (tag << 56u64)
    } else {
        (addr & SW_ADDR_MASK) | (tag << 48u64)
    }
}

/// `untag_pointer` of an x86 manager with hardware tagging `hw`.
pub open spec fn x86_untagged(hw: bool, addr: u64) -> u64 {
    if hw {
        addr & HW_ADDR_MASK
    } else {
        addr & SW_ADDR_MASK
    }
}

/// `get_tag` of an x86 manager with hardware tagging `hw`.
pub open spec fn x86_tag_of(hw: bool, addr: u64) -> u64 {
    if hw {
        (addr >> 56u64) & 0xF
    } else {
        (addr >> 48u64) & 0xF
    }
}

/// Law: on either scheme, `get_tag` gives back the tag that `tag_pointer` put
/// in, and `untag_pointer` of a tagged pointer equals `untag_pointer` of the
/// untagged address.
pub proof fn lemma_x86_tag_roundtrip(hw: bool, addr: u64, tag: u64)
    requires
        tag <= 15,
    ensures
        x86_tag_of(hw, x86_tagged(hw, addr, tag)) == tag,
        x86_untagged(hw, x86_tagged(hw, addr, tag)) == x86_untagged(hw, addr),
{
    assert(((((addr & 0x00FF_FFFF_FFFF_FFFFu64) | (tag << 56u64)) >> 56u64) & 0xFu64) == tag) by (bit_vector)
        requires tag <= 15u64;
    assert((((addr & 0x00FF_FFFF_FFFF_FFFFu64) | (tag << 56u64)) & 0x00FF_FFFF_FFFF_FFFFu64)
        == addr & 0x00FF_FFFF_FFFF_FFFFu64) by (bit_vector)
        requires tag <= 15u64;
    assert(((((addr & 0x0000_FFFF_FFFF_FFFFu64) | (tag << 48u64)) >> 48u64) & 0xFu64) == tag) by (bit_vector)
        requires tag <= 15u64;
    assert((((addr & 0x0000_FFFF_FFFF_FFFFu64) | (tag << 48u64)) & 0x0000_FFFF_FFFF_FFFFu64)
        == addr & 0x0000_FFFF_FFFF_FFFFu64) by (bit_vector)
        requires tag <= 15u64;
}

/// x86_64 tag manager using LAM/UAI or software fallback
pub struct X86TagManager {
    features: X86FeatureFlags,
    next_tag: Tag,
    used_tags: u16,
}

impl X86TagManager {
    #[verifier::type_invariant]
    spec fn inv(self) -> bool {
        MIN_TAG <= self.next_tag <= MAX_TAG
    }

    /// The round-robin cursor: the next tag to try.
    pub closed spec fn cursor(&self) -> u16 {
        self.next_tag
    }

    /// The bit set of tags in use.
    pub closed spec fn used_mask(&self) -> u16 {
        self.used_tags
    }

    /// The detected features.
    pub closed spec fn feature_flags(&self) -> X86FeatureFlags {
        self.features
    }

    /// Whether pointers carry the tag in the top byte (hardware tagging).
    pub open spec fn hw_tagging(&self) -> bool {
        self.feature_flags().has_intel_lam || self.feature_flags().has_amd_uai
    }

    /// A manager for the features that `X86FeatureFlags::detect` finds.
    pub fn new() -> (m: Self)
        ensures
            m.cursor() == 1,
            m.used_mask() == 0,
            exists|vendor: CpuidLeaf, leaf7: CpuidLeaf, max_ext: CpuidLeaf, ext: CpuidLeaf|
                detect_reads(vendor, leaf7, max_ext, ext) && m.feature_flags() == #[trigger] flags_from_leaves(vendor, leaf7, max_ext, ext),
            !(m.feature_flags().has_intel_lam && m.feature_flags().has_amd_uai),
    {
        Self::with_features(X86FeatureFlags::detect())
    }

    /// A manager for the given features, with no tag in use.
    pub fn with_features(features: X86FeatureFlags) -> (m: Self)
        ensures
            m.cursor() == 1,
            m.used_mask() == 0,
            m.feature_flags() == features,
    {
        Self { features, next_tag: 1, used_tags: 0 }
    }

    pub fn features(&self) -> (r: &X86FeatureFlags)
        ensures
            *r == self.feature_flags(),
    {
        &self.features
    }

    pub fn allocate_tag(&mut self) -> (r: Result<Tag, TagError>)
        ensures
            round_robin_outcome(old(self).cursor(), old(self).used_mask(), r, final(self).cursor(), final(self).used_mask()),
            final(self).feature_flags() == old(self).feature_flags(),
            r matches Ok(t) ==> 1 <= t <= 15,
    {
        proof {
            use_type_invariant(&*self);
        }
        let (r, next, used) = allocate_round_robin(self.next_tag, self.used_tags);
        self.next_tag = next;
        self.used_tags = used;
        r
    }

    pub fn free_tag(&mut self, tag: Tag) -> (r: Result<(), TagError>)
        ensures
            (1 <= tag <= 15) ==> (r == Ok::<(), TagError>(()) && final(self).used_mask() == old(self).used_mask() & !(1u16 << tag)),
            !(1 <= tag <= 15) ==> (r == Err::<(), TagError>(TagError::InvalidTag) && final(self).used_mask() == old(self).used_mask()),
            final(self).cursor() == old(self).cursor(),
            final(self).feature_flags() == old(self).feature_flags(),
    {
        proof {
            use_type_invariant(&*self);
        }
        if tag == 0 || tag > 15 {
            return Err(TagError::InvalidTag);
        }
        self.used_tags = self.used_tags & !(1u16 << tag);
        Ok(())
    }

    pub fn tag_pointer(&self, ptr: u64, tag: Tag) -> (r: u64)
        ensures
            tag > 15 ==> r == ptr,
            tag <= 15 ==> r == x86_tagged(self.hw_tagging(), ptr, tag as u64),
            tag <= 15 && (self.feature_flags().has_amd_uai || self.feature_flags().has_intel_lam) ==> (
                r == (ptr & 0x00FF_FFFF_FFFF_FFFFu64) | ((tag as u64) << 56u64)
                && (r >> 56u64) & 0xF == tag as u64
                && r & 0x00FF_FFFF_FFFF_FFFFu64 == ptr & 0x00FF_FFFF_FFFF_FFFFu64),
            tag <= 15 && !self.feature_flags().has_amd_uai && !self.feature_flags().has_intel_lam ==> (
                r == (ptr & 0x0000_FFFF_FFFF_FFFFu64) | ((tag as u64) << 48u64)
                && (r >> 48u64) & 0xF == tag as u64
                && r & 0x0000_FFFF_FFFF_FFFFu64 == ptr & 0x0000_FFFF_FFFF_FFFFu64),
    {
        proof {
            let tg = tag as u64;
            if tag <= 15 {
                assert((((ptr & 0x00FF_FFFF_FFFF_FFFFu64) | (tg << 56u64)) >> 56u64) & 0xFu64 == tg
                    && ((ptr & 0x00FF_FFFF_FFFF_FFFFu64) | (tg << 56u64)) & 0x00FF_FFFF_FFFF_FFFFu64
                        == ptr & 0x00FF_FFFF_FFFF_FFFFu64) by (bit_vector)
                    requires tg <= 15u64;
                assert((((ptr & 0x0000_FFFF_FFFF_FFFFu64) | (tg << 48u64)) >> 48u64) & 0xFu64 == tg
                    && ((ptr & 0x0000_FFFF_FFFF_FFFFu64) | (tg << 48u64)) & 0x0000_FFFF_FFFF_FFFFu64
                        == ptr & 0x0000_FFFF_FFFF_FFFFu64) by (bit_vector)
                    requires tg <= 15u64;
            }
        }
        if tag > 15 {
            return ptr;
        }
        if self.features.has_hardware_tagging() {
            (ptr & HW_ADDR_MASK) | ((tag as u64) << 56u64)
        } else {
            (ptr & SW_ADDR_MASK) | ((tag as u64) << 48u64)
        }
    }

    pub fn untag_pointer(&self, ptr: u64) -> (r: u64)
        ensures
            r == x86_untagged(self.hw_tagging(), ptr),
            self.feature_flags().has_amd_uai || self.feature_flags().has_intel_lam ==> r == ptr & 0x00FF_FFFF_FFFF_FFFFu64,
            !self.feature_flags().has_amd_uai && !self.feature_flags().has_intel_lam ==> r == ptr & 0x0000_FFFF_FFFF_FFFFu64,
    {
        if self.features.has_hardware_tagging() {
            ptr & HW_ADDR_MASK
        } else {
            ptr & SW_ADDR_MASK
        }
    }

    pub fn get_tag(&self, ptr: u64) -> (r: Tag)
        ensures
            r == x86_tag_of(self.hw_tagging(), ptr),
            self.feature_flags().has_amd_uai || self.feature_flags().has_intel_lam ==> r == (ptr >> 56u64) & 0xF,
            !self.feature_flags().has_amd_uai && !self.feature_flags().has_intel_lam ==> r == (ptr >> 48u64) & 0xF,
    {
        proof {
            assert((ptr >> 56u64) & 0xFu64 <= 15u64) by (bit_vector);
            assert((ptr >> 48u64) & 0xFu64 <= 15u64) by (bit_vector);
        }
        if self.features.has_hardware_tagging() {
            ((ptr >> 56u64) & 0xF) as Tag
        } else {
            ((ptr >> 48u64) & 0xF) as Tag
        }
    }
}

impl Default for X86FeatureFlags {
    fn default() -> (f: Self)
        ensures
            exists|vendor: CpuidLeaf, leaf7: CpuidLeaf, max_ext: CpuidLeaf, ext: CpuidLeaf|
                detect_reads(vendor, leaf7, max_ext, ext) && f == #[trigger] flags_from_leaves(vendor, leaf7, max_ext, ext),
            !(f.has_intel_lam && f.has_amd_uai),
            f.has_la57 ==> !f.has_amd_uai,
    {
        Self::detect()
    }
}

impl Default for X86TagManager {
    fn default() -> (m: Self)
        ensures
            m.cursor() == 1,
            m.used_mask() == 0,
            exists|vendor: CpuidLeaf, leaf7: CpuidLeaf, max_ext: CpuidLeaf, ext: CpuidLeaf|
                detect_reads(vendor, leaf7, max_ext, ext) && m.feature_flags() == #[trigger] flags_from_leaves(vendor, leaf7, max_ext, ext),
            !(m.feature_flags().has_intel_lam && m.feature_flags().has_amd_uai),
    {
        Self::new()
    }
}

/// Law: an x86 manager tags in the top byte exactly when its features
/// report hardware tagging, and AMD's upper-address-ignore counts as much
/// as Intel's linear address masking: with either, the tag sits in bits
/// 56 to 59 and the address keeps its low 56 bits; with neither, the tag
/// sits in bits 48 to 51 and the address keeps its low 48 bits.
pub proof fn lemma_x86_scheme_follows_features(m: X86TagManager, addr: u64, tag: u64)
    requires
        tag <= 15,
    ensures
        m.hw_tagging() <==> (m.feature_flags().has_amd_uai || m.feature_flags().has_intel_lam),
        m.feature_flags().has_amd_uai ==> m.hw_tagging(),
        m.feature_flags().has_amd_uai ==> (x86_tagged(m.hw_tagging(), addr, tag) >> 56u64) & 0xF == tag
            && x86_tagged(m.hw_tagging(), addr, tag) & 0x00FF_FFFF_FFFF_FFFFu64 == addr & 0x00FF_FFFF_FFFF_FFFFu64,
        !m.feature_flags().has_amd_uai && !m.feature_flags().has_intel_lam ==>
            (x86_tagged(m.hw_tagging(), addr, tag) >> 48u64) & 0xF == tag
            && x86_tagged(m.hw_tagging(), addr, tag) & 0x0000_FFFF_FFFF_FFFFu64 == addr & 0x0000_FFFF_FFFF_FFFFu64,
{
    assert((((addr & 0x00FF_FFFF_FFFF_FFFFu64) | (tag << 56u64)) >> 56u64) & 0xFu64 == tag
        && ((addr & 0x00FF_FFFF_FFFF_FFFFu64) | (tag << 56u64)) & 0x00FF_FFFF_FFFF_FFFFu64
            == addr & 0x00FF_FFFF_FFFF_FFFFu64) by (bit_vector)
        requires tag <= 15u64;
    assert((((addr & 0x0000_FFFF_FFFF_FFFFu64) | (tag << 48u64)) >> 48u64) & 0xFu64 == tag
        && ((addr & 0x0000_FFFF_FFFF_FFFFu64) | (tag << 48u64)) & 0x0000_FFFF_FFFF_FFFFu64
            == addr & 0x0000_FFFF_FFFF_FFFFu64) by (bit_vector)
        requires tag <= 15u64;
}

} // verus!
