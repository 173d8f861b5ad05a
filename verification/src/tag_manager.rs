//! Tag management for hardware-enforced spatial safety
//!
//! Provides a generic interface for memory tagging that abstracts over
//! ARM MTE and CHERI capability hardware. Pointers are addresses (`u64`);
//! the software scheme keeps a pointer's tag in bits 56..60.

use vstd::prelude::*;

verus! {

/// Tag value type (MTE uses 4-bit tags: 0-15)
pub type Tag = u16;

/// Maximum tag value for MTE (4 bits = 16 values, but 0 is reserved)
pub const MAX_TAG: Tag = 15;
/// Smallest tag handed out.
pub const MIN_TAG: Tag = 1;

/// Bits 56..60 of an address, where the software scheme keeps the tag.
pub const SOFTWARE_TAG_MASK: u64 = 0x0F00_0000_0000_0000;

/// Result of tag operations
#[derive(Debug, Clone, Copy, PartialEq, Eq, Structural)]
pub enum TagError {
    OutOfTags,
    InvalidTag,
    HardwareNotSupported,
    AlignmentError,
}

/// Tag allocation strategy
#[derive(Debug, Clone, Copy, PartialEq, Eq, Structural)]
pub enum TagStrategy {
    Random,
    Sequential,
    RoundRobin,
}

/// Tag `tag` is marked in the bit set `used` (bit `tag` is one).
pub open spec fn tag_in_use(used: u16, tag: int) -> bool {
    0 <= tag < 16 && (used >> (tag as u16)) & 1u16 == 1u16
}

/// The `i`-th tag visited by a round-robin cursor that starts at `start`
/// and cycles through `MIN_TAG..=MAX_TAG`.
pub open spec fn tag_candidate(start: int, i: int) -> int {
    (start - 1 + i) % 15 + 1
}

/// Setting bit `tag` of `used` marks `tag` and leaves every other tag as it was.
pub proof fn lemma_mark_tag(used: u16, tag: u16)
    requires
        tag < 16,
    ensures
        tag_in_use(used | (1u16 << tag), tag as int),
        forall|s: u16| s < 16 && s != tag ==> (tag_in_use(used | (1u16 << tag), s as int) <==> tag_in_use(used, s as int)),
{
    assert(((used | (1u16 << tag)) >> tag) & 1u16 == 1u16) by (bit_vector)
        requires tag < 16u16;
    assert forall|s: u16| s < 16 && s != tag implies
        (((used | (1u16 << tag)) >> s) & 1u16 == 1u16 <==> (used >> s) & 1u16 == 1u16) by {
        assert(((used | (1u16 << tag)) >> s) & 1u16 == (used >> s) & 1u16) by (bit_vector)
            requires tag < 16u16, s < 16u16, s != tag;
    }
}

/// Clearing bit `tag` of `used` unmarks `tag` and leaves every other tag as it was.
pub proof fn lemma_unmark_tag(used: u16, tag: u16)
    requires
        tag < 16,
    ensures
        !tag_in_use(used & !(1u16 << tag), tag as int),
        forall|s: u16| s < 16 && s != tag ==> (tag_in_use(used & !(1u16 << tag), s as int) <==> tag_in_use(used, s as int)),
{
    assert(((used & !(1u16 << tag)) >> tag) & 1u16 == 0u16) by (bit_vector)
        requires tag < 16u16;
    assert forall|s: u16| s < 16 && s != tag implies
        (((used & !(1u16 << tag)) >> s) & 1u16 == 1u16 <==> (used >> s) & 1u16 == 1u16) by {
        assert(((used & !(1u16 << tag)) >> s) & 1u16 == (used >> s) & 1u16) by (bit_vector)
            requires tag < 16u16, s < 16u16, s != tag;
    }
}

/// Whether bit `tag` of `used` is set.
pub fn is_tag_marked(used: u16, tag: u16) -> (r: bool)
    requires
        tag < 16,
    ensures
        r == tag_in_use(used, tag as int),
{
    proof {
        assert((used & (1u16 << tag) != 0u16) == ((used >> tag) & 1u16 == 1u16)) by (bit_vector)
            requires tag < 16u16;
    }
    (used & (1u16 << tag)) != 0
}

/// What a round-robin allocation from cursor `start` over the marks `used`
/// gives: `Ok(t)` for the first unmarked candidate `t`, with the cursor
/// moved past it and `t` marked; `OutOfTags` with nothing changed when all
/// fifteen tags are marked.
pub open spec fn round_robin_outcome(
    start: u16,
    used: u16,
    r: Result<Tag, TagError>,
    next: u16,
    used_after: u16,
) -> bool {
    match r {
        Ok(t) => exists|j: int|
            #![trigger tag_candidate(start as int, j)]
            0 <= j < 15 && t == tag_candidate(start as int, j) && !tag_in_use(used, t as int)
                && (forall|i: int| 0 <= i < j ==> tag_in_use(used, tag_candidate(start as int, i)))
                && next == tag_candidate(start as int, j + 1) && used_after == used | (1u16 << t),
        Err(e) => e == TagError::OutOfTags && (forall|i: int|
            0 <= i < 15 ==> tag_in_use(used, #[trigger] tag_candidate(start as int, i))) && next == start
            && used_after == used,
    }
}

/// Round-robin tag allocation shared by the software, MTE and x86 managers:
/// starting at cursor `start`, the first tag that `used` does not mark.
/// Returns the result, the new cursor and the new marks.
pub fn allocate_round_robin(start: u16, used: u16) -> (res: (Result<Tag, TagError>, u16, u16))
    requires
        MIN_TAG <= start <= MAX_TAG,
    ensures
        round_robin_outcome(start, used, res.0, res.1, res.2),
        MIN_TAG <= res.1 <= MAX_TAG,
        res.0 matches Ok(t) ==> MIN_TAG <= t <= MAX_TAG,
{
    let mut next = start;
    let mut i: u16 = 0;
    while i < 15
        invariant
            MIN_TAG <= start <= MAX_TAG,
            i <= 15,
            next == tag_candidate(start as int, i as int),
            MIN_TAG <= next <= MAX_TAG,
            forall|k: int| 0 <= k < i ==> tag_in_use(used, #[trigger] tag_candidate(start as int, k)),
        decreases 15 - i,
    {
        let tag = next;
        next = if next >= MAX_TAG {
            MIN_TAG
        } else {
            next + 1
        };
        assert(next == tag_candidate(start as int, i + 1));
        if !is_tag_marked(used, tag) {
            proof {
                lemma_mark_tag(used, tag);
            }
            return (Ok(tag), next, used | (1u16 << tag));
        }
        i = i + 1;
    }
    assert(next == start);
    (Err(TagError::OutOfTags), next, used)
}

/// The software scheme's `tag_pointer`: bits 56..60 of `addr` replaced by `tag`.
pub open spec fn software_tagged(addr: u64, tag: u64) -> u64 {
    (addr & !SOFTWARE_TAG_MASK) | (tag << 56u64)
}

/// Generic tag manager trait
pub trait TagManager {
    /// Allocate a new tag for a memory region
    fn allocate_tag(&mut self) -> (r: Result<Tag, TagError>)
        ensures
            r matches Ok(t) ==> MIN_TAG <= t <= MAX_TAG;

    /// Free a tag for reuse
    fn free_tag(&mut self, tag: Tag) -> (r: Result<(), TagError>)
        ensures
            (tag < MIN_TAG || tag > MAX_TAG) ==> r == Err::<(), TagError>(TagError::InvalidTag);

    /// Apply a tag to a pointer
    fn tag_pointer(&self, ptr: u64, tag: Tag) -> (r: Result<u64, TagError>);

    /// Extract the tag from a pointer
    fn untag_pointer(&self, ptr: u64) -> (r: u64);

    /// Get the tag from a tagged pointer
    fn get_tag(&self, ptr: u64) -> (r: Tag);

    /// Store the allocation tag to memory
    fn store_tag(&self, ptr: u64, tag: Tag) -> (r: Result<(), TagError>);

    /// Load the allocation tag from memory
    fn load_tag(&self, ptr: u64) -> (r: Tag);
}

/// Software fallback tag manager (for testing on non-MTE hardware)
#[derive(Debug, Clone, Copy)]
pub struct SoftwareTagManager {
    next_tag: Tag,
    used_tags: u16,
}

impl SoftwareTagManager {
    #[verifier::type_invariant]
    spec fn inv(self) -> bool {
        MIN_TAG <= self.next_tag <= MAX_TAG
    }

    /// The round-robin cursor: the next tag to try.
    pub closed spec fn cursor(&self) -> u16 {
        self.next_tag
    }

    /// The bit set of tags in use.
    pub closed spec fn used_mask(&self) -> u16 {
        self.used_tags
    }

    pub fn new() -> (m: Self)
        ensures
            m.cursor() == MIN_TAG,
            m.used_mask() == 0,
    {
        Self { next_tag: MIN_TAG, used_tags: 0 }
    }

    /// The bit set of tags in use.
    pub fn used_tags(&self) -> (r: u16)
        ensures
            r == self.used_mask(),
    {
        self.used_tags
    }
}

impl TagManager for SoftwareTagManager {
    fn allocate_tag(&mut self) -> (r: Result<Tag, TagError>)
        ensures
            round_robin_outcome(old(self).cursor(), old(self).used_mask(), r, final(self).cursor(), final(self).used_mask()),
    {
        proof {
            use_type_invariant(&*self);
        }
        let (r, next, used) = allocate_round_robin(self.next_tag, self.used_tags);
        self.next_tag = next;
        self.used_tags = used;
        r
    }

    fn free_tag(&mut self, tag: Tag) -> (r: Result<(), TagError>)
        ensures
            (MIN_TAG <= tag <= MAX_TAG) ==> (r == Ok::<(), TagError>(()) && final(self).used_mask() == old(self).used_mask() & !(1u16 << tag)),
            !(MIN_TAG <= tag <= MAX_TAG) ==> (r == Err::<(), TagError>(TagError::InvalidTag) && final(self).used_mask() == old(self).used_mask()),
            final(self).cursor() == old(self).cursor(),
    {
        proof {
            use_type_invariant(&*self);
        }
        if !(MIN_TAG <= tag && tag <= MAX_TAG) {
            return Err(TagError::InvalidTag);
        }
        self.used_tags = self.used_tags & !(1u16 << tag);
        Ok(())
    }

    fn tag_pointer(&self, ptr: u64, tag: Tag) -> (r: Result<u64, TagError>)
        ensures
            tag > MAX_TAG ==> r == Err::<u64, TagError>(TagError::InvalidTag),
            tag <= MAX_TAG ==> r == Ok::<u64, TagError>(software_tagged(ptr, tag as u64)),
    {
        if tag > MAX_TAG {
            return Err(TagError::InvalidTag);
        }
        Ok((ptr & !SOFTWARE_TAG_MASK) | ((tag as u64) << 56u64))
    }

    fn untag_pointer(&self, ptr: u64) -> (r: u64)
        ensures
            r == ptr & !SOFTWARE_TAG_MASK,
    {
        ptr & !SOFTWARE_TAG_MASK
    }

    fn get_tag(&self, ptr: u64) -> (r: Tag)
        ensures
            r == (ptr >> 56u64) & 0xF,
    {
        proof {
            assert((ptr >> 56u64) & 0xFu64 <= 15u64) by (bit_vector);
        }
        ((ptr >> 56u64) & 0xF) as Tag
    }

    fn store_tag(&self, ptr: u64, tag: Tag) -> (r: Result<(), TagError>)
        ensures
            r == Ok::<(), TagError>(()),
    {
        Ok(())
    }

    fn load_tag(&self, ptr: u64) -> (r: Tag)
        ensures
            r == 0,
    {
        0
    }
}

/// Law: the software scheme's `get_tag` gives back the tag that `tag_pointer`
/// put in, and `untag_pointer` removes it, whatever the address.
pub proof fn lemma_software_tag_roundtrip(ptr: u64, tag: u64)
    requires
        tag <= MAX_TAG,
    ensures
        (software_tagged(ptr, tag) >> 56u64) & 0xF == tag,
        software_tagged(ptr, tag) & !SOFTWARE_TAG_MASK == ptr & !SOFTWARE_TAG_MASK,
{
    assert(((((ptr & !0x0F00_0000_0000_0000u64) | (tag << 56u64)) >> 56u64) & 0xFu64) == tag) by (bit_vector)
        requires tag <= 15u64;
    assert((((ptr & !0x0F00_0000_0000_0000u64) | (tag << 56u64)) & !0x0F00_0000_0000_0000u64)
        == ptr & !0x0F00_0000_0000_0000u64) by (bit_vector)
        requires tag <= 15u64;
}

/// Tagged allocation metadata
#[derive(Debug, Clone, Copy)]
pub struct TaggedAllocation {
    pub ptr: u64,
    pub size: usize,
    pub tag: Tag,
}

impl TaggedAllocation {
    pub fn new(ptr: u64, size: usize, tag: Tag) -> (a: Self)
        ensures
            a.ptr == ptr,
            a.size == size,
            a.tag == tag,
    {
        Self { ptr, size, tag }
    }

    /// The (possibly tagged) address of the allocation.
    pub fn as_ptr(&self) -> (r: u64)
        ensures
            r == self.ptr,
    {
        self.ptr
    }
}

impl Default for SoftwareTagManager {
    fn default() -> (m: Self)
        ensures
            m.cursor() == MIN_TAG,
            m.used_mask() == 0,
    {
        Self::new()
    }
}

} // verus!
