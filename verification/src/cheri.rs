//! CHERI capability hardware support
//!
//! Provides capability-based memory safety on CHERI-enabled processors.
//! CHERI uses fat pointers with embedded bounds and permissions.

pub mod permissions;

use vstd::prelude::*;
use crate::tag_manager::{Tag, TagError, TagManager, MAX_TAG, MIN_TAG, tag_in_use, is_tag_marked, lemma_mark_tag};

verus! {

/// CHERI capability metadata
#[derive(Debug, Clone, Copy)]
pub struct CapabilityMeta {
    pub base: usize,
    pub length: usize,
    pub offset: usize,
    pub permissions: u32,
    pub tag: bool,
}

/// What a first-fit allocation over the marks `used` gives: `Ok(t)` for the
/// least unmarked tag in `1..=MAX_TAG`, with `t` marked; `OutOfTags` with
/// nothing changed when all are marked.
pub open spec fn first_fit_outcome(used: u16, r: Result<Tag, TagError>, used_after: u16) -> bool {
    match r {
        Ok(t) => 1 <= t <= MAX_TAG && !tag_in_use(used, t as int)
            && (forall|s: int| 1 <= s < t ==> tag_in_use(used, s))
            && used_after == used | (1u16 << t),
        Err(e) => e == TagError::OutOfTags && (forall|s: int| 1 <= s <= MAX_TAG ==> tag_in_use(used, s))
            && used_after == used,
    }
}

/// CHERI tag manager
#[derive(Debug, Clone, Copy, Default)]
pub struct CheriTagManager {
    used_tags: u16,
}

impl CheriTagManager {
    /// The bit set of tags in use.
    pub closed spec fn used_mask(&self) -> u16 {
        self.used_tags
    }

    pub fn new() -> (m: Self)
        ensures
            m.used_mask() == 0,
    {
        Self { used_tags: 0 }
    }

    /// The bit set of tags in use.
    pub fn used_tags(&self) -> (r: u16)
        ensures
            r == self.used_mask(),
    {
        self.used_tags
    }
}

impl TagManager for CheriTagManager {
    fn allocate_tag(&mut self) -> (r: Result<Tag, TagError>)
        ensures
            first_fit_outcome(old(self).used_mask(), r, final(self).used_mask()),
    {
        let mut tag: u16 = 1;
        while tag <= MAX_TAG
            invariant
                1 <= tag <= MAX_TAG + 1,
                self.used_tags == old(self).used_tags,
                forall|s: int| 1 <= s < tag ==> tag_in_use(self.used_tags, s),
            decreases MAX_TAG + 1 - tag,
        {
            if !is_tag_marked(self.used_tags, tag) {
                proof {
                    lemma_mark_tag(self.used_tags, tag);
                }
                self.used_tags = self.used_tags | (1u16 << tag);
                return Ok(tag);
            }
            tag = tag + 1;
        }
        Err(TagError::OutOfTags)
    }

    fn free_tag(&mut self, tag: Tag) -> (r: Result<(), TagError>)
        ensures
            (MIN_TAG <= tag <= MAX_TAG) ==> (r == Ok::<(), TagError>(()) && final(self).used_mask() == old(self).used_mask() & !(1u16 << tag)),
            !(MIN_TAG <= tag <= MAX_TAG) ==> (r == Err::<(), TagError>(TagError::InvalidTag) && final(self).used_mask() == old(self).used_mask()),
    {
        if tag == 0 || tag > MAX_TAG {
            return Err(TagError::InvalidTag);
        }
        self.used_tags = self.used_tags & !(1u16 << tag);
        Ok(())
    }

    fn tag_pointer(&self, ptr: u64, _tag: Tag) -> (r: Result<u64, TagError>)
        ensures
            r == Ok::<u64, TagError>(ptr),
    {
        Ok(ptr)
    }

    fn untag_pointer(&self, ptr: u64) -> (r: u64)
        ensures
            r == ptr,
    {
        ptr
    }

    fn get_tag(&self, _ptr: u64) -> (r: Tag)
        ensures
            r == 0,
    {
        0
    }

    fn store_tag(&self, _ptr: u64, _tag: Tag) -> (r: Result<(), TagError>)
        ensures
            r == Ok::<(), TagError>(()),
    {
        Ok(())
    }

    fn load_tag(&self, _ptr: u64) -> (r: Tag)
        ensures
            r == 0,
    {
        0
    }
}

/// Whether a freshly bounded capability can be handed out: it grants every
/// permission in `wanted` (of those in `granted`) and carries a valid tag.
pub fn capability_usable(granted: u32, wanted: u32, tagged: bool) -> (r: bool)
    ensures
        r == ((granted & wanted) == wanted && tagged),
{
    if (granted & wanted) != wanted {
        return false;
    }
    tagged
}

} // verus!
