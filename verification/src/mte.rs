//! ARM Memory Tagging Extension (MTE) support
//!
//! The tag bookkeeping of the MTE manager. Applying, storing and loading
//! tags uses the MTE instructions themselves and is done by the caller.

use vstd::prelude::*;
use crate::tag_manager::{Tag, TagError, MAX_TAG, MIN_TAG, allocate_round_robin, round_robin_outcome, tag_in_use, is_tag_marked, lemma_mark_tag, lemma_unmark_tag};

verus! {

/// Whether the `ID_AA64PFR1_EL1` register value `id_aa64pfr1` reports MTE:
/// its MTE field (bits 8 to 11) is at least one.
pub fn mte_supported_from_register(id_aa64pfr1: u64) -> (r: bool)
    ensures
        r == ((id_aa64pfr1 >> 8u64) & 0xF >= 1),
{
    ((id_aa64pfr1 >> 8u64) & 0xF) >= 1
}

/// ARM MTE tag manager
#[derive(Debug, Clone, Copy)]
pub struct MteTagManager {
    used_tags: u16,
    next_tag: Tag,
}

impl MteTagManager {
    #[verifier::type_invariant]
    spec fn inv(self) -> bool {
        MIN_TAG <= self.next_tag <= MAX_TAG
    }

    /// The round-robin cursor: the next tag to try.
    pub closed spec fn cursor(&self) -> u16 {
        self.next_tag
    }

    /// The bit set of tags in use.
    pub closed spec fn used_mask(&self) -> u16 {
        self.used_tags
    }

    pub fn new() -> (m: Self)
        ensures
            m.cursor() == MIN_TAG,
            m.used_mask() == 0,
    {
        Self { used_tags: 0, next_tag: MIN_TAG }
    }

    /// The bit set of tags in use.
    pub fn used_tags(&self) -> (r: u16)
        ensures
            r == self.used_mask(),
    {
        self.used_tags
    }

    /// Whether `tag` is in use.
    pub fn is_tag_used(&self, tag: Tag) -> (r: bool)
        requires
            tag < 16,
        ensures
            r == tag_in_use(self.used_mask(), tag as int),
    {
        is_tag_marked(self.used_tags, tag)
    }

    /// Marks `tag` as in use.
    pub fn mark_tag_used(&mut self, tag: Tag)
        requires
            tag < 16,
        ensures
            final(self).used_mask() == old(self).used_mask() | (1u16 << tag),
            tag_in_use(final(self).used_mask(), tag as int),
            final(self).cursor() == old(self).cursor(),
    {
        proof {
            use_type_invariant(&*self);
            lemma_mark_tag(self.used_tags, tag);
        }
        self.used_tags = self.used_tags | (1u16 << tag);
    }

    /// Marks `tag` as free.
    pub fn mark_tag_free(&mut self, tag: Tag)
        requires
            tag < 16,
        ensures
            final(self).used_mask() == old(self).used_mask() & !(1u16 << tag),
            !tag_in_use(final(self).used_mask(), tag as int),
            final(self).cursor() == old(self).cursor(),
    {
        proof {
            use_type_invariant(&*self);
            lemma_unmark_tag(self.used_tags, tag);
        }
        self.used_tags = self.used_tags & !(1u16 << tag);
    }

    pub fn allocate_tag(&mut self) -> (r: Result<Tag, TagError>)
        ensures
            round_robin_outcome(old(self).cursor(), old(self).used_mask(), r, final(self).cursor(), final(self).used_mask()),
            r matches Ok(t) ==> MIN_TAG <= t <= MAX_TAG,
    {
        proof {
            use_type_invariant(&*self);
        }
        let (r, next, used) = allocate_round_robin(self.next_tag, self.used_tags);
        self.next_tag = next;
        self.used_tags = used;
        r
    }

    pub fn free_tag(&mut self, tag: Tag) -> (r: Result<(), TagError>)
        ensures
            (MIN_TAG <= tag <= MAX_TAG) ==> (r == Ok::<(), TagError>(()) && final(self).used_mask() == old(self).used_mask() & !(1u16 << tag)),
            !(MIN_TAG <= tag <= MAX_TAG) ==> (r == Err::<(), TagError>(TagError::InvalidTag) && final(self).used_mask() == old(self).used_mask()),
            final(self).cursor() == old(self).cursor(),
    {
        proof {
            use_type_invariant(&*self);
        }
        if tag < MIN_TAG || tag > MAX_TAG {
            return Err(TagError::InvalidTag);
        }
        self.mark_tag_free(tag);
        Ok(())
    }
}

impl Default for MteTagManager {
    fn default() -> (m: Self)
        ensures
            m.cursor() == MIN_TAG,
            m.used_mask() == 0,
    {
        Self::new()
    }
}

} // verus!
