//! Tagging of allocations: each allocation gets a tag from a fresh software
//! tag manager, carried in bits 56..60 of its pointer.

use vstd::prelude::*;
use crate::tag_manager::{SoftwareTagManager, Tag, TagManager, TaggedAllocation, MIN_TAG, software_tagged, lemma_software_tag_roundtrip};

verus! {

/// A fresh tag manager.
fn create_tag_manager() -> (m: SoftwareTagManager)
    ensures
        m.cursor() == MIN_TAG,
        m.used_mask() == 0,
{
    SoftwareTagManager::new()
}

/// Tags the `size` bytes at `ptr`: a fresh manager hands out its first tag,
/// `MIN_TAG`, which the returned allocation records and carries in its
/// pointer.
pub fn tag_allocation(ptr: u64, size: usize) -> (a: TaggedAllocation)
    ensures
        a.ptr == software_tagged(ptr, MIN_TAG as u64),
        a.size == size,
        a.tag == MIN_TAG,
{
    let mut mgr = create_tag_manager();
    match mgr.allocate_tag() {
        Ok(tag) => {
            proof {
                let j = choose|j: int|
                    #![trigger crate::tag_manager::tag_candidate(MIN_TAG as int, j)]
                    0 <= j < 15 && tag == crate::tag_manager::tag_candidate(MIN_TAG as int, j)
                        && !crate::tag_manager::tag_in_use(0, tag as int)
                        && (forall|i: int| 0 <= i < j ==> crate::tag_manager::tag_in_use(0, crate::tag_manager::tag_candidate(MIN_TAG as int, i)));
                assert((0u16 >> 1u16) & 1u16 == 0u16) by (bit_vector);
                assert(crate::tag_manager::tag_candidate(MIN_TAG as int, 0) == 1);
                if j > 0 {
                    assert(crate::tag_manager::tag_in_use(0, crate::tag_manager::tag_candidate(MIN_TAG as int, 0)));
                }
                assert(tag == MIN_TAG);
            }
            let _ = mgr.store_tag(ptr, tag);
            let tagged = match mgr.tag_pointer(ptr, tag) {
                Ok(p) => p,
                Err(_) => ptr,
            };
            TaggedAllocation::new(tagged, size, tag)
        },
        Err(_) => {
            proof {
                assert((0u16 >> 1u16) & 1u16 == 0u16) by (bit_vector);
                assert(crate::tag_manager::tag_candidate(MIN_TAG as int, 0) == 1);
                assert(crate::tag_manager::tag_in_use(0, crate::tag_manager::tag_candidate(MIN_TAG as int, 0)));
            }
            TaggedAllocation::new(ptr, size, 0)
        },
    }
}

/// Whether the tag that `ptr` carries is `expected_tag`.
pub fn verify_tag(ptr: u64, expected_tag: Tag) -> (r: bool)
    ensures
        r == ((ptr >> 56u64) & 0xF == expected_tag),
{
    let mgr = create_tag_manager();
    let actual_tag = mgr.get_tag(ptr);
    actual_tag == expected_tag
}

/// Law: an allocation tagged by `tag_allocation` passes `verify_tag` with
/// its own tag, whatever its address.
pub proof fn lemma_tagged_allocation_verifies(ptr: u64)
    ensures
        (software_tagged(ptr, MIN_TAG as u64) >> 56u64) & 0xF == MIN_TAG,
{
    lemma_software_tag_roundtrip(ptr, MIN_TAG as u64);
}

} // verus!
