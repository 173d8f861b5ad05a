//! Page granularity of the allocator.

use vstd::prelude::*;

verus! {

/// Size of one page in bytes.
pub const PAGE_SIZE: usize = 4096;

/// Number of pages that hold `bytes` bytes (`bytes.div_ceil(PAGE_SIZE)`).
pub open spec fn pages_for(bytes: nat) -> nat {
    (bytes + PAGE_SIZE - 1) as nat / PAGE_SIZE as nat
}

/// `bytes.div_ceil(PAGE_SIZE)`.
pub fn div_ceil_pages(bytes: usize) -> (r: usize)
    ensures
        r == pages_for(bytes as nat),
        r * PAGE_SIZE >= bytes,
        bytes > 0 ==> r >= 1,
{
    let q = bytes / PAGE_SIZE;
    if bytes % PAGE_SIZE == 0 {
        q
    } else {
        q + 1
    }
}

} // verus!
