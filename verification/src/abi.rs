//! The C allocation interface's decisions: which requests are valid, the
//! layout each asks the allocator for, and what `realloc` does with a block.
//!
//! Reading headers, allocating, copying and freeing are done by the caller
//! as these functions say.

use vstd::prelude::*;
use crate::global::{PageHeader, MAGIC, MAX_CACHE_SIZE, PAGE_HEADER_SIZE, LARGE_HEADER_SIZE};
use crate::page::PAGE_SIZE;
use crate::size_class::{is_power_of_two, power_of_two};

verus! {

/// Status of `posix_memalign` for a bad alignment.
pub const EINVAL: i32 = 22;
/// Status of `posix_memalign` when no memory could be had.
pub const ENOMEM: i32 = 12;
/// Bytes of a pointer; `posix_memalign` alignments are multiples of it.
pub const POINTER_SIZE: usize = 8;

/// A layout of `size` bytes aligned to `align` can be made: `align` is a
/// power of two and `size`, rounded up to a multiple of `align`, is at most
/// `isize::MAX`.
pub open spec fn layout_ok(size: nat, align: nat) -> bool {
    is_power_of_two(align) && size + align - 1 <= isize::MAX
}

/// Whether a layout of `size` bytes aligned to `align` can be made.
pub fn layout_fits(size: usize, align: usize) -> (r: bool)
    ensures
        r == layout_ok(size as nat, align as nat),
{
    if !power_of_two(align) {
        return false;
    }
    proof {
        if align == 0 {
            let k = choose|k: nat| vstd::arithmetic::power2::pow2(k) == 0;
            vstd::arithmetic::power2::lemma_pow2_pos(k);
        }
    }
    align - 1 <= isize::MAX as usize && size <= (isize::MAX as usize) - (align - 1)
}

/// The layout (size, alignment) that `malloc(size)` allocates: `size` bytes
/// aligned to eight; none (a null pointer) for a size of zero or one too
/// large for a layout.
pub fn malloc_layout(size: usize) -> (r: Option<(usize, usize)>)
    ensures
        r == (if size == 0 || !layout_ok(size as nat, 8) {
            None::<(usize, usize)>
        } else {
            Some((size, 8usize))
        }),
{
    if size == 0 {
        return None;
    }
    if layout_fits(size, 8) {
        Some((size, 8))
    } else {
        None
    }
}

/// The bytes `calloc(nmemb, size)` asks for: the product, or none (a null
/// pointer) when it overflows.
pub fn calloc_total(nmemb: usize, size: usize) -> (r: Option<usize>)
    ensures
        r == (if nmemb * size <= usize::MAX { Some((nmemb * size) as usize) } else { None::<usize> }),
{
    nmemb.checked_mul(size)
}

/// The layout (size, alignment) that `aligned_alloc(alignment, size)`
/// allocates: at least one byte aligned to `alignment`; none (a null
/// pointer) when `alignment` is not a power of two or the layout cannot be
/// made.
pub fn aligned_alloc_layout(alignment: usize, size: usize) -> (r: Option<(usize, usize)>)
    ensures
        r == (if alignment != 0 && is_power_of_two(alignment as nat)
            && layout_ok(vstd::math::max(size as int, 1) as nat, alignment as nat) {
            Some((vstd::math::max(size as int, 1) as usize, alignment))
        } else {
            None::<(usize, usize)>
        }),
{
    if alignment == 0 || !power_of_two(alignment) {
        return None;
    }
    let n = if size > 1 {
        size
    } else {
        1
    };
    if layout_fits(n, alignment) {
        Some((n, alignment))
    } else {
        None
    }
}

/// The status `posix_memalign` returns before allocating: `EINVAL` when the
/// alignment is zero, not a power of two or not a multiple of the pointer
/// size; none when it goes on.
pub fn posix_memalign_check(alignment: usize) -> (r: Option<i32>)
    ensures
        r == (if alignment == 0 || !is_power_of_two(alignment as nat) || alignment % POINTER_SIZE != 0 {
            Some(EINVAL)
        } else {
            None::<i32>
        }),
{
    if alignment == 0 || !power_of_two(alignment) || alignment % POINTER_SIZE != 0 {
        return Some(EINVAL);
    }
    None
}

/// The status `posix_memalign` returns after allocating `size` bytes:
/// `ENOMEM` when nothing was allocated for a nonzero size, 0 otherwise (the
/// pointer, null or not, is then stored).
pub fn posix_memalign_status(allocated: bool, size: usize) -> (r: i32)
    ensures
        r == (if !allocated && size != 0 { ENOMEM } else { 0 }),
{
    if !allocated && size != 0 {
        ENOMEM
    } else {
        0
    }
}

/// What `realloc` does.
#[derive(Debug, Clone, Copy, PartialEq, Eq, Structural)]
pub enum ReallocStep {
    /// Return `malloc(size)`.
    Malloc { size: usize },
    /// Free the pointer and return null.
    FreeAndNull,
    /// Return null: the block is unknown.
    Null,
    /// Return the pointer unchanged.
    Keep,
    /// Write `header` over the large allocation's page header and return the
    /// pointer.
    Resize { header: PageHeader },
    /// Allocate `size` bytes; if that succeeds, copy `copy` bytes over and
    /// free the pointer. Return the new pointer.
    Move { size: usize, copy: usize },
}

/// Bytes that a large allocation of `num_pages` pages holds in place.
pub open spec fn padded_capacity(num_pages: u32) -> int {
    num_pages * PAGE_SIZE - PAGE_HEADER_SIZE - LARGE_HEADER_SIZE - 8
}

/// What `realloc(ptr, size)` does, for a block whose recorded size is
/// `old_size` and, when the word before `ptr` marks a large allocation,
/// whose base page header is `base_header`.
///
/// A null pointer is a `malloc`; a size of zero a `free`; an unknown block
/// (size 0) gives null; a block that is large enough is kept. A large
/// allocation whose pages hold the new size in place gets its header's
/// size updated; anything else moves.
pub open spec fn realloc_plan(ptr: usize, size: usize, old_size: usize, base_header: Option<PageHeader>) -> ReallocStep {
    if ptr == 0 {
        ReallocStep::Malloc { size }
    } else if size == 0 {
        ReallocStep::FreeAndNull
    } else if old_size == 0 {
        ReallocStep::Null
    } else if size <= old_size {
        ReallocStep::Keep
    } else if old_size > MAX_CACHE_SIZE && base_header is Some && base_header.unwrap().magic == MAGIC {
        let h = base_header.unwrap();
        if size <= padded_capacity(h.num_pages) {
            ReallocStep::Resize {
                header: PageHeader { magic: MAGIC, num_pages: h.num_pages, requested_size: size, tag: h.tag },
            }
        } else {
            ReallocStep::Move { size, copy: old_size }
        }
    } else {
        ReallocStep::Move { size, copy: old_size }
    }
}

/// The step of `realloc(ptr, size)`; `old_size` and `base_header` as for
/// `realloc_plan` (they are not looked at for a null pointer or a size of
/// zero).
pub fn realloc_step(ptr: usize, size: usize, old_size: usize, base_header: Option<PageHeader>) -> (r: ReallocStep)
    requires
        ptr != 0 && size > old_size && old_size > MAX_CACHE_SIZE && (base_header matches Some(h) && h.magic == MAGIC)
            ==> padded_capacity(base_header.unwrap().num_pages) >= 0
                && base_header.unwrap().num_pages * PAGE_SIZE <= usize::MAX,
    ensures
        r == realloc_plan(ptr, size, old_size, base_header),
{
    if ptr == 0 {
        return ReallocStep::Malloc { size };
    }
    if size == 0 {
        return ReallocStep::FreeAndNull;
    }
    if old_size == 0 {
        return ReallocStep::Null;
    }
    if size <= old_size {
        return ReallocStep::Keep;
    }
    if old_size > MAX_CACHE_SIZE {
        if let Some(h) = base_header {
            if h.magic == MAGIC {
                let capacity = h.num_pages as usize * PAGE_SIZE - PAGE_HEADER_SIZE - LARGE_HEADER_SIZE - 8;
                if size <= capacity {
                    return ReallocStep::Resize {
                        header: PageHeader { magic: MAGIC, num_pages: h.num_pages, requested_size: size, tag: h.tag },
                    };
                }
                return ReallocStep::Move { size, copy: old_size };
            }
        }
    }
    ReallocStep::Move { size, copy: old_size }
}

} // verus!
