//! Virtual memory page compaction logic

use vstd::prelude::*;

verus! {

pub const PAGE_SIZE: usize = 4096;

/// Result of a compaction operation
#[derive(Debug, Clone, Copy, PartialEq, Eq, Structural)]
pub enum CompactResult {
    Success,
    PartialSuccess { pages_moved: usize },
    Failed(CompactError),
    NoAction,
}

#[derive(Debug, Clone, Copy, PartialEq, Eq, Structural)]
pub enum CompactError {
    InvalidAddress,
    PermissionDenied,
    OutOfMemory,
    CrossProcessFailed,
    Unknown(i32),
}

/// Compaction strategy
#[derive(Debug, Clone, Copy, PartialEq, Eq, Structural)]
pub enum CompactStrategy {
    InPlace,
    Relocate { target_addr: usize },
    Auto,
}

/// The errno numbers that the compaction errors stand for.
#[derive(Debug, Clone, Copy, PartialEq, Eq, Structural)]
pub struct ErrnoCodes {
    pub eacces: i32,
    pub enomem: i32,
    pub efault: i32,
    pub eperm: i32,
}

/// The error for errno `e`, with the platform's numbers `codes`: access
/// denied and operation not permitted are a permission error, out of
/// memory is out of memory, a bad address is an invalid address, and any
/// other number is kept as unknown.
pub open spec fn errno_error(e: i32, codes: ErrnoCodes) -> CompactError {
    if e == codes.eacces {
        CompactError::PermissionDenied
    } else if e == codes.enomem {
        CompactError::OutOfMemory
    } else if e == codes.efault {
        CompactError::InvalidAddress
    } else if e == codes.eperm {
        CompactError::PermissionDenied
    } else {
        CompactError::Unknown(e)
    }
}

/// The platform's errno numbers for the compaction errors.
///
/// Trusted: reads the constants `libc::EACCES`, `libc::ENOMEM`,
/// `libc::EFAULT` and `libc::EPERM`; their values are the platform's, so
/// nothing about them is stated.
#[verifier::external_body]
fn platform_errno_codes() -> (r: ErrnoCodes) {
    ErrnoCodes { eacces: libc::EACCES, enomem: libc::ENOMEM, efault: libc::EFAULT, eperm: libc::EPERM }
}

impl CompactError {
    /// The error for errno `e`, given the errno numbers `codes`.
    pub fn from_errno_code(e: i32, codes: ErrnoCodes) -> (r: Self)
        ensures
            r == errno_error(e, codes),
    {
        if e == codes.eacces {
            CompactError::PermissionDenied
        } else if e == codes.enomem {
            CompactError::OutOfMemory
        } else if e == codes.efault {
            CompactError::InvalidAddress
        } else if e == codes.eperm {
            CompactError::PermissionDenied
        } else {
            CompactError::Unknown(e)
        }
    }

    /// The error for the errno `e` of a failed system call, with this
    /// platform's errno numbers: one of the named errors, or `e` kept as
    /// unknown.
    pub fn from_errno(e: i32) -> (r: Self)
        ensures
            exists|codes: ErrnoCodes| r == #[trigger] errno_error(e, codes),
            r is PermissionDenied || r is OutOfMemory || r is InvalidAddress || r == CompactError::Unknown(e),
    {
        let codes = platform_errno_codes();
        Self::from_errno_code(e, codes)
    }
}

/// The number that the platform uses for "function not implemented".
///
/// Trusted: reads the constant `libc::ENOSYS`; its value differs between
/// platforms, so nothing about it is stated.
#[verifier::external_body]
fn enosys() -> (r: i32) {
    libc::ENOSYS
}

/// Relocating a page is not implemented: every attempt fails with "function
/// not implemented".
pub fn try_relocate_page(src: usize, size: usize) -> (r: Result<(), CompactError>)
    ensures
        r matches Err(CompactError::Unknown(_)),
{
    Err(CompactError::Unknown(enosys()))
}

/// What compacting the pages at `pages` (with sizes `page_sizes`) reports,
/// under the limits `min_pages_to_compact` and `max_pages_per_pass`, given
/// that no page can be relocated.
pub open spec fn compact_outcome(min_pages_to_compact: nat, pages: nat, sizes: nat) -> CompactResult {
    if pages < min_pages_to_compact {
        CompactResult::NoAction
    } else if pages != sizes {
        CompactResult::Failed(CompactError::InvalidAddress)
    } else {
        CompactResult::NoAction
    }
}

/// Compact a region by moving pages to consolidate sparse allocations: too
/// few pages is no action, a size list of another length is an invalid
/// address; otherwise up to `max_pages_per_pass` pages with a nonzero size
/// and a page-aligned address are relocated, and the pass reports how many
/// moved.
pub fn compact_pages(
    min_pages_to_compact: usize,
    max_pages_per_pass: usize,
    pages: &Vec<usize>,
    page_sizes: &Vec<usize>,
) -> (r: CompactResult)
    ensures
        r == compact_outcome(min_pages_to_compact as nat, pages.len() as nat, page_sizes.len() as nat),
{
    if pages.len() < min_pages_to_compact {
        return CompactResult::NoAction;
    }
    if pages.len() != page_sizes.len() {
        return CompactResult::Failed(CompactError::InvalidAddress);
    }
    let to_process = if pages.len() < max_pages_per_pass {
        pages.len()
    } else {
        max_pages_per_pass
    };
    let mut moved: usize = 0;
    let mut i: usize = 0;
    while i < to_process
        invariant
            to_process <= pages.len(),
            pages.len() == page_sizes.len(),
            i <= to_process,
            moved == 0,
        decreases to_process - i,
    {
        let src = pages[i];
        let size = page_sizes[i];
        if size != 0 && src % PAGE_SIZE == 0 {
            if try_relocate_page(src, size).is_ok() {
                moved = moved + 1;
            }
        }
        i = i + 1;
    }
    if moved == 0 {
        CompactResult::NoAction
    } else if moved == to_process {
        CompactResult::Success
    } else {
        CompactResult::PartialSuccess { pages_moved: moved }
    }
}

} // verus!
