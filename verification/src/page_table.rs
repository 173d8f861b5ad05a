//! Page table entries as `/proc/self/pagemap` reports them.
//!
//! Reading the pagemap file is done by the caller; this module decodes the
//! entries and answers questions about them.

use vstd::prelude::*;

verus! {

pub const PAGE_SIZE: usize = 4096;
pub const PAGEMAP_ENTRY_SIZE: usize = 8;

/// Mask of the page frame number (bits 0..55).
pub const PFN_MASK: u64 = 0x007F_FFFF_FFFF_FFFF;

/// Page table entry from /proc/self/pagemap
#[derive(Clone, Copy, Debug, Default, PartialEq, Eq, Structural)]
pub struct PageMapEntry {
    pub raw: u64,
}

/// Bit `b` of `x` is one.
pub open spec fn bit_set(x: u64, b: u64) -> bool {
    (x >> b) & 1 == 1
}

impl PageMapEntry {
    pub fn new(raw: u64) -> (e: Self)
        ensures
            e.raw == raw,
    {
        Self { raw }
    }

    /// Bit 63: the page is present in RAM.
    pub fn is_present(&self) -> (r: bool)
        ensures
            r == bit_set(self.raw, 63),
    {
        (self.raw >> 63u64) & 1 == 1
    }

    /// Bit 62: the page is swapped out.
    pub fn is_swapped(&self) -> (r: bool)
        ensures
            r == bit_set(self.raw, 62),
    {
        (self.raw >> 62u64) & 1 == 1
    }

    /// Bit 61: the page is file-mapped or shared anonymous.
    pub fn is_file_mapped(&self) -> (r: bool)
        ensures
            r == bit_set(self.raw, 61),
    {
        (self.raw >> 61u64) & 1 == 1
    }

    /// Bits 0..55: the page frame number.
    pub fn page_frame_number(&self) -> (r: u64)
        ensures
            r == self.raw & PFN_MASK,
            r < 0x0080_0000_0000_0000,
    {
        proof {
            let raw = self.raw;
            assert(raw & 0x007F_FFFF_FFFF_FFFFu64 < 0x0080_0000_0000_0000u64) by (bit_vector);
        }
        self.raw & PFN_MASK
    }

    /// Physical address of the page, when it is present and not swapped.
    pub fn physical_address(&self) -> (r: Option<u64>)
        requires
            bit_set(self.raw, 63) && !bit_set(self.raw, 62) ==> (self.raw & PFN_MASK) * (PAGE_SIZE as int) <= u64::MAX,
        ensures
            r == (if bit_set(self.raw, 63) && !bit_set(self.raw, 62) {
                Some(((self.raw & PFN_MASK) * (PAGE_SIZE as int)) as u64)
            } else {
                None::<u64>
            }),
    {
        if self.is_present() && !self.is_swapped() {
            Some(self.page_frame_number() * PAGE_SIZE as u64)
        } else {
            None
        }
    }
}

/// Offset in the pagemap file of the entry for virtual address `addr`.
pub fn pagemap_file_offset(addr: usize) -> (r: i64)
    ensures
        r == (addr as int / PAGE_SIZE as int) * PAGEMAP_ENTRY_SIZE as int,
{
    let page_offset = (addr / PAGE_SIZE) as i64;
    page_offset * PAGEMAP_ENTRY_SIZE as i64
}

/// Page utilization info for a memory region
#[derive(Clone, Copy, Debug, Default)]
pub struct PageUtilization {
    pub page_addr: usize,
    pub allocated_bytes: usize,
    pub total_bytes: usize,
}

/// Tracker for page table information: the pagemap file it reads from.
#[derive(Clone, Copy, Debug)]
pub struct PageTableTracker {
    pub pagemap_fd: Option<i32>,
}

/// The entries `first` and `second` describe one present physical page.
pub open spec fn same_frame(first: Option<PageMapEntry>, second: Option<PageMapEntry>) -> bool {
    match (first, second) {
        (Some(e1), Some(e2)) => bit_set(e1.raw, 63) && bit_set(e2.raw, 63) && e1.raw & PFN_MASK == e2.raw & PFN_MASK,
        _ => false,
    }
}

impl PageTableTracker {
    /// A tracker that reads from `pagemap_fd` (`None` where the pagemap is
    /// not available).
    pub fn new(pagemap_fd: Option<i32>) -> (t: Self)
        ensures
            t.pagemap_fd == pagemap_fd,
    {
        Self { pagemap_fd }
    }

    /// Whether two addresses, whose entries the tracker read as `first` and
    /// `second`, map to the same physical page
    pub fn same_physical_page(&self, first: Option<PageMapEntry>, second: Option<PageMapEntry>) -> (r: bool)
        ensures
            r == same_frame(first, second),
    {
        match (first, second) {
            (Some(e1), Some(e2)) => e1.is_present() && e2.is_present() && e1.page_frame_number() == e2.page_frame_number(),
            _ => false,
        }
    }

    /// Physical address for a virtual address whose entry the tracker read
    /// as `entry`
    pub fn physical_address(&self, entry: Option<PageMapEntry>) -> (r: Option<u64>)
        requires
            entry matches Some(e) ==> (bit_set(e.raw, 63) && !bit_set(e.raw, 62) ==> (e.raw & PFN_MASK) * (PAGE_SIZE as int) <= u64::MAX),
        ensures
            r == (match entry {
                Some(e) => if bit_set(e.raw, 63) && !bit_set(e.raw, 62) {
                    Some(((e.raw & PFN_MASK) * (PAGE_SIZE as int)) as u64)
                } else {
                    None::<u64>
                },
                None => None::<u64>,
            }),
    {
        match entry {
            Some(e) => e.physical_address(),
            None => None,
        }
    }
}

/// Whether a queried page counts as sparse: not present, or swapped out.
pub open spec fn entry_sparse(e: PageMapEntry) -> bool {
    !bit_set(e.raw, 63) || bit_set(e.raw, 62)
}

/// The pages among `entries` that could be queried, and how many of them
/// are sparse.
pub open spec fn sparse_tally(entries: Seq<Option<PageMapEntry>>) -> (nat, nat)
    decreases entries.len(),
{
    if entries.len() == 0 {
        (0, 0)
    } else {
        let (total, sparse) = sparse_tally(entries.drop_last());
        match entries.last() {
            Some(e) => (total + 1, if entry_sparse(e) { sparse + 1 } else { sparse }),
            None => (total, sparse),
        }
    }
}

/// Counts the pages of a region that could be queried (`Some`) and, of
/// those, the sparse ones.
pub fn sparse_counts(entries: &Vec<Option<PageMapEntry>>) -> (r: (usize, usize))
    ensures
        r.0 == sparse_tally(entries@).0,
        r.1 == sparse_tally(entries@).1,
        r.1 <= r.0 <= entries@.len(),
{
    let mut total: usize = 0;
    let mut sparse: usize = 0;
    let mut i: usize = 0;
    while i < entries.len()
        invariant
            i <= entries@.len(),
            total == sparse_tally(entries@.take(i as int)).0,
            sparse == sparse_tally(entries@.take(i as int)).1,
            sparse <= total <= i,
        decreases entries@.len() - i,
    {
        assert(entries@.take(i as int + 1).drop_last() =~= entries@.take(i as int));
        match entries[i] {
            Some(e) => {
                total = total + 1;
                if !e.is_present() || e.is_swapped() {
                    sparse = sparse + 1;
                }
            },
            None => {},
        }
        i = i + 1;
    }
    assert(entries@.take(entries@.len() as int) =~= entries@);
    (total, sparse)
}

/// Whether a region of `size` bytes is big enough to look at for
/// compaction: at least two pages.
pub fn worth_compacting(size: usize) -> (r: bool)
    ensures
        r == (size >= 2 * PAGE_SIZE),
{
    size >= 2 * PAGE_SIZE
}

} // verus!
