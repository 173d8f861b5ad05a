//! Slab allocator for tiny/small allocations
//!
//! This allocator manages fixed-size slots across up to four pages. Freed
//! slots are kept on a free list and handed out again, most recently freed
//! first; otherwise slots are handed out in order from the newest page.
//! Pages are mapped by the caller when the slab asks for one.

use vstd::prelude::*;
use crate::page::PAGE_SIZE;

verus! {

/// Number of size classes in slab (16B to 8KB, power of 2)
pub const SLAB_CLASSES: usize = 11;

/// Maximum number of pages a slab can grow to
pub const MAX_SLAB_PAGES: usize = 4;

/// Which page request of an allocation the slab is waiting on.
#[derive(Debug, Clone, Copy, PartialEq, Eq, Structural)]
pub enum PageRequest {
    /// The slab had no page yet.
    First,
    /// The newest page had no free slot left.
    Next,
}

/// Outcome of one step of a slab allocation.
#[derive(Debug, Clone, Copy, PartialEq, Eq, Structural)]
pub enum SlabStep {
    /// The slot at this address is allocated.
    Slot(usize),
    /// Map one page and pass it to `Slab::add_page` with this request.
    NeedPage(PageRequest),
    /// All pages are used up.
    Full,
}

/// Slab allocator for a single size class
pub struct Slab {
    /// Size of each slot
    slot_size: usize,
    /// Number of slots per slab page
    slots_per_page: usize,
    /// Freed slots, most recently freed last
    free: Vec<usize>,
    /// Number of allocated slots
    allocated: usize,
    /// All slab pages
    pages: Vec<usize>,
    /// Next slot to allocate in current page (bump allocator within page)
    next_slot: usize,
    /// The slots handed out and not yet given back.
    live: Ghost<Set<usize>>,
}

/// `addr` lies in page `i` of `pages`.
pub open spec fn in_page(pages: Seq<usize>, i: int, addr: nat) -> bool {
    0 <= i < pages.len() && pages[i] <= addr < pages[i] + PAGE_SIZE
}

/// `addr` lies in one of `pages`.
pub open spec fn in_some_page(pages: Seq<usize>, addr: nat) -> bool {
    exists|i: int| in_page(pages, i, addr)
}

/// Slot `k` of page `i` is one that a slab with `pages`, `per_page` slots
/// a page and `bump` slots used in its newest page has handed out: any slot
/// of an older page, one of the first `bump` of the newest.
pub open spec fn handed_slot(pages: Seq<usize>, per_page: nat, bump: nat, i: int, k: int) -> bool {
    &&& 0 <= i < pages.len()
    &&& 0 <= k
    &&& k < (if i == pages.len() - 1 { bump as int } else { per_page as int })
}

/// `a` is the address of a slot that has been handed out: slot `k` of
/// page `i`, `k * slot_size` bytes into the page.
pub open spec fn handed(pages: Seq<usize>, slot_size: nat, per_page: nat, bump: nat, a: int) -> bool {
    exists|i: int, k: int| #[trigger] handed_slot(pages, per_page, bump, i, k) && a == pages[i] + k * slot_size
}

/// Number of slots handed out so far.
pub open spec fn handed_count(pages_len: nat, per_page: nat, bump: nat) -> int {
    if pages_len == 0 {
        0
    } else {
        (pages_len - 1) * per_page + bump
    }
}

/// No two pages overlap.
pub open spec fn pages_disjoint(pages: Seq<usize>) -> bool {
    forall|i: int, j: int| 0 <= i < j < pages.len() ==>
        #[trigger] pages[i] + PAGE_SIZE <= #[trigger] pages[j] || pages[j] + PAGE_SIZE <= pages[i]
}

/// `page` overlaps none of `pages`.
pub open spec fn page_is_fresh(pages: Seq<usize>, page: usize) -> bool {
    forall|i: int| 0 <= i < pages.len() ==> page + PAGE_SIZE <= #[trigger] pages[i] || pages[i] + PAGE_SIZE <= page
}

/// A handed-out slot of page-aligned pages is a multiple of the slot size
/// when the slot size divides the page size.
proof fn lemma_slot_aligned(pages: Seq<usize>, slot_size: nat, per_page: nat, bump: nat, a: int)
    requires
        handed(pages, slot_size, per_page, bump, a),
        forall|i: int| 0 <= i < pages.len() ==> #[trigger] pages[i] % PAGE_SIZE == 0,
        slot_size >= 1,
        PAGE_SIZE as int % slot_size as int == 0,
    ensures
        a % slot_size as int == 0,
{
    let (i, k) = choose|i: int, k: int| #[trigger] handed_slot(pages, per_page, bump, i, k) && a == pages[i] + k * slot_size;
    let m = pages[i] as int / PAGE_SIZE as int;
    let c = PAGE_SIZE as int / slot_size as int;
    assert(pages[i] == PAGE_SIZE * m);
    assert(PAGE_SIZE as int == slot_size * c) by (nonlinear_arith)
        requires PAGE_SIZE as int % slot_size as int == 0, c == PAGE_SIZE as int / slot_size as int, slot_size >= 1;
    assert(a == slot_size * (c * m + k)) by (nonlinear_arith)
        requires a == pages[i] + k * slot_size, pages[i] == PAGE_SIZE * m, PAGE_SIZE as int == slot_size * c;
    vstd::arithmetic::div_mod::lemma_mod_multiples_basic(c * m + k, slot_size as int);
    assert((c * m + k) * slot_size == slot_size * (c * m + k)) by (nonlinear_arith);
}

/// A slot `k` of a page with `per_page` slots lies inside the page.
proof fn lemma_slot_in_page(slot_size: nat, per_page: nat, k: int)
    requires
        slot_size >= 1,
        per_page * slot_size <= PAGE_SIZE,
        0 <= k < per_page,
    ensures
        0 <= k * slot_size,
        k * slot_size + slot_size <= PAGE_SIZE,
{
    assert(k * slot_size + slot_size <= per_page * slot_size) by (nonlinear_arith)
        requires 0 <= k < per_page, slot_size >= 1;
    assert(0 <= k * slot_size) by (nonlinear_arith) requires 0 <= k, slot_size >= 1;
}

/// Handing out the next slot of the newest page (`bump`, one not yet
/// handed out) adds exactly that slot to those handed out.
proof fn lemma_bump_fresh(pages: Seq<usize>, slot_size: nat, per_page: nat, bump: nat)
    requires
        pages.len() > 0,
        slot_size >= 1,
        per_page * slot_size <= PAGE_SIZE,
        bump < per_page,
        pages_disjoint(pages),
    ensures
        !handed(pages, slot_size, per_page, bump, pages.last() + bump * slot_size),
        forall|a: int| handed(pages, slot_size, per_page, bump + 1, a)
            <==> (handed(pages, slot_size, per_page, bump, a) || a == pages.last() + bump * slot_size),
{
    let n = pages.len() as int;
    let new = pages.last() + bump * slot_size;
    lemma_slot_in_page(slot_size, per_page, bump as int);
    if handed(pages, slot_size, per_page, bump, new) {
        let (i, k) = choose|i: int, k: int| #[trigger] handed_slot(pages, per_page, bump, i, k) && new == pages[i] + k * slot_size;
        if i == n - 1 {
            assert(k * slot_size < bump * slot_size) by (nonlinear_arith)
                requires 0 <= k < bump, slot_size >= 1;
        } else {
            lemma_slot_in_page(slot_size, per_page, k);
            assert(pages[i] + PAGE_SIZE <= pages[n - 1] || pages[n - 1] + PAGE_SIZE <= pages[i]);
        }
    }
    assert forall|a: int| handed(pages, slot_size, per_page, bump + 1, a)
        <==> (handed(pages, slot_size, per_page, bump, a) || a == new) by {
        if handed(pages, slot_size, per_page, bump + 1, a) {
            let (i, k) = choose|i: int, k: int| #[trigger] handed_slot(pages, per_page, (bump + 1) as nat, i, k) && a == pages[i] + k * slot_size;
            if !(i == n - 1 && k == bump) {
                assert(handed_slot(pages, per_page, bump, i, k));
            }
        }
        if handed(pages, slot_size, per_page, bump, a) {
            let (i, k) = choose|i: int, k: int| #[trigger] handed_slot(pages, per_page, bump, i, k) && a == pages[i] + k * slot_size;
            assert(handed_slot(pages, per_page, (bump + 1) as nat, i, k));
        }
        if a == new {
            assert(handed_slot(pages, per_page, (bump + 1) as nat, n - 1, bump as int));
        }
    }
}

/// Adding a fresh page once the newest page is used up (or to a slab with
/// no page) hands out no slot yet, and keeps the pages apart.
proof fn lemma_new_page(pages: Seq<usize>, slot_size: nat, per_page: nat, bump: nat, page: usize)
    requires
        pages.len() == 0 || bump == per_page,
        pages_disjoint(pages),
        page_is_fresh(pages, page),
    ensures
        pages_disjoint(pages.push(page)),
        forall|a: int| handed(pages.push(page), slot_size, per_page, 0, a) <==> handed(pages, slot_size, per_page, bump, a),
        handed_count(pages.push(page).len(), per_page, 0) == (if pages.len() == 0 { 0 } else { handed_count(pages.len(), per_page, bump) }),
{
    let p2 = pages.push(page);
    let n = pages.len() as int;
    assert forall|i: int, j: int| 0 <= i < j < p2.len() implies
        #[trigger] p2[i] + PAGE_SIZE <= #[trigger] p2[j] || p2[j] + PAGE_SIZE <= p2[i] by {
        if j == n {
            assert(p2[i] == pages[i]);
        } else {
            assert(p2[i] == pages[i] && p2[j] == pages[j]);
        }
    }
    assert forall|a: int| handed(p2, slot_size, per_page, 0, a) <==> handed(pages, slot_size, per_page, bump, a) by {
        if handed(p2, slot_size, per_page, 0, a) {
            let (i, k) = choose|i: int, k: int| #[trigger] handed_slot(p2, per_page, 0, i, k) && a == p2[i] + k * slot_size;
            assert(i < n);
            assert(handed_slot(pages, per_page, bump, i, k));
            assert(p2[i] == pages[i]);
        }
        if handed(pages, slot_size, per_page, bump, a) {
            let (i, k) = choose|i: int, k: int| #[trigger] handed_slot(pages, per_page, bump, i, k) && a == pages[i] + k * slot_size;
            assert(handed_slot(p2, per_page, 0, i, k));
            assert(p2[i] == pages[i]);
        }
    }
    if n > 0 {
        assert(p2.len() == n + 1);
        assert(handed_count(p2.len(), per_page, 0) == n * per_page);
        assert(n * per_page == (n - 1) * per_page + per_page) by (nonlinear_arith);
        assert(handed_count(pages.len(), per_page, bump) == (n - 1) * per_page + per_page);
    }
}

impl Slab {
    /// The slab's own account of its slots: the pages do not overlap; the
    /// free list holds distinct slots that were handed out; the live slots
    /// (handed out and not given back) are handed-out slots off the free
    /// list, `allocated` of them; and the live and free slots together are
    /// all that were handed out.
    pub closed spec fn sound(&self) -> bool {
        &&& self.next_slot <= self.slots_per_page
        &&& self.pages@.len() == 0 ==> self.next_slot == 0
        &&& pages_disjoint(self.pages@)
        &&& forall|i: int| 0 <= i < self.pages@.len() ==> #[trigger] self.pages@[i] % PAGE_SIZE == 0
        &&& self.free@.no_duplicates()
        &&& forall|j: int| 0 <= j < self.free@.len() ==>
            handed(self.pages@, self.slot_size as nat, self.slots_per_page as nat, self.next_slot as nat, #[trigger] self.free@[j] as int)
        &&& forall|a: usize| #[trigger] self.live@.contains(a) ==>
            handed(self.pages@, self.slot_size as nat, self.slots_per_page as nat, self.next_slot as nat, a as int)
            && !self.free@.contains(a)
        &&& self.live@.finite()
        &&& self.live@.len() == self.allocated
        &&& self.allocated + self.free@.len() == handed_count(self.pages@.len(), self.slots_per_page as nat, self.next_slot as nat)
    }

    /// The slots handed out and not yet given back.
    pub closed spec fn live_view(&self) -> Set<usize> {
        self.live@
    }

    /// Whether `a` is a slot of this slab that has been handed out (live or
    /// on the free list): slot `k` of a page, `k * slot size` bytes in.
    pub closed spec fn is_slot(&self, a: usize) -> bool {
        handed(self.pages@, self.slot_size as nat, self.slots_per_page as nat, self.next_slot as nat, a as int)
    }

    /// Well-formedness.
    pub closed spec fn wf(&self) -> bool {
        &&& self.slot_size >= 1
        &&& self.slots_per_page == PAGE_SIZE / self.slot_size
        &&& self.pages@.len() <= MAX_SLAB_PAGES
        &&& forall|i: int| 0 <= i < self.pages@.len() ==> #[trigger] self.pages@[i] + PAGE_SIZE + self.slot_size <= usize::MAX
    }

    pub closed spec fn slot_size_view(&self) -> usize {
        self.slot_size
    }

    /// The pages, oldest first.
    pub closed spec fn pages_view(&self) -> Seq<usize> {
        self.pages@
    }

    /// The free list, most recently freed last.
    pub closed spec fn free_view(&self) -> Seq<usize> {
        self.free@
    }

    /// Slots handed out from the newest page so far.
    pub closed spec fn bump(&self) -> usize {
        self.next_slot
    }

    /// Number of allocated slots.
    pub closed spec fn allocated_count(&self) -> usize {
        self.allocated
    }

    /// Create a new slab for the given slot size
    pub fn new(slot_size: usize) -> (s: Self)
        requires
            slot_size >= 16,
        ensures
            s.wf(),
            s.slot_size_view() == slot_size,
            s.pages_view() == Seq::<usize>::empty(),
            s.free_view() == Seq::<usize>::empty(),
            s.bump() == 0,
            s.allocated_count() == 0,
            s.sound(),
            s.live_view() == Set::<usize>::empty(),
    {
        let slots_per_page = PAGE_SIZE / slot_size;
        Self {
            slot_size,
            slots_per_page,
            free: Vec::new(),
            allocated: 0,
            pages: Vec::new(),
            next_slot: 0,
            live: Ghost(Set::empty()),
        }
    }

    /// The slot handed out from the newest page, after the request checks.
    fn bump_slot(&mut self) -> (r: SlabStep)
        requires
            old(self).wf(),
            old(self).pages@.len() > 0,
            old(self).next_slot * old(self).slot_size <= PAGE_SIZE,
            old(self).allocated < usize::MAX,
        ensures
            final(self).wf(),
            r == SlabStep::Slot((old(self).pages@.last() + old(self).next_slot * old(self).slot_size) as usize),
            final(self).next_slot == old(self).next_slot + 1,
            final(self).allocated == old(self).allocated + 1,
            final(self).pages@ == old(self).pages@,
            final(self).free@ == old(self).free@,
            final(self).slot_size == old(self).slot_size,
            final(self).slots_per_page == old(self).slots_per_page,
            final(self).live@ == old(self).live@.insert((old(self).pages@.last() + old(self).next_slot * old(self).slot_size) as usize),
            old(self).sound() && old(self).next_slot < old(self).slots_per_page ==> final(self).sound()
                && !old(self).live@.contains((old(self).pages@.last() + old(self).next_slot * old(self).slot_size) as usize)
                && final(self).is_slot((old(self).pages@.last() + old(self).next_slot * old(self).slot_size) as usize),
            old(self).sound() && old(self).next_slot < old(self).slots_per_page && PAGE_SIZE % old(self).slot_size == 0
                ==> (old(self).pages@.last() + old(self).next_slot * old(self).slot_size) as usize % old(self).slot_size == 0,
    {
        let page = self.pages[self.pages.len() - 1];
        proof {
            assert(self.next_slot <= PAGE_SIZE) by (nonlinear_arith)
                requires self.next_slot * self.slot_size <= PAGE_SIZE, self.slot_size >= 1;
        }
        let offset = self.next_slot * self.slot_size;
        self.next_slot = self.next_slot + 1;
        self.allocated = self.allocated + 1;
        assert(self.pages@[self.pages@.len() - 1] + PAGE_SIZE + self.slot_size <= usize::MAX);
        let q = page + offset;
        self.live = Ghost(self.live@.insert(q));
        proof {
            let o = *old(self);
            if o.sound() && o.next_slot < o.slots_per_page {
                let ss = o.slot_size as nat;
                let spp = o.slots_per_page as nat;
                let b = o.next_slot as nat;
                assert(spp * ss <= PAGE_SIZE) by (nonlinear_arith)
                    requires spp == PAGE_SIZE as int / ss as int, ss >= 1;
                lemma_bump_fresh(o.pages@, ss, spp, b);
                assert(q as int == o.pages@.last() + b * ss);
                assert forall|j: int| 0 <= j < self.free@.len() implies
                    handed(self.pages@, ss, spp, self.next_slot as nat, #[trigger] self.free@[j] as int) by {
                    assert(handed(o.pages@, ss, spp, b, o.free@[j] as int));
                }
                assert forall|a: usize| #[trigger] self.live@.contains(a) implies
                    handed(self.pages@, ss, spp, self.next_slot as nat, a as int) && !self.free@.contains(a) by {
                    if a != q {
                        assert(o.live@.contains(a));
                    } else if self.free@.contains(a) {
                        let j = choose|j: int| 0 <= j < o.free@.len() && o.free@[j] == a;
                        assert(handed(o.pages@, ss, spp, b, o.free@[j] as int));
                    }
                }
                assert(!o.live@.contains(q));
                assert(self.live@.len() == o.live@.len() + 1);
                assert(self.is_slot(q));
                if PAGE_SIZE % o.slot_size == 0 {
                    lemma_slot_aligned(self.pages@, ss, spp, self.next_slot as nat, q as int);
                }
            }
        }
        SlabStep::Slot(q)
    }

    /// Allocate a slot from this slab: the most recently freed slot if any;
    /// otherwise the next slot of the newest page, asking for a page when
    /// there is none or the newest is used up, and `Full` when the slab
    /// already has all its pages.
    pub fn allocate(&mut self) -> (r: SlabStep)
        requires
            old(self).wf(),
            old(self).allocated_count() < usize::MAX,
        ensures
            final(self).wf(),
            final(self).slot_size_view() == old(self).slot_size_view(),
            final(self).pages_view() == old(self).pages_view(),
            old(self).free_view().len() > 0 ==> (r == SlabStep::Slot(old(self).free_view().last())
                && final(self).free_view() == old(self).free_view().drop_last()
                && final(self).allocated_count() == old(self).allocated_count() + 1
                && final(self).bump() == old(self).bump()),
            old(self).free_view().len() == 0 && old(self).pages_view().len() == 0 ==> (
                r == SlabStep::NeedPage(PageRequest::First) && *final(self) == *old(self)),
            old(self).free_view().len() == 0 && old(self).pages_view().len() > 0
                && old(self).bump() >= PAGE_SIZE / old(self).slot_size_view() ==> (
                    *final(self) == *old(self) && (old(self).pages_view().len() >= MAX_SLAB_PAGES ==> r == SlabStep::Full)
                    && (old(self).pages_view().len() < MAX_SLAB_PAGES ==> r == SlabStep::NeedPage(PageRequest::Next))),
            old(self).free_view().len() == 0 && old(self).pages_view().len() > 0
                && old(self).bump() < PAGE_SIZE / old(self).slot_size_view() ==> (
                    r == SlabStep::Slot((old(self).pages_view().last() + old(self).bump() * old(self).slot_size_view()) as usize)
                    && final(self).bump() == old(self).bump() + 1
                    && final(self).allocated_count() == old(self).allocated_count() + 1
                    && final(self).free_view() == old(self).free_view()),
            r matches SlabStep::Slot(q) ==> final(self).live_view() == old(self).live_view().insert(q),
            !(r is Slot) ==> final(self).live_view() == old(self).live_view(),
            old(self).sound() ==> final(self).sound(),
            old(self).sound() ==> (r matches SlabStep::Slot(q) ==> !old(self).live_view().contains(q) && final(self).is_slot(q)),
            old(self).sound() && PAGE_SIZE % old(self).slot_size_view() == 0 ==> (r matches SlabStep::Slot(q) ==> q % old(self).slot_size_view() == 0),
    {
        let ghost aligned_slots = old(self).sound() && PAGE_SIZE % old(self).slot_size_view() == 0;
        if self.free.len() > 0 {
            let ptr = match self.free.pop() {
                Some(p) => p,
                None => 0,
            };
            self.allocated = self.allocated + 1;
            self.live = Ghost(self.live@.insert(ptr));
            proof {
                let o = *old(self);
                if o.sound() {
                    let ss = o.slot_size as nat;
                    let spp = o.slots_per_page as nat;
                    let b = o.next_slot as nat;
                    let n = o.free@.len() as int;
                    assert(ptr == o.free@[n - 1]);
                    assert(self.free@ =~= o.free@.drop_last());
                    assert(handed(o.pages@, ss, spp, b, o.free@[n - 1] as int));
                    assert(!self.free@.contains(ptr)) by {
                        if self.free@.contains(ptr) {
                            let j = choose|j: int| 0 <= j < self.free@.len() && self.free@[j] == ptr;
                            assert(o.free@[j] == o.free@[n - 1]);
                        }
                    }
                    assert(!o.live@.contains(ptr)) by {
                        assert(o.free@.contains(ptr));
                    }
                    assert forall|j: int| 0 <= j < self.free@.len() implies
                        handed(self.pages@, ss, spp, b, #[trigger] self.free@[j] as int) by {
                        assert(self.free@[j] == o.free@[j]);
                    }
                    assert forall|a: usize| #[trigger] self.live@.contains(a) implies
                        handed(self.pages@, ss, spp, b, a as int) && !self.free@.contains(a) by {
                        if a != ptr {
                            assert(o.live@.contains(a));
                            if self.free@.contains(a) {
                                let j = choose|j: int| 0 <= j < self.free@.len() && self.free@[j] == a;
                                assert(o.free@[j] == a);
                            }
                        }
                    }
                    assert(self.is_slot(ptr));
                    if PAGE_SIZE % o.slot_size == 0 {
                        lemma_slot_aligned(self.pages@, ss, spp, b, ptr as int);
                    }
                }
            }
            return SlabStep::Slot(ptr);
        }
        if self.pages.len() == 0 {
            return SlabStep::NeedPage(PageRequest::First);
        }
        if self.next_slot >= self.slots_per_page {
            if self.pages.len() >= MAX_SLAB_PAGES {
                return SlabStep::Full;
            }
            return SlabStep::NeedPage(PageRequest::Next);
        }
        proof {
            assert(self.next_slot * self.slot_size <= self.slots_per_page * self.slot_size) by (nonlinear_arith)
                requires self.next_slot < self.slots_per_page;
            assert(self.slots_per_page * self.slot_size <= PAGE_SIZE) by (nonlinear_arith)
                requires self.slots_per_page == PAGE_SIZE / self.slot_size, self.slot_size >= 1;
        }
        self.bump_slot()
    }

    /// Adds the freshly mapped `page` and goes on with the allocation that
    /// asked for it (`request`): after the first page the newest page is
    /// checked for room again (asking for a further page if it has none);
    /// after a further page its first slot is handed out.
    pub fn add_page(&mut self, request: PageRequest, page: usize) -> (r: SlabStep)
        requires
            old(self).wf(),
            old(self).allocated_count() < usize::MAX,
            old(self).pages_view().len() < MAX_SLAB_PAGES,
            page + PAGE_SIZE + old(self).slot_size_view() <= usize::MAX,
            page % PAGE_SIZE == 0,
        ensures
            final(self).wf(),
            final(self).slot_size_view() == old(self).slot_size_view(),
            final(self).pages_view() == old(self).pages_view().push(page),
            final(self).free_view() == old(self).free_view(),
            request == PageRequest::Next || PAGE_SIZE / old(self).slot_size_view() > 0 ==> (
                r == SlabStep::Slot(page) && final(self).bump() == 1
                && final(self).allocated_count() == old(self).allocated_count() + 1),
            request == PageRequest::First && PAGE_SIZE / old(self).slot_size_view() == 0 ==> (
                final(self).bump() == 0 && final(self).allocated_count() == old(self).allocated_count()
                && (old(self).pages_view().len() + 1 >= MAX_SLAB_PAGES ==> r == SlabStep::Full)
                && (old(self).pages_view().len() + 1 < MAX_SLAB_PAGES ==> r == SlabStep::NeedPage(PageRequest::Next))),
            r matches SlabStep::Slot(q) ==> final(self).live_view() == old(self).live_view().insert(q),
            !(r is Slot) ==> final(self).live_view() == old(self).live_view(),
            old(self).sound() && page_is_fresh(old(self).pages_view(), page) && PAGE_SIZE / old(self).slot_size_view() > 0
                && (old(self).pages_view().len() == 0 || old(self).bump() >= PAGE_SIZE / old(self).slot_size_view()) ==> (
                    final(self).sound()
                    && (r matches SlabStep::Slot(q) ==> !old(self).live_view().contains(q) && final(self).is_slot(q)
                        && (PAGE_SIZE % old(self).slot_size_view() == 0 ==> q % old(self).slot_size_view() == 0))),
    {
        self.pages.push(page);
        self.next_slot = 0;
        proof {
            let o = *old(self);
            if o.sound() && page_is_fresh(o.pages@, page) && (o.pages@.len() == 0 || o.next_slot >= o.slots_per_page) {
                let ss = o.slot_size as nat;
                let spp = o.slots_per_page as nat;
                let b = o.next_slot as nat;
                lemma_new_page(o.pages@, ss, spp, b, page);
                assert forall|j: int| 0 <= j < self.free@.len() implies
                    handed(self.pages@, ss, spp, 0, #[trigger] self.free@[j] as int) by {
                    assert(handed(o.pages@, ss, spp, b, o.free@[j] as int));
                }
                assert forall|a: usize| #[trigger] self.live@.contains(a) implies
                    handed(self.pages@, ss, spp, 0, a as int) && !self.free@.contains(a) by {
                    assert(o.live@.contains(a));
                }
                if o.pages@.len() == 0 {
                    assert(o.free@.len() == 0);
                    assert(o.allocated == 0);
                }
                assert(self.sound());
            }
        }
        match request {
            PageRequest::First => {
                if self.next_slot >= self.slots_per_page {
                    if self.pages.len() >= MAX_SLAB_PAGES {
                        return SlabStep::Full;
                    }
                    return SlabStep::NeedPage(PageRequest::Next);
                }
                self.bump_slot()
            },
            PageRequest::Next => self.bump_slot(),
        }
    }

    /// Return a slot to this slab: a pointer into one of the slab's pages
    /// goes on the free list; any other pointer is ignored.
    pub fn dealloc(&mut self, ptr: usize)
        requires
            old(self).wf(),
            in_some_page(old(self).pages_view(), ptr as nat) ==> old(self).allocated_count() > 0,
            forall|i: int| #[trigger] in_page(old(self).pages_view(), i, ptr as nat)
                ==> (ptr - old(self).pages_view()[i]) % (old(self).slot_size_view() as int) == 0,
        ensures
            final(self).wf(),
            in_some_page(old(self).pages_view(), ptr as nat) ==> (
                final(self).free_view() == old(self).free_view().push(ptr)
                && final(self).allocated_count() == old(self).allocated_count() - 1),
            !in_some_page(old(self).pages_view(), ptr as nat) ==> (
                final(self).free_view() == old(self).free_view()
                && final(self).allocated_count() == old(self).allocated_count()),
            final(self).pages_view() == old(self).pages_view(),
            final(self).bump() == old(self).bump(),
            final(self).slot_size_view() == old(self).slot_size_view(),
            in_some_page(old(self).pages_view(), ptr as nat) ==> final(self).live_view() == old(self).live_view().remove(ptr),
            !in_some_page(old(self).pages_view(), ptr as nat) ==> final(self).live_view() == old(self).live_view(),
            old(self).sound() && old(self).live_view().contains(ptr) ==> final(self).sound()
                && in_some_page(old(self).pages_view(), ptr as nat),
    {
        let mut found = false;
        let mut i: usize = 0;
        while i < self.pages.len() && !found
            invariant
                self.wf(),
                i <= self.pages@.len(),
                found ==> in_some_page(self.pages@, ptr as nat),
                !found ==> forall|j: int| 0 <= j < i ==> !#[trigger] in_page(self.pages@, j, ptr as nat),
            decreases self.pages@.len() - i + (if found { 0int } else { 1int }),
        {
            let page_start = self.pages[i];
            let page_end = page_start + PAGE_SIZE;
            if ptr >= page_start && ptr < page_end {
                found = true;
                assert(in_page(self.pages@, i as int, ptr as nat));
            } else {
                i = i + 1;
            }
        }
        proof {
            let o = *old(self);
            if o.sound() && o.live@.contains(ptr) {
                let ss = o.slot_size as nat;
                let spp = o.slots_per_page as nat;
                let b = o.next_slot as nat;
                assert(handed(o.pages@, ss, spp, b, ptr as int));
                let (pi, k) = choose|pi: int, k: int| #[trigger] handed_slot(o.pages@, spp, b, pi, k) && ptr == o.pages@[pi] + k * ss;
                assert(spp * ss <= PAGE_SIZE) by (nonlinear_arith)
                    requires spp == PAGE_SIZE as int / ss as int, ss >= 1;
                lemma_slot_in_page(ss, spp, k);
                assert(in_page(o.pages@, pi, ptr as nat));
            }
        }
        if !found {
            return;
        }
        self.free.push(ptr);
        self.allocated = self.allocated - 1;
        self.live = Ghost(self.live@.remove(ptr));
        proof {
            let o = *old(self);
            if o.sound() && o.live@.contains(ptr) {
                let ss = o.slot_size as nat;
                let spp = o.slots_per_page as nat;
                let b = o.next_slot as nat;
                assert(!o.free@.contains(ptr));
                assert forall|i: int, j: int| 0 <= i < self.free@.len() && 0 <= j < self.free@.len() && i != j
                    implies self.free@[i] != self.free@[j] by {
                    if i < o.free@.len() && j < o.free@.len() {
                        assert(self.free@[i] == o.free@[i] && self.free@[j] == o.free@[j]);
                    } else if i < o.free@.len() {
                        assert(self.free@[i] == o.free@[i]);
                        assert(o.free@.contains(o.free@[i]));
                    } else {
                        assert(self.free@[j] == o.free@[j]);
                        assert(o.free@.contains(o.free@[j]));
                    }
                }
                assert forall|j: int| 0 <= j < self.free@.len() implies
                    handed(self.pages@, ss, spp, b, #[trigger] self.free@[j] as int) by {
                    if j < o.free@.len() {
                        assert(self.free@[j] == o.free@[j]);
                    }
                }
                assert forall|a: usize| #[trigger] self.live@.contains(a) implies
                    handed(self.pages@, ss, spp, b, a as int) && !self.free@.contains(a) by {
                    assert(o.live@.contains(a));
                    if self.free@.contains(a) {
                        let j = choose|j: int| 0 <= j < self.free@.len() && self.free@[j] == a;
                        if j < o.free@.len() {
                            assert(o.free@[j] == a);
                        }
                    }
                }
            }
        }
    }

    /// The pages that the slab holds, to be unmapped when it is dropped.
    pub fn pages(&self) -> (r: &Vec<usize>)
        ensures
            r@ == self.pages_view(),
    {
        &self.pages
    }
}

impl Default for Slab {
    fn default() -> (s: Self)
        ensures
            s.wf(),
            s.slot_size_view() == 64,
    {
        Self::new(64)
    }
}

/// Law: a slot given back to a slab (one in its pages, so `dealloc` pushes
/// it on the free list) is the next slot `allocate` hands out, and taking
/// it leaves the free list as it was before.
pub proof fn lemma_slab_reuses_freed_slot(free: Seq<usize>, ptr: usize)
    ensures
        free.push(ptr).len() > 0,
        free.push(ptr).last() == ptr,
        free.push(ptr).drop_last() == free,
{
    assert(free.push(ptr).drop_last() =~= free);
}

/// Law: a slab whose account is sound, with no free slot and
/// `MAX_SLAB_PAGES * (PAGE_SIZE / slot size)` live slots, has all its pages
/// and has used up the newest, so `allocate` answers `Full`. (While the
/// account is sound, `allocate` hands out only slots that are not live,
/// each a slot of one of the slab's pages, which never overlap.)
pub proof fn lemma_slab_full(s: Slab)
    requires
        s.wf(),
        s.sound(),
        s.free_view().len() == 0,
        PAGE_SIZE / s.slot_size_view() > 0,
        s.allocated_count() == MAX_SLAB_PAGES * (PAGE_SIZE / s.slot_size_view()),
    ensures
        s.pages_view().len() == MAX_SLAB_PAGES,
        s.bump() >= PAGE_SIZE / s.slot_size_view(),
{
    let spp = s.slots_per_page as int;
    let n = s.pages@.len() as int;
    let b = s.next_slot as int;
    assert(s.allocated == handed_count(n as nat, spp as nat, b as nat));
    if n == 0 {
        assert(false);
    }
    if n < 4 {
        assert((n - 1) * spp + b <= 3 * spp) by (nonlinear_arith)
            requires 1 <= n < 4, 0 <= b <= spp, spp > 0;
    } else {
        assert((n - 1) * spp == 3 * spp) by (nonlinear_arith) requires n == 4;
    }
}

} // verus!
