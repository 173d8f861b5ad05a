//! Magazine caching with symmetric full/empty stacks
//!
//! A magazine holds up to `MAGAZINE_CAPACITY` block addresses. Each size
//! class has a global pool with a stack of full magazines and a stack of
//! empty ones, for closed-loop transfer between threads.

use vstd::prelude::*;

verus! {

pub const MAGAZINE_CAPACITY: usize = 64;
pub const NUM_SIZE_CLASSES: usize = 13;
pub const MAX_GLOBAL_MAGAZINES_PER_CLASS: usize = 8;

/// Page size of the metadata allocator.
pub const PAGE_SIZE: usize = 4096;
/// Bytes that one magazine node takes in memory: a link, `MAGAZINE_CAPACITY`
/// block addresses and a count, eight bytes each.
pub const NODE_SIZE: usize = 528;
/// Alignment of a magazine node in memory.
pub const NODE_ALIGN: usize = 8;

/// Magazine: A container for 64 memory block pointers
#[derive(Debug, Clone, PartialEq, Eq)]
pub struct Magazine {
    pub blocks: Vec<usize>,
    pub count: usize,
}

impl Magazine {
    /// Well-formedness: storage for `MAGAZINE_CAPACITY` addresses, of which
    /// the first `count` are held.
    pub open spec fn wf(&self) -> bool {
        self.blocks@.len() == MAGAZINE_CAPACITY && self.count <= MAGAZINE_CAPACITY
    }

    /// The held block addresses, oldest first.
    pub open spec fn view(&self) -> Seq<usize> {
        self.blocks@.take(self.count as int)
    }

    pub fn new() -> (m: Self)
        ensures
            m.wf(),
            m@ == Seq::<usize>::empty(),
    {
        let mut blocks: Vec<usize> = Vec::new();
        let mut i: usize = 0;
        while i < MAGAZINE_CAPACITY
            invariant
                blocks@.len() == i,
                i <= MAGAZINE_CAPACITY,
            decreases MAGAZINE_CAPACITY - i,
        {
            blocks.push(0);
            i = i + 1;
        }
        let m = Self { blocks, count: 0 };
        assert(m@ =~= Seq::<usize>::empty());
        m
    }

    pub fn is_empty(&self) -> (r: bool)
        ensures
            r == (self.count == 0),
    {
        self.count == 0
    }

    pub fn is_full(&self) -> (r: bool)
        ensures
            r == (self.count >= MAGAZINE_CAPACITY),
    {
        self.count >= MAGAZINE_CAPACITY
    }

    /// Adds `ptr` on top; refused (`false`, nothing changed) when full.
    pub fn push(&mut self, ptr: usize) -> (r: bool)
        requires
            old(self).wf(),
        ensures
            final(self).wf(),
            r == (old(self).count < MAGAZINE_CAPACITY),
            r ==> final(self)@ == old(self)@.push(ptr),
            !r ==> final(self)@ == old(self)@,
            !r ==> final(self).count == old(self).count,
    {
        if self.count >= MAGAZINE_CAPACITY {
            return false;
        }
        let c = self.count;
        self.blocks.set(c, ptr);
        self.count = c + 1;
        assert(self@ =~= old(self)@.push(ptr));
        true
    }

    /// Takes the most recently pushed address.
    pub fn pop(&mut self) -> (r: Option<usize>)
        requires
            old(self).wf(),
        ensures
            final(self).wf(),
            old(self).count == 0 ==> r == None::<usize> && final(self)@ == old(self)@,
            old(self).count > 0 ==> r == Some(old(self)@.last()) && final(self)@ == old(self)@.drop_last(),
    {
        if self.count == 0 {
            return None;
        }
        self.count = self.count - 1;
        assert(self@ =~= old(self)@.drop_last());
        Some(self.blocks[self.count])
    }

    /// Drops every held address (the blocks are not freed): the count goes
    /// to zero and the storage is left as it was.
    pub fn clear(&mut self)
        requires
            old(self).wf(),
        ensures
            final(self).wf(),
            final(self)@ == Seq::<usize>::empty(),
            final(self).count == 0,
            final(self).blocks@ == old(self).blocks@,
    {
        self.count = 0;
        assert(self@ =~= Seq::<usize>::empty());
    }

    /// Adds the addresses `base`, `base + block_size`, ... of `count` blocks,
    /// as many as there is room for.
    pub fn bulk_init(&mut self, base: usize, block_size: usize, count: usize)
        requires
            old(self).wf(),
            count == 0 || base + (count - 1) * block_size <= usize::MAX,
        ensures
            final(self).wf(),
            final(self)@ == old(self)@ + Seq::new(
                vstd::math::min(count as int, MAGAZINE_CAPACITY - old(self).count) as nat,
                |i: int| (base + i * block_size) as usize,
            ),
    {
        let room = MAGAZINE_CAPACITY - self.count;
        let to_add = if count < room {
            count
        } else {
            room
        };
        let start = self.count;
        let mut i: usize = 0;
        while i < to_add
            invariant
                self.wf(),
                start == old(self).count,
                self.count == start,
                to_add <= MAGAZINE_CAPACITY - start,
                i <= to_add,
                to_add <= count,
                count == 0 || base + (count - 1) * block_size <= usize::MAX,
                self.blocks@.take(start as int) == old(self)@,
                forall|k: int| start <= k < start + i ==> #[trigger] self.blocks@[k] == (base + (k - start) * block_size) as usize,
            decreases to_add - i,
        {
            proof {
                assert(i * block_size <= (count - 1) * block_size) by (nonlinear_arith)
                    requires
                        i < count,
                ;
            }
            let addr = base + i * block_size;
            self.blocks.set(start + i, addr);
            assert(self.blocks@.take(start as int) =~= old(self)@);
            i = i + 1;
        }
        self.count = start + to_add;
        let ghost added = Seq::new(to_add as nat, |j: int| (base + j * block_size) as usize);
        assert(self@ =~= old(self)@ + added);
    }

    pub fn len(&self) -> (r: usize)
        ensures
            r == self.count,
    {
        self.count
    }
}

impl Default for Magazine {
    fn default() -> (m: Self)
        ensures
            m.wf(),
            m@ == Seq::<usize>::empty(),
    {
        Self::new()
    }
}

/// MagazineNode: A magazine with a link for the global stacks
#[derive(Debug, Clone, PartialEq, Eq)]
pub struct MagazineNode {
    pub next: usize,
    pub magazine: Magazine,
}

impl MagazineNode {
    pub fn new() -> (n: Self)
        ensures
            n.next == 0,
            n.magazine.wf(),
            n.magazine@ == Seq::<usize>::empty(),
    {
        Self { next: 0, magazine: Magazine::new() }
    }
}

impl Default for MagazineNode {
    fn default() -> (n: Self)
        ensures
            n.next == 0,
            n.magazine.wf(),
            n.magazine@ == Seq::<usize>::empty(),
    {
        Self::new()
    }
}

/// Symmetric global pool with full/empty stacks of magazines
pub struct GlobalMagazinePool {
    full: Vec<MagazineNode>,
    empty: Vec<MagazineNode>,
}

impl GlobalMagazinePool {
    /// Every magazine in the pool is well formed.
    pub open spec fn wf(&self) -> bool {
        &&& forall|i: int| 0 <= i < self.full_view().len() ==> (#[trigger] self.full_view()[i]).magazine.wf()
        &&& forall|i: int| 0 <= i < self.empty_view().len() ==> (#[trigger] self.empty_view()[i]).magazine.wf()
    }

    /// The stack of full magazines, bottom first.
    pub closed spec fn full_view(&self) -> Seq<MagazineNode> {
        self.full@
    }

    /// The stack of empty magazines, bottom first.
    pub closed spec fn empty_view(&self) -> Seq<MagazineNode> {
        self.empty@
    }

    pub fn new() -> (p: Self)
        ensures
            p.wf(),
            p.full_view() == Seq::<MagazineNode>::empty(),
            p.empty_view() == Seq::<MagazineNode>::empty(),
    {
        Self { full: Vec::new(), empty: Vec::new() }
    }

    /// Push a full magazine to the global pool
    pub fn push_full(&mut self, node: MagazineNode)
        requires
            old(self).wf(),
            node.magazine.wf(),
        ensures
            final(self).wf(),
            final(self).full_view() == old(self).full_view().push(node),
            final(self).empty_view() == old(self).empty_view(),
    {
        self.full.push(node);
        assert(self.empty_view() =~= old(self).empty_view());
        assert forall|i: int| 0 <= i < self.full_view().len() implies (#[trigger] self.full_view()[i]).magazine.wf() by {
            if i < old(self).full_view().len() {
                assert(self.full_view()[i] == old(self).full_view()[i]);
            }
        }
    }

    /// Pop a full magazine from the global pool
    pub fn pop_full(&mut self) -> (r: Option<MagazineNode>)
        requires
            old(self).wf(),
        ensures
            final(self).wf(),
            r matches Some(n) ==> n.magazine.wf(),
            old(self).full_view().len() == 0 ==> r == None::<MagazineNode> && final(self).full_view() == old(self).full_view(),
            old(self).full_view().len() > 0 ==> r == Some(old(self).full_view().last())
                && final(self).full_view() == old(self).full_view().drop_last(),
            final(self).empty_view() == old(self).empty_view(),
    {
        let r = self.full.pop();
        assert(self.empty_view() =~= old(self).empty_view());
        assert forall|i: int| 0 <= i < self.full_view().len() implies (#[trigger] self.full_view()[i]).magazine.wf() by {
            assert(self.full_view()[i] == old(self).full_view()[i]);
        }
        proof {
            if old(self).full_view().len() > 0 {
                assert(old(self).full_view()[old(self).full_view().len() - 1].magazine.wf());
            }
        }
        r
    }

    /// Push an empty magazine to the global pool
    pub fn push_empty(&mut self, node: MagazineNode)
        requires
            old(self).wf(),
            node.magazine.wf(),
        ensures
            final(self).wf(),
            final(self).empty_view() == old(self).empty_view().push(node),
            final(self).full_view() == old(self).full_view(),
    {
        self.empty.push(node);
        assert(self.full_view() =~= old(self).full_view());
        assert forall|i: int| 0 <= i < self.empty_view().len() implies (#[trigger] self.empty_view()[i]).magazine.wf() by {
            if i < old(self).empty_view().len() {
                assert(self.empty_view()[i] == old(self).empty_view()[i]);
            }
        }
    }

    /// Pop an empty magazine from the global pool
    pub fn pop_empty(&mut self) -> (r: Option<MagazineNode>)
        requires
            old(self).wf(),
        ensures
            final(self).wf(),
            r matches Some(n) ==> n.magazine.wf(),
            old(self).empty_view().len() == 0 ==> r == None::<MagazineNode> && final(self).empty_view() == old(self).empty_view(),
            old(self).empty_view().len() > 0 ==> r == Some(old(self).empty_view().last())
                && final(self).empty_view() == old(self).empty_view().drop_last(),
            final(self).full_view() == old(self).full_view(),
    {
        let r = self.empty.pop();
        assert(self.full_view() =~= old(self).full_view());
        assert forall|i: int| 0 <= i < self.empty_view().len() implies (#[trigger] self.empty_view()[i]).magazine.wf() by {
            assert(self.empty_view()[i] == old(self).empty_view()[i]);
        }
        proof {
            if old(self).empty_view().len() > 0 {
                assert(old(self).empty_view()[old(self).empty_view().len() - 1].magazine.wf());
            }
        }
        r
    }

    /// Number of full magazines, counted up to one more than the per-class
    /// limit.
    pub fn full_depth(&self) -> (r: usize)
        ensures
            r == vstd::math::min(self.full_view().len() as int, (MAX_GLOBAL_MAGAZINES_PER_CLASS + 1) as int),
    {
        let mut count: usize = 0;
        while count < self.full.len() && count < MAX_GLOBAL_MAGAZINES_PER_CLASS + 1
            invariant
                count <= self.full@.len(),
                count <= MAX_GLOBAL_MAGAZINES_PER_CLASS + 1,
            decreases self.full@.len() - count,
        {
            count = count + 1;
        }
        count
    }
}

impl Default for GlobalMagazinePool {
    fn default() -> (p: Self)
        ensures
            p.full_view() == Seq::<MagazineNode>::empty(),
            p.empty_view() == Seq::<MagazineNode>::empty(),
    {
        Self::new()
    }
}

/// All global magazine pools (one per size class)
pub struct GlobalMagazinePools {
    pub pools: Vec<GlobalMagazinePool>,
}

impl GlobalMagazinePools {
    pub open spec fn wf(&self) -> bool {
        &&& self.pools@.len() == NUM_SIZE_CLASSES
        &&& forall|c: int| 0 <= c < NUM_SIZE_CLASSES ==> (#[trigger] self.pools@[c]).wf()
    }

    pub fn new() -> (p: Self)
        ensures
            p.wf(),
            forall|c: int| 0 <= c < NUM_SIZE_CLASSES ==> (#[trigger] p.pools@[c]).full_view().len() == 0
                && p.pools@[c].empty_view().len() == 0,
    {
        let mut pools: Vec<GlobalMagazinePool> = Vec::new();
        let mut i: usize = 0;
        while i < NUM_SIZE_CLASSES
            invariant
                pools@.len() == i,
                i <= NUM_SIZE_CLASSES,
                forall|c: int| 0 <= c < i ==> (#[trigger] pools@[c]).full_view().len() == 0
                    && pools@[c].empty_view().len() == 0 && pools@[c].wf(),
            decreases NUM_SIZE_CLASSES - i,
        {
            pools.push(GlobalMagazinePool::new());
            i = i + 1;
        }
        Self { pools }
    }

    pub fn get(&self, class: usize) -> (r: &GlobalMagazinePool)
        requires
            self.wf(),
            class < NUM_SIZE_CLASSES,
        ensures
            *r == self.pools@[class as int],
    {
        &self.pools[class]
    }
}

impl Default for GlobalMagazinePools {
    fn default() -> (p: Self)
        ensures
            p.wf(),
    {
        Self::new()
    }
}

/// `offset` rounded up to a multiple of `NODE_ALIGN`.
pub open spec fn align_node_offset(offset: nat) -> nat {
    ((offset + NODE_ALIGN - 1) as nat / NODE_ALIGN as nat) * NODE_ALIGN as nat
}

/// Where the next magazine node comes from.
#[derive(Debug, Clone, Copy, PartialEq, Eq, Structural)]
pub enum NodeSlot {
    /// A node at this address, carved from the current page.
    Carved(usize),
    /// The current page is full: map a new page and install it.
    NeedPage,
}

/// Internal metadata allocator for MagazineNode fallback: carves nodes from
/// a page, one after another.
pub struct MetadataAllocator {
    current_page: usize,
    offset: usize,
}

impl MetadataAllocator {
    /// Well-formedness: the offset stays within a page and the page fits in
    /// the address space.
    pub closed spec fn wf(&self) -> bool {
        self.offset <= PAGE_SIZE && self.current_page + PAGE_SIZE <= usize::MAX
    }

    /// The page nodes are carved from.
    pub closed spec fn page(&self) -> usize {
        self.current_page
    }

    /// The first unused byte of the page.
    pub closed spec fn used(&self) -> usize {
        self.offset
    }

    pub fn new() -> (m: Self)
        ensures
            m.wf(),
            m.used() == PAGE_SIZE,
    {
        Self { current_page: 0, offset: PAGE_SIZE }
    }

    /// Allocate a MagazineNode from the metadata pool: the next aligned
    /// place in the current page, or `NeedPage` when no node fits there.
    pub fn alloc_node(&mut self) -> (r: NodeSlot)
        requires
            old(self).wf(),
        ensures
            final(self).wf(),
            final(self).page() == old(self).page(),
            align_node_offset(old(self).used() as nat) + NODE_SIZE <= PAGE_SIZE ==> (
                r == NodeSlot::Carved((old(self).page() + align_node_offset(old(self).used() as nat)) as usize)
                && final(self).used() == align_node_offset(old(self).used() as nat) + NODE_SIZE),
            align_node_offset(old(self).used() as nat) + NODE_SIZE > PAGE_SIZE ==> (
                r == NodeSlot::NeedPage && *final(self) == *old(self)),
    {
        let offset = self.offset;
        let aligned = (offset + NODE_ALIGN - 1) / NODE_ALIGN * NODE_ALIGN;
        if aligned + NODE_SIZE <= PAGE_SIZE {
            self.offset = aligned + NODE_SIZE;
            return NodeSlot::Carved(self.current_page + aligned);
        }
        NodeSlot::NeedPage
    }

    /// Makes the freshly mapped `page` the current page and carves the first
    /// node from its start.
    pub fn install_page(&mut self, page: usize) -> (r: usize)
        requires
            page + PAGE_SIZE <= usize::MAX,
        ensures
            final(self).wf(),
            final(self).page() == page,
            final(self).used() == NODE_SIZE,
            r == page,
    {
        self.current_page = page;
        self.offset = NODE_SIZE;
        page
    }
}

impl Default for MetadataAllocator {
    fn default() -> (m: Self)
        ensures
            m.wf(),
            m.used() == PAGE_SIZE,
    {
        Self::new()
    }
}

/// Law: a magazine hands addresses back last in, first out: after a
/// successful `push` of `ptr`, `pop` gives `ptr` and restores the magazine's
/// contents.
pub proof fn lemma_magazine_lifo(held: Seq<usize>, ptr: usize)
    ensures
        held.push(ptr).len() > 0,
        held.push(ptr).last() == ptr,
        held.push(ptr).drop_last() == held,
{
    assert(held.push(ptr).drop_last() =~= held);
}

} // verus!
