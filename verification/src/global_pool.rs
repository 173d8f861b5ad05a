//! Global pool for slabs returned from thread-local caches
//!
//! Thread-local caches return slabs to these pools when the local cache is
//! full, and fetch them back when empty. Each pool is a stack: the slab
//! pushed last comes out first.

use vstd::prelude::*;

verus! {

pub const NUM_SIZE_CLASSES: usize = 16;

/// Stack of slab addresses
pub struct GlobalSlabPool {
    stack: Vec<usize>,
}

impl GlobalSlabPool {
    /// The slabs in the pool, bottom first.
    pub closed spec fn view(&self) -> Seq<usize> {
        self.stack@
    }

    pub fn new() -> (p: Self)
        ensures
            p@ == Seq::<usize>::empty(),
    {
        Self { stack: Vec::new() }
    }

    /// Push a slab to the global pool
    pub fn push(&mut self, ptr: usize)
        ensures
            final(self)@ == old(self)@.push(ptr),
    {
        self.stack.push(ptr);
    }

    /// Pop a slab from the global pool
    ///
    /// Returns None if the pool is empty
    pub fn pop(&mut self) -> (r: Option<usize>)
        ensures
            old(self)@.len() == 0 ==> r == None::<usize> && final(self)@ == old(self)@,
            old(self)@.len() > 0 ==> r == Some(old(self)@.last()) && final(self)@ == old(self)@.drop_last(),
    {
        self.stack.pop()
    }
}

impl Default for GlobalSlabPool {
    fn default() -> (p: Self)
        ensures
            p@ == Seq::<usize>::empty(),
    {
        Self::new()
    }
}

/// Global slab pools, one per size class
pub struct GlobalPools {
    pools: Vec<GlobalSlabPool>,
}

impl GlobalPools {
    /// A pool set always holds one pool per size class.
    #[verifier::type_invariant]
    spec fn one_pool_per_class(&self) -> bool {
        self.pools@.len() == NUM_SIZE_CLASSES
    }

    /// The slabs in each pool, bottom first.
    pub closed spec fn view(&self) -> Seq<Seq<usize>> {
        Seq::new(self.pools@.len(), |i: int| self.pools@[i]@)
    }

    pub fn new() -> (p: Self)
        ensures
            p@.len() == NUM_SIZE_CLASSES,
            forall|i: int| 0 <= i < NUM_SIZE_CLASSES ==> #[trigger] p@[i] == Seq::<usize>::empty(),
    {
        let mut pools: Vec<GlobalSlabPool> = Vec::new();
        let mut i: usize = 0;
        while i < NUM_SIZE_CLASSES
            invariant
                pools@.len() == i,
                i <= NUM_SIZE_CLASSES,
                forall|j: int| 0 <= j < i ==> #[trigger] pools@[j]@ == Seq::<usize>::empty(),
            decreases NUM_SIZE_CLASSES - i,
        {
            pools.push(GlobalSlabPool::new());
            i = i + 1;
        }
        Self { pools }
    }

    /// Get the pool for a given size class index
    pub fn get_pool(&self, size_class_idx: usize) -> (r: Option<&GlobalSlabPool>)
        ensures
            self@.len() == NUM_SIZE_CLASSES,
            size_class_idx < self@.len() ==> (r matches Some(p) && p@ == self@[size_class_idx as int]),
            size_class_idx >= self@.len() ==> r is None,
    {
        proof {
            use_type_invariant(self);
        }
        if size_class_idx < self.pools.len() {
            Some(&self.pools[size_class_idx])
        } else {
            None
        }
    }

    /// Push a slab to the appropriate pool (no effect for an index past the
    /// last pool)
    pub fn push(&mut self, size_class_idx: usize, ptr: usize)
        ensures
            old(self)@.len() == NUM_SIZE_CLASSES,
            final(self)@.len() == NUM_SIZE_CLASSES,
            size_class_idx < old(self)@.len() ==> final(self)@ == old(self)@.update(
                size_class_idx as int,
                old(self)@[size_class_idx as int].push(ptr),
            ),
            size_class_idx >= old(self)@.len() ==> final(self)@ == old(self)@,
    {
        proof {
            use_type_invariant(&*self);
        }
        if size_class_idx < self.pools.len() {
            self.pools[size_class_idx].push(ptr);
        }
        assert(size_class_idx < old(self)@.len() ==> self@ =~= old(self)@.update(
            size_class_idx as int,
            old(self)@[size_class_idx as int].push(ptr),
        ));
        assert(size_class_idx >= old(self)@.len() ==> self@ =~= old(self)@);
    }

    /// Pop a slab from the appropriate pool
    pub fn pop(&mut self, size_class_idx: usize) -> (r: Option<usize>)
        ensures
            old(self)@.len() == NUM_SIZE_CLASSES,
            final(self)@.len() == NUM_SIZE_CLASSES,
            size_class_idx >= old(self)@.len() || old(self)@[size_class_idx as int].len() == 0 ==> (
                r == None::<usize> && final(self)@ == old(self)@),
            size_class_idx < old(self)@.len() && old(self)@[size_class_idx as int].len() > 0 ==> (
                r == Some(old(self)@[size_class_idx as int].last())
                && final(self)@ == old(self)@.update(size_class_idx as int, old(self)@[size_class_idx as int].drop_last())),
    {
        proof {
            use_type_invariant(&*self);
        }
        let r = if size_class_idx < self.pools.len() {
            self.pools[size_class_idx].pop()
        } else {
            None
        };
        assert(size_class_idx < old(self)@.len() && old(self)@[size_class_idx as int].len() > 0 ==>
            self@ =~= old(self)@.update(size_class_idx as int, old(self)@[size_class_idx as int].drop_last()));
        assert(size_class_idx >= old(self)@.len() || old(self)@[size_class_idx as int].len() == 0 ==> self@ =~= old(self)@);
        r
    }
}

impl Default for GlobalPools {
    fn default() -> (p: Self)
        ensures
            p@.len() == NUM_SIZE_CLASSES,
    {
        Self::new()
    }
}

/// Law: a pool gives slabs back last-in first-out: after pushing `ptr` onto
/// pool `idx`, popping pool `idx` gives `ptr` and leaves the pools as they
/// were before the push.
pub proof fn lemma_pool_lifo(before: Seq<Seq<usize>>, idx: int, ptr: usize)
    requires
        0 <= idx < before.len(),
    ensures
        before.update(idx, before[idx].push(ptr))[idx].last() == ptr,
        before.update(idx, before[idx].push(ptr)).update(idx, before.update(idx, before[idx].push(ptr))[idx].drop_last()) == before,
{
    let after = before.update(idx, before[idx].push(ptr));
    assert(after[idx].drop_last() =~= before[idx]);
    assert(after.update(idx, after[idx].drop_last()) =~= before);
}

/// The pools after pushing `ps` onto pool `idx`, first to last, as `push`
/// says.
pub open spec fn pushed_all(v: Seq<Seq<usize>>, idx: int, ps: Seq<usize>) -> Seq<Seq<usize>>
    decreases ps.len(),
{
    if ps.len() == 0 {
        v
    } else {
        let w = pushed_all(v, idx, ps.drop_last());
        w.update(idx, w[idx].push(ps.last()))
    }
}

/// `n` pops of pool `idx`, as `pop` says: the pools afterwards and what
/// each pop returned, in order.
pub open spec fn popped_n(v: Seq<Seq<usize>>, idx: int, n: nat) -> (Seq<Seq<usize>>, Seq<Option<usize>>)
    decreases n,
{
    if n == 0 {
        (v, Seq::empty())
    } else if v[idx].len() == 0 {
        let (w, outs) = popped_n(v, idx, (n - 1) as nat);
        (w, seq![None::<usize>] + outs)
    } else {
        let (w, outs) = popped_n(v.update(idx, v[idx].drop_last()), idx, (n - 1) as nat);
        (w, seq![Some(v[idx].last())] + outs)
    }
}

/// Law: a pool is last in, first out over a run: pushing `ps` onto pool
/// `idx` and then popping it `ps.len()` times returns the slabs of `ps`
/// newest first and leaves every pool as it was before the pushes.
pub proof fn lemma_pool_lifo_run(before: Seq<Seq<usize>>, idx: int, ps: Seq<usize>)
    requires
        0 <= idx < before.len(),
    ensures
        popped_n(pushed_all(before, idx, ps), idx, ps.len()).0 == before,
        popped_n(pushed_all(before, idx, ps), idx, ps.len()).1
            == Seq::new(ps.len(), |i: int| Some(ps[ps.len() - 1 - i])),
    decreases ps.len(),
{
    lemma_pushed_all_shape(before, idx, ps);
    if ps.len() > 0 {
        let w = pushed_all(before, idx, ps.drop_last());
        let after = w.update(idx, w[idx].push(ps.last()));
        lemma_pushed_all_shape(before, idx, ps.drop_last());
        assert(after[idx].len() > 0);
        assert(after[idx].last() == ps.last());
        assert(after[idx].drop_last() =~= w[idx]);
        assert(after.update(idx, after[idx].drop_last()) =~= w);
        lemma_pool_lifo_run(before, idx, ps.drop_last());
        let k = ps.drop_last().len();
        assert(seq![Some(ps.last())] + Seq::new(k, |i: int| Some(ps.drop_last()[k - 1 - i]))
            =~= Seq::new(ps.len(), |i: int| Some(ps[ps.len() - 1 - i])));
    } else {
        assert(Seq::<Option<usize>>::empty() =~= Seq::new(0, |i: int| Some(ps[ps.len() - 1 - i])));
    }
}

/// Pushing onto pool `idx` keeps the number of pools and touches no other.
proof fn lemma_pushed_all_shape(v: Seq<Seq<usize>>, idx: int, ps: Seq<usize>)
    requires
        0 <= idx < v.len(),
    ensures
        pushed_all(v, idx, ps).len() == v.len(),
        pushed_all(v, idx, ps)[idx] == v[idx] + ps,
        forall|j: int| 0 <= j < v.len() && j != idx ==> #[trigger] pushed_all(v, idx, ps)[j] == v[j],
    decreases ps.len(),
{
    if ps.len() > 0 {
        lemma_pushed_all_shape(v, idx, ps.drop_last());
        assert(v[idx] + ps.drop_last().push(ps.last()) =~= v[idx] + ps);
        assert((v[idx] + ps.drop_last()).push(ps.last()) =~= v[idx] + ps);
    } else {
        assert(v[idx] + ps =~= v[idx]);
    }
}

} // verus!
