//! Which blocks the magazine caches hold, and the laws that keep a block
//! in at most one place: a block handed out leaves the caches, a freed
//! block joins them once, and the blocks carved from a fresh page do not
//! overlap each other, the block kept by the caller, or the page's edge.
//!
//! It also keeps the account of alignment: while every held block is a
//! multiple of 16 (`cache_aligned`), every block handed out is one, so the
//! address handed out, 16 bytes in, is one too.
//!
//! The blocks held for size class `c` are those of the thread cache's
//! allocation and free magazines of `c` and of every full magazine on the
//! global stack of `c`; `held` gathers them over all classes, counting an
//! address as often as it occurs.

use vstd::prelude::*;
use vstd::multiset::Multiset;
use crate::magazine::{MagazineNode, MAGAZINE_CAPACITY, NUM_SIZE_CLASSES as POOLED_CLASSES};
use crate::magazine::GlobalMagazinePools;
use crate::global::{ThreadCache, took, take_result, retired, carve_count, same_magazines, NUM_SIZE_CLASSES as CACHE_CLASSES};
use crate::page::PAGE_SIZE;

verus! {

broadcast use vstd::seq_lib::group_to_multiset_ensures;

/// The blocks of a stack of magazines, bottom magazine first.
pub open spec fn stack_blocks(s: Seq<MagazineNode>) -> Seq<usize>
    decreases s.len(),
{
    if s.len() == 0 {
        Seq::empty()
    } else {
        stack_blocks(s.drop_last()) + s.last().magazine@
    }
}

/// The blocks held for class `c`.
pub open spec fn class_blocks(tc: ThreadCache, gp: GlobalMagazinePools, c: int) -> Multiset<usize> {
    (tc.alloc_view(c) + tc.free_view(c) + stack_blocks(gp.pools@[c].full_view())).to_multiset()
}

/// The blocks held for the classes below `n`.
pub open spec fn held_below(tc: ThreadCache, gp: GlobalMagazinePools, n: int) -> Multiset<usize>
    decreases n,
{
    if n <= 0 {
        Multiset::empty()
    } else {
        held_below(tc, gp, n - 1).add(class_blocks(tc, gp, n - 1))
    }
}

/// Every block that the thread cache and the global pools hold (the
/// classes with a global pool: `crate::magazine::NUM_SIZE_CLASSES`).
pub open spec fn held(tc: ThreadCache, gp: GlobalMagazinePools) -> Multiset<usize> {
    held_below(tc, gp, POOLED_CLASSES as int)
}

/// No address is held twice.
pub open spec fn each_once(m: Multiset<usize>) -> bool {
    forall|b: usize| #[trigger] m.count(b) <= 1
}

/// How freeing `block` of class `c` into a free magazine with room changes
/// the caches (what `free_cached` does when the free magazine is not full).
pub open spec fn stashed(c: int, block: usize, tc: ThreadCache, gp: GlobalMagazinePools, tc2: ThreadCache, gp2: GlobalMagazinePools) -> bool {
    &&& tc2.free_view(c) == tc.free_view(c).push(block)
    &&& tc2.alloc_view(c) == tc.alloc_view(c)
    &&& forall|d: int| 0 <= d < CACHE_CLASSES && d != c ==> #[trigger] tc2.alloc_view(d) == tc.alloc_view(d)
        && tc2.free_view(d) == tc.free_view(d)
    &&& gp2 == gp
}

/// A run of changes to one class: `held_below` of `n` moves with it when
/// every other class keeps its blocks.
proof fn lemma_held_below_one_class(tc: ThreadCache, gp: GlobalMagazinePools, tc2: ThreadCache, gp2: GlobalMagazinePools,
    c: int, n: int, extra: Multiset<usize>)
    requires
        0 <= c < POOLED_CLASSES,
        class_blocks(tc, gp, c) == class_blocks(tc2, gp2, c).add(extra),
        forall|d: int| 0 <= d < POOLED_CLASSES && d != c ==> #[trigger] class_blocks(tc, gp, d) == class_blocks(tc2, gp2, d),
        0 <= n <= POOLED_CLASSES,
    ensures
        n <= c ==> held_below(tc, gp, n) == held_below(tc2, gp2, n),
        n > c ==> held_below(tc, gp, n) == held_below(tc2, gp2, n).add(extra),
    decreases n,
{
    if n > 0 {
        lemma_held_below_one_class(tc, gp, tc2, gp2, c, n - 1, extra);
        if n - 1 == c {
            assert(held_below(tc, gp, n) =~= held_below(tc2, gp2, n).add(extra));
        } else if n - 1 > c {
            assert(held_below(tc, gp, n) =~= held_below(tc2, gp2, n).add(extra));
        }
    }
}

/// `s.to_multiset()` is that of `s` less its last element, with the last
/// element added.
proof fn lemma_last_to_multiset(s: Seq<usize>)
    requires
        s.len() > 0,
    ensures
        s.to_multiset() == s.drop_last().to_multiset().insert(s.last()),
{
    assert(s =~= s.drop_last().push(s.last()));
}

/// The multiset of `a + b + c`.
proof fn lemma_three_to_multiset(a: Seq<usize>, b: Seq<usize>, c: Seq<usize>)
    ensures
        (a + b + c).to_multiset() == a.to_multiset().add(b.to_multiset()).add(c.to_multiset()),
{
    vstd::seq_lib::lemma_multiset_commutative(a + b, c);
    vstd::seq_lib::lemma_multiset_commutative(a, b);
}

/// Law: taking a block (`take_block`) hands out a block that the caches
/// held and that they hold no longer: the caches afterwards are the caches
/// before less that one block; when no block comes out they hold the same
/// blocks. So if no block was held twice before, none is afterwards, and
/// the block handed out is held nowhere.
pub proof fn lemma_take_hands_out_held_block(class: int, tc: ThreadCache, gp: GlobalMagazinePools,
    tc2: ThreadCache, gp2: GlobalMagazinePools)
    requires
        0 <= class < POOLED_CLASSES,
        took(class, tc, gp, tc2, gp2),
    ensures
        take_result(tc.alloc_view(class), tc.free_view(class), gp.pools@[class].full_view()) matches Some(b)
            ==> held(tc, gp) == held(tc2, gp2).insert(b),
        take_result(tc.alloc_view(class), tc.free_view(class), gp.pools@[class].full_view()) is None
            ==> held(tc, gp) == held(tc2, gp2),
        each_once(held(tc, gp)) ==> each_once(held(tc2, gp2)),
        each_once(held(tc, gp)) ==> (take_result(tc.alloc_view(class), tc.free_view(class), gp.pools@[class].full_view())
            matches Some(b) ==> held(tc2, gp2).count(b) == 0),
{
    let am = tc.alloc_view(class);
    let fm = tc.free_view(class);
    let full = gp.pools@[class].full_view();
    let am2 = tc2.alloc_view(class);
    let fm2 = tc2.free_view(class);
    let full2 = gp2.pools@[class].full_view();
    let r = take_result(am, fm, full);
    let extra = match r {
        Some(b) => Multiset::<usize>::empty().insert(b),
        None => Multiset::<usize>::empty(),
    };
    lemma_three_to_multiset(am, fm, stack_blocks(full));
    lemma_three_to_multiset(am2, fm2, stack_blocks(full2));
    if am.len() > 0 {
        lemma_last_to_multiset(am);
    } else if fm.len() > 0 {
        lemma_last_to_multiset(fm);
        assert(am.to_multiset() =~= Multiset::<usize>::empty());
    } else if full.len() > 0 {
        let m = full.last().magazine@;
        assert(stack_blocks(full) == stack_blocks(full.drop_last()) + m);
        vstd::seq_lib::lemma_multiset_commutative(stack_blocks(full.drop_last()), m);
        assert(am.to_multiset() =~= Multiset::<usize>::empty());
        assert(fm.to_multiset() =~= Multiset::<usize>::empty());
        if m.len() > 0 {
            lemma_last_to_multiset(m);
        }
    }
    assert(class_blocks(tc, gp, class) =~= class_blocks(tc2, gp2, class).add(extra));
    assert forall|d: int| 0 <= d < POOLED_CLASSES && d != class implies #[trigger] class_blocks(tc, gp, d) == class_blocks(tc2, gp2, d) by {
        assert(tc2.alloc_view(d) == tc.alloc_view(d));
        assert(gp2.pools@[d] == gp.pools@[d]);
    }
    lemma_held_below_one_class(tc, gp, tc2, gp2, class, POOLED_CLASSES as int, extra);
    if each_once(held(tc, gp)) {
        assert forall|b: usize| #[trigger] held(tc2, gp2).count(b) <= 1 by {
            assert(held(tc2, gp2).count(b) <= held(tc, gp).count(b));
        }
        if let Some(b) = r {
            assert(held(tc, gp).count(b) == held(tc2, gp2).count(b) + 1);
        }
    }
    if let Some(b) = r {
        assert(held(tc, gp) =~= held(tc2, gp2).insert(b));
    } else {
        assert(held(tc, gp) =~= held(tc2, gp2));
    }
}

/// Law: freeing `block` into the caches (`free_cached`, whether the block
/// joins the free magazine or the full free magazine is retired to the
/// global pool first) makes the caches hold it once more and changes
/// nothing else; so a block that was held nowhere (no double free) keeps
/// every block held at most once.
pub proof fn lemma_free_holds_block_once(c: int, block: usize, tc: ThreadCache, gp: GlobalMagazinePools,
    tc2: ThreadCache, gp2: GlobalMagazinePools)
    requires
        0 <= c < POOLED_CLASSES,
        stashed(c, block, tc, gp, tc2, gp2) || retired(c, block, tc, gp, tc2, gp2),
    ensures
        held(tc2, gp2) == held(tc, gp).insert(block),
        each_once(held(tc, gp)) && held(tc, gp).count(block) == 0 ==> each_once(held(tc2, gp2)),
{
    let am = tc.alloc_view(c);
    let fm = tc.free_view(c);
    let full = gp.pools@[c].full_view();
    let am2 = tc2.alloc_view(c);
    let fm2 = tc2.free_view(c);
    let full2 = gp2.pools@[c].full_view();
    let extra = Multiset::<usize>::empty().insert(block);
    lemma_three_to_multiset(am, fm, stack_blocks(full));
    lemma_three_to_multiset(am2, fm2, stack_blocks(full2));
    if stashed(c, block, tc, gp, tc2, gp2) {
        lemma_last_to_multiset(fm2);
        assert(fm2.drop_last() =~= fm);
    } else {
        assert(full2 =~= full.push(full2.last()));
        assert(full2.drop_last() == full);
        assert(stack_blocks(full2) == stack_blocks(full) + fm);
        vstd::seq_lib::lemma_multiset_commutative(stack_blocks(full), fm);
        assert(fm2.to_multiset() =~= Multiset::<usize>::empty().insert(block)) by {
            assert(fm2 =~= Seq::<usize>::empty().push(block));
        }
    }
    assert(class_blocks(tc2, gp2, c) =~= class_blocks(tc, gp, c).add(extra));
    assert forall|d: int| 0 <= d < POOLED_CLASSES && d != c implies #[trigger] class_blocks(tc2, gp2, d) == class_blocks(tc, gp, d) by {
        assert(tc2.alloc_view(d) == tc.alloc_view(d));
        assert(gp2.pools@[d] == gp.pools@[d]);
    }
    lemma_held_below_one_class(tc2, gp2, tc, gp, c, POOLED_CLASSES as int, extra);
    assert(held(tc2, gp2) =~= held(tc, gp).insert(block));
    if each_once(held(tc, gp)) && held(tc, gp).count(block) == 0 {
        assert forall|b: usize| #[trigger] held(tc2, gp2).count(b) <= 1 by {
            if b != block {
                assert(held(tc2, gp2).count(b) == held(tc, gp).count(b));
            }
        }
    }
}

/// The blocks that carving the page at `base` into blocks of `block_size`
/// bytes adds to an allocation magazine with room for `room` more
/// (`ThreadCache::carve_page`): every block but the first, as many as fit.
pub open spec fn carved_blocks(base: usize, block_size: usize, room: int) -> Seq<usize> {
    Seq::new(
        vstd::math::min(carve_count(block_size as nat) as int, room) as nat,
        |i: int| (base + block_size + i * block_size) as usize,
    )
}

/// Law: the blocks carved from a page lie inside it, after the first block
/// (which the caller keeps), in increasing order without overlapping one
/// another.
pub proof fn lemma_carved_blocks_disjoint(base: usize, block_size: usize, room: int)
    requires
        room >= 0,
        block_size >= 1,
        base + PAGE_SIZE <= usize::MAX,
    ensures
        forall|i: int| 0 <= i < carved_blocks(base, block_size, room).len() ==>
            base + block_size <= #[trigger] carved_blocks(base, block_size, room)[i]
            && carved_blocks(base, block_size, room)[i] + block_size <= base + PAGE_SIZE,
        forall|i: int, j: int| 0 <= i < j < carved_blocks(base, block_size, room).len() ==>
            #[trigger] carved_blocks(base, block_size, room)[i] + block_size <= #[trigger] carved_blocks(base, block_size, room)[j],
        carved_blocks(base, block_size, room).no_duplicates(),
{
    let s = carved_blocks(base, block_size, room);
    let q = (PAGE_SIZE as nat / block_size as nat) as int;
    assert(q * block_size <= PAGE_SIZE) by (nonlinear_arith)
        requires q == PAGE_SIZE as int / block_size as int, block_size >= 1;
    assert(s.len() <= carve_count(block_size as nat));
    assert(s.len() > 0 ==> s.len() <= q - 1);
    assert forall|i: int| 0 <= i < s.len() implies
        base + block_size <= #[trigger] s[i] && s[i] + block_size <= base + PAGE_SIZE by {
        assert(i + 2 <= q);
        assert((i + 2) * block_size <= q * block_size) by (nonlinear_arith)
            requires i + 2 <= q, block_size >= 1;
        assert(block_size + i * block_size + block_size == (i + 2) * block_size) by (nonlinear_arith);
        assert(i * block_size >= 0) by (nonlinear_arith) requires i >= 0, block_size >= 1;
    }
    assert forall|i: int, j: int| 0 <= i < j < s.len() implies #[trigger] s[i] + block_size <= #[trigger] s[j] by {
        assert(j + 2 <= q);
        assert((j + 2) * block_size <= q * block_size) by (nonlinear_arith)
            requires j + 2 <= q, block_size >= 1;
        assert(block_size + j * block_size + block_size == (j + 2) * block_size) by (nonlinear_arith);
        assert((i + 1) * block_size <= j * block_size) by (nonlinear_arith)
            requires i + 1 <= j, block_size >= 1;
        assert(i * block_size + block_size == (i + 1) * block_size) by (nonlinear_arith);
        assert(i * block_size >= 0) by (nonlinear_arith) requires i >= 0, block_size >= 1;
    }
    assert forall|i: int, j: int| 0 <= i < s.len() && 0 <= j < s.len() && i != j implies s[i] != s[j] by {
        if i < j {
            assert(s[i] + block_size <= s[j]);
        } else {
            assert(s[j] + block_size <= s[i]);
        }
    }
}

/// Law: carving a fresh page (one that holds no block the caches hold)
/// adds its carved blocks to the caches and nothing else; then no block is
/// held twice, and the page's first block, which the caller hands out, is
/// held nowhere.
pub proof fn lemma_carve_holds_fresh_blocks(c: int, base: usize, block_size: usize,
    tc: ThreadCache, gp: GlobalMagazinePools, tc2: ThreadCache)
    requires
        0 <= c < POOLED_CLASSES,
        block_size >= 1,
        base + PAGE_SIZE <= usize::MAX,
        tc.alloc_view(c).len() <= MAGAZINE_CAPACITY,
        tc2.alloc_view(c) == tc.alloc_view(c)
            + carved_blocks(base, block_size, MAGAZINE_CAPACITY - tc.alloc_view(c).len()),
        forall|d: int| 0 <= d < POOLED_CLASSES && d != c ==> #[trigger] tc2.alloc_view(d) == tc.alloc_view(d),
        forall|d: int| 0 <= d < POOLED_CLASSES ==> #[trigger] tc2.free_view(d) == tc.free_view(d),
    ensures
        held(tc2, gp) == held(tc, gp).add(
            carved_blocks(base, block_size, MAGAZINE_CAPACITY - tc.alloc_view(c).len()).to_multiset()),
        each_once(held(tc, gp)) && (forall|b: usize| held(tc, gp).count(b) > 0 ==> b < base || base + PAGE_SIZE <= b)
            ==> each_once(held(tc2, gp)) && held(tc2, gp).count(base) == 0,
{
    let s = carved_blocks(base, block_size, MAGAZINE_CAPACITY - tc.alloc_view(c).len());
    let extra = s.to_multiset();
    let am = tc.alloc_view(c);
    let fm = tc.free_view(c);
    let st = stack_blocks(gp.pools@[c].full_view());
    lemma_three_to_multiset(am, fm, st);
    lemma_three_to_multiset(am + s, fm, st);
    vstd::seq_lib::lemma_multiset_commutative(am, s);
    assert(tc2.free_view(c) == fm);
    assert(class_blocks(tc2, gp, c) =~= class_blocks(tc, gp, c).add(extra));
    assert forall|d: int| 0 <= d < POOLED_CLASSES && d != c implies #[trigger] class_blocks(tc2, gp, d) == class_blocks(tc, gp, d) by {
        assert(tc2.alloc_view(d) == tc.alloc_view(d));
        assert(tc2.free_view(d) == tc.free_view(d));
    }
    lemma_held_below_one_class(tc2, gp, tc, gp, c, POOLED_CLASSES as int, extra);
    assert(held(tc2, gp) =~= held(tc, gp).add(extra));
    lemma_carved_blocks_disjoint(base, block_size, MAGAZINE_CAPACITY - am.len());
    s.lemma_multiset_has_no_duplicates();
    if each_once(held(tc, gp)) && (forall|b: usize| held(tc, gp).count(b) > 0 ==> b < base || base + PAGE_SIZE <= b) {
        assert forall|b: usize| #[trigger] held(tc2, gp).count(b) <= 1 by {
            if extra.count(b) > 0 {
                assert(s.contains(b));
                let i = choose|i: int| 0 <= i < s.len() && s[i] == b;
                assert(base + block_size <= s[i] && s[i] + block_size <= base + PAGE_SIZE);
                assert(held(tc, gp).count(b) == 0);
            }
        }
        if extra.count(base) > 0 {
            assert(s.contains(base));
            let i = choose|i: int| 0 <= i < s.len() && s[i] == base;
            assert(base + block_size <= s[i]);
        }
        assert(held(tc, gp).count(base) == 0);
    }
}

/// Every address in `s` is a multiple of 16.
pub open spec fn seq_aligned16(s: Seq<usize>) -> bool {
    forall|i: int| 0 <= i < s.len() ==> #[trigger] s[i] % 16 == 0
}

/// Every block that the thread cache and the global pools hold is a
/// multiple of 16, so the address handed out for it (16 bytes in) is too.
pub open spec fn cache_aligned(tc: ThreadCache, gp: GlobalMagazinePools) -> bool {
    &&& forall|c: int| 0 <= c < CACHE_CLASSES ==> #[trigger] class_aligned(tc, c)
    &&& forall|c: int, j: int| 0 <= c < POOLED_CLASSES && 0 <= j < gp.pools@[c].full_view().len()
        ==> #[trigger] node_aligned(gp, c, j)
}

/// The allocation and free magazines of class `c` hold multiples of 16.
pub open spec fn class_aligned(tc: ThreadCache, c: int) -> bool {
    seq_aligned16(tc.alloc_view(c)) && seq_aligned16(tc.free_view(c))
}

/// Full magazine `j` of class `c` holds multiples of 16.
pub open spec fn node_aligned(gp: GlobalMagazinePools, c: int, j: int) -> bool {
    seq_aligned16(gp.pools@[c].full_view()[j].magazine@)
}

/// Law: taking a block keeps every held block a multiple of 16, and the
/// block taken is one.
pub proof fn lemma_take_keeps_alignment(class: int, tc: ThreadCache, gp: GlobalMagazinePools,
    tc2: ThreadCache, gp2: GlobalMagazinePools)
    requires
        0 <= class < POOLED_CLASSES,
        took(class, tc, gp, tc2, gp2),
        cache_aligned(tc, gp),
    ensures
        cache_aligned(tc2, gp2),
        take_result(tc.alloc_view(class), tc.free_view(class), gp.pools@[class].full_view()) matches Some(b) ==> b % 16 == 0,
{
    let am = tc.alloc_view(class);
    let fm = tc.free_view(class);
    let full = gp.pools@[class].full_view();
    assert(class_aligned(tc, class));
    if am.len() == 0 && fm.len() == 0 && full.len() > 0 {
        assert(node_aligned(gp, class, full.len() - 1));
    }
    assert forall|c: int| 0 <= c < CACHE_CLASSES implies #[trigger] class_aligned(tc2, c) by {
        assert(class_aligned(tc, c));
        if c == class {
            if am.len() == 0 && fm.len() == 0 && full.len() > 0 {
                assert(node_aligned(gp, class, full.len() - 1));
            }
        }
    }
    assert forall|c: int, j: int| 0 <= c < POOLED_CLASSES && 0 <= j < gp2.pools@[c].full_view().len()
        implies #[trigger] node_aligned(gp2, c, j) by {
        if c == class {
            if am.len() == 0 && fm.len() == 0 && full.len() > 0 {
                assert(gp2.pools@[c].full_view()[j] == full[j]);
                assert(node_aligned(gp, c, j));
            } else {
                assert(gp2.pools@[c].full_view() == full);
                assert(node_aligned(gp, c, j));
            }
        } else {
            assert(gp2.pools@[c] == gp.pools@[c]);
            assert(node_aligned(gp, c, j));
        }
    }
}

/// Law: freeing a block that is a multiple of 16 into the caches keeps
/// every held block a multiple of 16.
pub proof fn lemma_free_keeps_alignment(c: int, block: usize, tc: ThreadCache, gp: GlobalMagazinePools,
    tc2: ThreadCache, gp2: GlobalMagazinePools)
    requires
        0 <= c < POOLED_CLASSES,
        stashed(c, block, tc, gp, tc2, gp2) || retired(c, block, tc, gp, tc2, gp2),
        cache_aligned(tc, gp),
        block % 16 == 0,
    ensures
        cache_aligned(tc2, gp2),
{
    assert forall|d: int| 0 <= d < CACHE_CLASSES implies #[trigger] class_aligned(tc2, d) by {
        assert(class_aligned(tc, d));
        if d != c {
            assert(tc2.alloc_view(d) == tc.alloc_view(d));
            assert(tc2.free_view(d) == tc.free_view(d));
        } else {
            assert(tc2.alloc_view(d) == tc.alloc_view(d));
            assert forall|i: int| 0 <= i < tc2.free_view(d).len() implies #[trigger] tc2.free_view(d)[i] % 16 == 0 by {
                if stashed(c, block, tc, gp, tc2, gp2) {
                    if i < tc.free_view(d).len() {
                        assert(tc2.free_view(d)[i] == tc.free_view(d)[i]);
                    }
                }
            }
        }
    }
    assert forall|e: int, j: int| 0 <= e < POOLED_CLASSES && 0 <= j < gp2.pools@[e].full_view().len()
        implies #[trigger] node_aligned(gp2, e, j) by {
        if e == c && retired(c, block, tc, gp, tc2, gp2) {
            let full = gp.pools@[c].full_view();
            if j < full.len() {
                assert(gp2.pools@[e].full_view()[j] == full[j]);
                assert(node_aligned(gp, e, j));
            } else {
                assert(class_aligned(tc, c));
            }
        } else {
            assert(gp2.pools@[e] == gp.pools@[e]);
            assert(node_aligned(gp, e, j));
        }
    }
}

/// Law: carving a page into blocks that are multiples of 16 (as
/// `carve_mapped` does for a base and a block size that are) keeps every
/// held block a multiple of 16.
pub proof fn lemma_carve_keeps_alignment(c: int, base: usize, block_size: usize,
    tc: ThreadCache, gp: GlobalMagazinePools, tc2: ThreadCache)
    requires
        0 <= c < CACHE_CLASSES,
        tc2.alloc_view(c) == tc.alloc_view(c)
            + carved_blocks(base, block_size, MAGAZINE_CAPACITY - tc.alloc_view(c).len()),
        forall|j: int| tc.alloc_view(c).len() <= j < tc2.alloc_view(c).len() ==> #[trigger] tc2.alloc_view(c)[j] % 16 == 0,
        forall|d: int| 0 <= d < CACHE_CLASSES && d != c ==> #[trigger] tc2.alloc_view(d) == tc.alloc_view(d),
        forall|d: int| 0 <= d < CACHE_CLASSES ==> #[trigger] tc2.free_view(d) == tc.free_view(d),
        cache_aligned(tc, gp),
    ensures
        cache_aligned(tc2, gp),
{
    let s = carved_blocks(base, block_size, MAGAZINE_CAPACITY - tc.alloc_view(c).len());
    assert forall|d: int| 0 <= d < CACHE_CLASSES implies #[trigger] class_aligned(tc2, d) by {
        assert(class_aligned(tc, d));
        if d == c {
            assert forall|i: int| 0 <= i < tc2.alloc_view(d).len() implies #[trigger] tc2.alloc_view(d)[i] % 16 == 0 by {
                let n = tc.alloc_view(d).len() as int;
                if i >= n {
                } else {
                    assert(tc2.alloc_view(d)[i] == tc.alloc_view(d)[i]);
                }
            }
        }
    }
}

/// Changes that leave every magazine of the thread cache as it was, and the
/// global pools too, keep every held block a multiple of 16.
pub proof fn lemma_same_magazines_keep_alignment(tc: ThreadCache, gp: GlobalMagazinePools, tc2: ThreadCache)
    requires
        same_magazines(tc, tc2),
        cache_aligned(tc, gp),
    ensures
        cache_aligned(tc2, gp),
{
    assert forall|d: int| 0 <= d < CACHE_CLASSES implies #[trigger] class_aligned(tc2, d) by {
        assert(class_aligned(tc, d));
        assert(tc2.alloc_view(d) == tc.alloc_view(d));
    }
}

/// A fresh thread cache (every magazine empty) beside fresh global pools
/// (no full magazine) holds only multiples of 16.
pub proof fn lemma_fresh_caches_aligned(tc: ThreadCache, gp: GlobalMagazinePools)
    requires
        forall|c: int| 0 <= c < CACHE_CLASSES ==> #[trigger] tc.alloc_view(c) == Seq::<usize>::empty()
            && tc.free_view(c) == Seq::<usize>::empty(),
        forall|c: int| 0 <= c < POOLED_CLASSES ==> (#[trigger] gp.pools@[c]).full_view().len() == 0,
    ensures
        cache_aligned(tc, gp),
{
    assert forall|d: int| 0 <= d < CACHE_CLASSES implies #[trigger] class_aligned(tc, d) by {
        assert(tc.alloc_view(d) == Seq::<usize>::empty());
    }
    assert forall|c: int, j: int| 0 <= c < POOLED_CLASSES && 0 <= j < gp.pools@[c].full_view().len()
        implies #[trigger] node_aligned(gp, c, j) by {
        assert(gp.pools@[c].full_view().len() == 0);
    }
}

} // verus!
