//! Size classification for allocation requests.

use vstd::prelude::*;
use vstd::arithmetic::power2::{pow2, lemma_pow2_unfold, lemma_pow2_pos, lemma2_to64};
use crate::page::{PAGE_SIZE, pages_for, div_ceil_pages};

verus! {

/// Largest size that `round_up_pow2` accepts (half the address space): the
/// next power of two of anything larger does not fit in a `usize`.
pub const MAX_POW2_REQUEST: usize = usize::MAX / 2 + 1;

/// Exponent of the least power of two that is at least `n` (0 for `n <= 1`).
pub open spec fn ceil_log2(n: nat) -> nat
    decreases n,
{
    if n <= 1 {
        0
    } else {
        1 + ceil_log2(((n + 1) / 2) as nat)
    }
}

/// The least power of two that is at least `n` (1 for `n == 0`).
pub open spec fn next_pow2(n: nat) -> nat {
    pow2(ceil_log2(n))
}

/// `n` is a power of two.
pub open spec fn is_power_of_two(n: nat) -> bool {
    exists|k: nat| pow2(k) == n
}

/// `2^ceil_log2(n)` covers `n`.
pub proof fn lemma_next_pow2_covers(n: nat)
    ensures
        n <= pow2(ceil_log2(n)),
    decreases n,
{
    if n <= 1 {
        lemma2_to64();
    } else {
        let m = ((n + 1) / 2) as nat;
        lemma_next_pow2_covers(m);
        lemma_pow2_unfold(ceil_log2(n));
    }
}

/// Every power of two that covers `n` has an exponent of at least `ceil_log2(n)`.
pub proof fn lemma_ceil_log2_least(n: nat, k: nat)
    requires
        n <= pow2(k),
    ensures
        ceil_log2(n) <= k,
    decreases n,
{
    if n > 1 {
        if k == 0 {
            lemma2_to64();
        } else {
            lemma_pow2_unfold(k);
            let m = ((n + 1) / 2) as nat;
            assert(m <= pow2((k - 1) as nat));
            lemma_ceil_log2_least(m, (k - 1) as nat);
        }
    }
}

/// Law: `next_pow2(n)` is the least power of two that is at least `n`:
/// it covers `n`, it is a power of two, and for `n >= 2` half of it does not
/// cover `n`.
pub proof fn lemma_next_pow2_is_least(n: nat)
    ensures
        n <= next_pow2(n),
        is_power_of_two(next_pow2(n)),
        next_pow2(n) >= 1,
        n >= 2 ==> ceil_log2(n) >= 1 && pow2((ceil_log2(n) - 1) as nat) < n,
        n >= 2 ==> next_pow2(n) < 2 * n,
{
    lemma_next_pow2_covers(n);
    lemma_pow2_pos(ceil_log2(n));
    assert(pow2(ceil_log2(n)) == next_pow2(n));
    if n >= 2 {
        let c = ceil_log2(n);
        if pow2((c - 1) as nat) >= n {
            lemma_ceil_log2_least(n, (c - 1) as nat);
        }
        lemma_pow2_unfold(c);
    }
}

/// Size classes for allocation
#[derive(Debug, Clone, Copy, PartialEq, Eq, Structural)]
pub enum SizeClass {
    /// 16-128 bytes, power-of-2
    Tiny,
    /// 256B - 8KB, slab allocation
    Small,
    /// 16KB - 256KB, buddy system
    Medium,
    /// >256KB, direct mmap
    Large,
}

/// The class that `SizeClass::classify` gives a request of `size` bytes.
pub open spec fn class_of(size: nat) -> SizeClass {
    if size <= 128 {
        SizeClass::Tiny
    } else if size <= 8 * 1024 {
        SizeClass::Small
    } else if size <= 256 * 1024 {
        SizeClass::Medium
    } else {
        SizeClass::Large
    }
}

/// The size that `SizeClass::alloc_size` gives for `class` and a request of
/// `requested` bytes.
pub open spec fn class_alloc_size(class: SizeClass, requested: nat) -> nat {
    match class {
        SizeClass::Tiny => if next_pow2(requested) < 16 { 16 } else { next_pow2(requested) },
        SizeClass::Small => next_pow2(requested),
        SizeClass::Medium => next_pow2(requested),
        SizeClass::Large => pages_for(requested) * (PAGE_SIZE as nat),
    }
}

/// The requests that `SizeClass::alloc_size` can serve for `class` without
/// overflowing a `usize`.
pub open spec fn alloc_size_in_range(class: SizeClass, requested: nat) -> bool {
    match class {
        SizeClass::Large => pages_for(requested) * PAGE_SIZE <= usize::MAX,
        _ => requested <= MAX_POW2_REQUEST,
    }
}

impl SizeClass {
    /// Classify a size request into a size class
    pub fn classify(size: usize) -> (c: Self)
        ensures
            c == class_of(size as nat),
    {
        if size == 0 {
            return SizeClass::Tiny;
        }
        if size <= 128 {
            SizeClass::Tiny
        } else if size <= 8 * 1024 {
            SizeClass::Small
        } else if size <= 256 * 1024 {
            SizeClass::Medium
        } else {
            SizeClass::Large
        }
    }

    /// Get the allocation size for this class (rounded up to class boundary)
    pub fn alloc_size(&self, requested: usize) -> (r: usize)
        requires
            alloc_size_in_range(*self, requested as nat),
        ensures
            r == class_alloc_size(*self, requested as nat),
    {
        match self {
            SizeClass::Tiny => {
                if requested == 0 {
                    proof {
                        lemma2_to64();
                    }
                    return 16;
                }
                let p = round_up_pow2(requested);
                if p < 16 {
                    16
                } else {
                    p
                }
            },
            SizeClass::Small => round_up_pow2(requested),
            SizeClass::Medium => round_up_pow2(requested),
            SizeClass::Large => {
                let pages = div_ceil_pages(requested);
                pages * PAGE_SIZE
            },
        }
    }
}

/// Round up to next power of 2
pub fn round_up_pow2(size: usize) -> (r: usize)
    requires
        size <= MAX_POW2_REQUEST,
    ensures
        r == next_pow2(size as nat),
{
    let mut p: usize = 1;
    let ghost mut k: nat = 0;
    proof {
        lemma2_to64();
        lemma_next_pow2_covers(size as nat);
    }
    while p < size
        invariant
            size <= MAX_POW2_REQUEST,
            p == pow2(k),
            p >= 1,
            k <= ceil_log2(size as nat),
        decreases ceil_log2(size as nat) - k,
    {
        proof {
            if k >= ceil_log2(size as nat) {
                lemma_next_pow2_covers(size as nat);
                assert(k == ceil_log2(size as nat));
            }
            lemma_pow2_unfold(k + 1);
        }
        p = p * 2;
        proof {
            k = k + 1;
        }
    }
    proof {
        lemma_ceil_log2_least(size as nat, k);
    }
    p
}

/// `k`, for a power of two `p == 2^k`.
pub(crate) fn exact_log2(p: usize, Ghost(k): Ghost<nat>) -> (r: u32)
    requires
        p == pow2(k),
        k < 64,
    ensures
        r == k,
{
    let mut q = p;
    let mut r: u32 = 0;
    proof {
        lemma2_to64();
    }
    while q > 1
        invariant
            q == pow2((k - r) as nat),
            r <= k,
            p == pow2(k),
            k < 64,
        decreases q,
    {
        proof {
            if r == k {
                lemma2_to64();
            }
            lemma_pow2_unfold((k - r) as nat);
        }
        q = q / 2;
        r = r + 1;
    }
    proof {
        if r < k {
            lemma_pow2_unfold((k - r) as nat);
            lemma_pow2_pos((k - r - 1) as nat);
        }
    }
    r
}

/// The slot index that `slab_index` gives a request of `size` bytes.
pub open spec fn slab_index_of(size: nat) -> Option<usize> {
    if size == 0 || size > 8 * 1024 || next_pow2(size) < 16 {
        None
    } else {
        Some((ceil_log2(size) - 4) as usize)
    }
}

/// Get the slab slot index for a tiny/small allocation
///
/// Returns an index 0-15 for sizes 16B through 8KB (power of 2)
pub fn slab_index(size: usize) -> (r: Option<usize>)
    ensures
        r == slab_index_of(size as nat),
{
    if size == 0 || size > 8 * 1024 {
        return None;
    }
    let alloc_size = round_up_pow2(size);
    if alloc_size < 16 {
        return None;
    }
    proof {
        lemma2_to64();
        lemma_ceil_log2_least(size as nat, 13);
    }
    let idx = exact_log2(alloc_size, Ghost(ceil_log2(size as nat))) as usize;
    proof {
        if idx < 4 {
            vstd::arithmetic::power2::lemma_pow2_strictly_increases(idx as nat, 4);
        }
    }
    if 4 <= idx && idx <= 13 {
        Some(idx - 4)
    } else {
        None
    }
}

/// A power of two has itself as its next power of two.
pub proof fn lemma_pow2_is_own_next(k: nat)
    ensures
        ceil_log2(pow2(k)) == k,
        next_pow2(pow2(k)) == pow2(k),
{
    lemma_ceil_log2_least(pow2(k), k);
    lemma_next_pow2_covers(pow2(k));
    if ceil_log2(pow2(k)) < k {
        vstd::arithmetic::power2::lemma_pow2_strictly_increases(ceil_log2(pow2(k)), k);
    }
}

/// Whether `x` is a power of two.
pub fn power_of_two(x: usize) -> (r: bool)
    ensures
        r == is_power_of_two(x as nat),
{
    if x == 0 {
        proof {
            if is_power_of_two(0) {
                let k = choose|k: nat| pow2(k) == 0;
                lemma_pow2_pos(k);
            }
        }
        return false;
    }
    if x > MAX_POW2_REQUEST {
        proof {
            lemma2_to64();
            if is_power_of_two(x as nat) {
                let k = choose|k: nat| pow2(k) == x;
                assert(usize::MAX == 0xffff_ffff || usize::MAX == 0xffff_ffff_ffff_ffff);
                assert(MAX_POW2_REQUEST == usize::MAX / 2 + 1);
                if usize::MAX == 0xffff_ffff {
                    assert(MAX_POW2_REQUEST == 0x8000_0000);
                    assert(pow2(31) == 0x8000_0000);
                    if k < 32 {
                        if k < 31 {
                            vstd::arithmetic::power2::lemma_pow2_strictly_increases(k, 31);
                        }
                    } else if k > 32 {
                        vstd::arithmetic::power2::lemma_pow2_strictly_increases(32, k);
                    }
                } else {
                    assert(MAX_POW2_REQUEST == 0x8000_0000_0000_0000);
                    vstd::arithmetic::power2::lemma2_to64_rest();
                    assert(pow2(63) == 0x8000_0000_0000_0000);
                    if k < 64 {
                        if k < 63 {
                            vstd::arithmetic::power2::lemma_pow2_strictly_increases(k, 63);
                        }
                    } else if k > 64 {
                        vstd::arithmetic::power2::lemma_pow2_strictly_increases(64, k);
                    }
                }
            }
        }
        return false;
    }
    let p = round_up_pow2(x);
    proof {
        lemma_next_pow2_is_least(x as nat);
        if is_power_of_two(x as nat) {
            let k = choose|k: nat| pow2(k) == x;
            lemma_pow2_is_own_next(k);
        }
    }
    p == x
}

/// Law: the allocation size of a request's own class covers the request.
pub proof fn lemma_class_alloc_size_covers(size: nat)
    ensures
        class_alloc_size(class_of(size), size) >= size,
{
    lemma_next_pow2_covers(size);
    if class_of(size) == SizeClass::Large {
        assert(pages_for(size) * (PAGE_SIZE as nat) >= size) by (nonlinear_arith)
            requires
                pages_for(size) == (size + PAGE_SIZE - 1) as nat / PAGE_SIZE as nat,
                PAGE_SIZE == 4096,
        ;
    }
}

} // verus!
