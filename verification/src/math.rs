//! Integer square root: the floor of the real square root, as a spec-level
//! function together with an executable binary search that computes it.

use vstd::prelude::*;

verus! {

/// `r` is the floor of the square root of `n`.
pub open spec fn is_isqrt(n: int, r: int) -> bool {
    0 <= r && r * r <= n && n < (r + 1) * (r + 1)
}

/// The floor of the square root of `n` (meaningful for `n >= 0`).
pub open spec fn sqrt_floor(n: int) -> int {
    choose|r: int| #[trigger] is_isqrt(n, r)
}

/// Every nonnegative integer has a square-root floor.
proof fn lemma_isqrt_exists(n: int)
    requires
        n >= 0,
    ensures
        exists|r: int| #[trigger] is_isqrt(n, r),
    decreases n,
{
    if n == 0 {
        assert(is_isqrt(0, 0));
    } else {
        lemma_isqrt_exists(n - 1);
        let r0 = choose|r: int| #[trigger] is_isqrt(n - 1, r);
        if (r0 + 1) * (r0 + 1) <= n {
            assert(n < (r0 + 2) * (r0 + 2)) by (nonlinear_arith)
                requires
                    r0 >= 0,
                    n - 1 < (r0 + 1) * (r0 + 1),
            ;
            assert(is_isqrt(n, r0 + 1));
        } else {
            assert(is_isqrt(n, r0));
        }
    }
}

/// The square-root floor is unique.
proof fn lemma_isqrt_unique(n: int, r1: int, r2: int)
    by (nonlinear_arith)
    requires
        is_isqrt(n, r1),
        is_isqrt(n, r2),
    ensures
        r1 == r2,
{
}

/// `sqrt_floor` satisfies its defining property on nonnegative inputs.
pub proof fn lemma_sqrt_floor(n: int)
    requires
        n >= 0,
    ensures
        is_isqrt(n, sqrt_floor(n)),
{
    lemma_isqrt_exists(n);
}

/// Any witness of `is_isqrt` equals `sqrt_floor`.
pub proof fn lemma_sqrt_floor_of(n: int, r: int)
    requires
        is_isqrt(n, r),
    ensures
        r == sqrt_floor(n),
{
    lemma_sqrt_floor(n);
    lemma_isqrt_unique(n, r, sqrt_floor(n));
}

/// The square-root floor is monotone.
pub proof fn lemma_sqrt_floor_monotone(a: int, b: int)
    requires
        0 <= a <= b,
    ensures
        sqrt_floor(a) <= sqrt_floor(b),
{
    lemma_sqrt_floor(a);
    lemma_sqrt_floor(b);
    let ra = sqrt_floor(a);
    let rb = sqrt_floor(b);
    assert(ra <= rb) by (nonlinear_arith)
        requires
            is_isqrt(a, ra),
            is_isqrt(b, rb),
            a <= b,
    ;
}

/// The square-root floor of a perfect square is its root.
pub proof fn lemma_sqrt_floor_square(k: int)
    requires
        k >= 0,
    ensures
        sqrt_floor(k * k) == k,
{
    assert(k * k < (k + 1) * (k + 1)) by (nonlinear_arith)
        requires
            k >= 0,
    ;
    assert(is_isqrt(k * k, k)) by (nonlinear_arith)
        requires
            k >= 0,
    ;
    lemma_sqrt_floor_of(k * k, k);
}

/// Floor of the square root of `n`, by binary search.
pub fn isqrt(n: u128) -> (r: u64)
    ensures
        r == sqrt_floor(n as int),
        is_isqrt(n as int, r as int),
{
    let mut lo: u64 = 0;
    let mut hi: u64 = u64::MAX;
    proof {
        assert((hi + 1) * (hi + 1) > u128::MAX);
    }
    while lo < hi
        invariant
            lo <= hi,
            lo * lo <= n,
            n < (hi + 1) * (hi + 1),
        decreases hi - lo,
    {
        let mid: u64 = hi - (hi - lo) / 2;
        let m: u128 = mid as u128;
        proof {
            assert(m * m <= u128::MAX) by (nonlinear_arith)
                requires
                    m < 0x1_0000_0000_0000_0000,
            ;
        }
        if m * m <= n {
            lo = mid;
        } else {
            hi = mid - 1;
        }
    }
    proof {
        lemma_sqrt_floor_of(n as int, lo as int);
    }
    lo
}

} // verus!
