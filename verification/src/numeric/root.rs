//! Floor square roots of unsigned 128-bit integers.

use vstd::prelude::*;

verus! {

/// `r` is the floor of the square root of `n`.
pub open spec fn is_floor_root(n: int, r: int) -> bool {
    0 <= r && r * r <= n && n < (r + 1) * (r + 1)
}

/// The floor of the square root of `n` (meaningful for `n >= 0`).
pub open spec fn floor_sqrt(n: int) -> int {
    choose|r: int| is_floor_root(n, r)
}

/// Squaring is monotone on the non-negative integers.
pub proof fn lemma_square_monotone(a: int, b: int)
    requires
        0 <= a <= b,
    ensures
        a * a <= b * b,
{
    assert(a * a <= b * b) by (nonlinear_arith)
        requires
            0 <= a <= b,
    ;
}

/// A number has at most one floor square root.
pub proof fn lemma_floor_root_unique(n: int, r1: int, r2: int)
    requires
        is_floor_root(n, r1),
        is_floor_root(n, r2),
    ensures
        r1 == r2,
{
    if r1 < r2 {
        lemma_square_monotone(r1 + 1, r2);
    } else if r2 < r1 {
        lemma_square_monotone(r2 + 1, r1);
    }
}

/// Any witness of `is_floor_root` is the value of `floor_sqrt`.
pub proof fn lemma_floor_sqrt_is(n: int, r: int)
    requires
        is_floor_root(n, r),
    ensures
        floor_sqrt(n) == r,
{
    lemma_floor_root_unique(n, r, floor_sqrt(n));
}

/// Every non-negative integer has a floor square root, and it is not negative.
pub proof fn lemma_floor_sqrt_nonnegative(n: int)
    requires
        0 <= n,
    ensures
        is_floor_root(n, floor_sqrt(n)),
        floor_sqrt(n) >= 0,
{
    lemma_floor_root_exists(n);
}

/// Every non-negative integer has a floor square root.
pub proof fn lemma_floor_root_exists(n: int)
    requires
        0 <= n,
    ensures
        exists|r: int| is_floor_root(n, r),
    decreases n,
{
    if n == 0 {
        assert(is_floor_root(0, 0));
    } else {
        let m = n - 1;
        lemma_floor_root_exists(m);
        let r = choose|r: int| is_floor_root(m, r);
        if n < (r + 1) * (r + 1) {
            assert(is_floor_root(n, r));
        } else {
            assert((r + 1) * (r + 1) == n);
            assert(n < (r + 2) * (r + 2)) by (nonlinear_arith)
                requires
                    (r + 1) * (r + 1) == n,
                    r >= 0,
            ;
            assert(is_floor_root(n, r + 1));
        }
    }
}

/// The floor square root is monotone.
pub proof fn lemma_floor_root_monotone(n1: int, r1: int, n2: int, r2: int)
    requires
        is_floor_root(n1, r1),
        is_floor_root(n2, r2),
        n1 <= n2,
    ensures
        r1 <= r2,
{
    if r2 < r1 {
        lemma_square_monotone(r2 + 1, r1);
    }
}

/// The floor square root of a perfect square is its non-negative root.
pub proof fn lemma_floor_root_of_square(a: int)
    requires
        0 <= a,
    ensures
        is_floor_root(a * a, a),
{
    assert(a * a < (a + 1) * (a + 1)) by (nonlinear_arith)
        requires
            0 <= a,
    ;
}

/// Computes the floor of the square root of `n` by bisection.
pub fn integer_sqrt(n: u128) -> (r: u64)
    ensures
        is_floor_root(n as int, r as int),
        r as int == floor_sqrt(n as int),
{
    let mut lo: u128 = 0;
    let mut hi: u128 = 0x1_0000_0000_0000_0000;
    while hi - lo > 1
        invariant
            lo < hi <= 0x1_0000_0000_0000_0000,
            lo * lo <= n,
            n < hi * hi,
        decreases hi - lo,
    {
        let mid: u128 = lo + (hi - lo) / 2;
        assert(mid * mid <= 0xffff_ffff_ffff_ffff * 0xffff_ffff_ffff_ffff) by (nonlinear_arith)
            requires
                0 <= mid <= 0xffff_ffff_ffff_ffff,
        ;
        if mid * mid <= n {
            lo = mid;
        } else {
            hi = mid;
        }
    }
    proof {
        lemma_floor_sqrt_is(n as int, lo as int);
    }
    lo as u64
}

} // verus!
