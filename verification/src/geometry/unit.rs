//! Vectors of length one, exactly and up to rounding.
//!
//! On the grid of fixed-point numbers the only vectors whose length is exactly
//! one are the six signed axis vectors: a sum of three squares equals `4^32`
//! only if two of the squares are zero. Every other direction is only nearly
//! unit after normalizing, and this module says how nearly.

use crate::geometry::vec3::Vec3;
use crate::numeric::fixed::SCALE;
use vstd::prelude::*;

verus! {

/// Two to the power `k`.
pub open spec fn two_to(k: nat) -> int
    decreases k,
{
    if k == 0 {
        1
    } else {
        2 * two_to((k - 1) as nat)
    }
}

/// The squares of the raw components add up to exactly one.
pub open spec fn is_unit(n: Vec3) -> bool {
    n.raw_norm_squared() == SCALE * SCALE
}

/// Two of the three numbers are zero and the third is `p` or `-p`.
pub open spec fn is_axis_triple(x: int, y: int, z: int, p: int) -> bool {
    ||| (x == p || x == -p) && y == 0 && z == 0
    ||| x == 0 && (y == p || y == -p) && z == 0
    ||| x == 0 && y == 0 && (z == p || z == -p)
}

/// The vector is one of the six signed axis vectors.
pub open spec fn is_axis(n: Vec3) -> bool {
    is_axis_triple(n.x@, n.y@, n.z@, SCALE as int)
}

/// A square leaves the remainder 0 or 1 when divided by four, and 0 only if
/// its root is even.
pub proof fn lemma_square_mod_four(x: int)
    ensures
        (x * x) % 4 == 0 || (x * x) % 4 == 1,
        (x * x) % 4 == 0 ==> x % 2 == 0,
{
    let q = x / 2;
    let r = x % 2;
    let m = q * q + q * r;
    assert(x * x == 4 * m + r * r) by (nonlinear_arith)
        requires
            x == 2 * q + r,
            m == q * q + q * r,
    ;
    if r == 0 {
        assert(r * r == 0) by (nonlinear_arith)
            requires
                r == 0,
        ;
    } else {
        assert(r * r == 1) by (nonlinear_arith)
            requires
                r == 1,
        ;
    }
}

/// Three squares that add up to one are a one and two zeros.
pub proof fn lemma_three_squares_one(x: int, y: int, z: int)
    requires
        x * x + y * y + z * z == 1,
    ensures
        is_axis_triple(x, y, z, 1),
{
    assert(x * x >= 0 && y * y >= 0 && z * z >= 0) by (nonlinear_arith);
    assert(x * x >= 1 ==> (x * x == 1 ==> (x == 1 || x == -1))) by (nonlinear_arith);
    assert(y * y >= 1 ==> (y * y == 1 ==> (y == 1 || y == -1))) by (nonlinear_arith);
    assert(z * z >= 1 ==> (z * z == 1 ==> (z == 1 || z == -1))) by (nonlinear_arith);
    assert(x * x == 0 ==> x == 0) by (nonlinear_arith);
    assert(y * y == 0 ==> y == 0) by (nonlinear_arith);
    assert(z * z == 0 ==> z == 0) by (nonlinear_arith);
}

/// Three squares that add up to the square of a power of two are that square
/// and two zeros.
pub proof fn lemma_three_squares(k: nat, x: int, y: int, z: int)
    requires
        x * x + y * y + z * z == two_to(k) * two_to(k),
    ensures
        is_axis_triple(x, y, z, two_to(k)),
    decreases k,
{
    if k == 0 {
        assert(two_to(0) * two_to(0) == 1) by (nonlinear_arith)
            requires
                two_to(0) == 1,
        ;
        lemma_three_squares_one(x, y, z);
    } else {
        let p = two_to((k - 1) as nat);
        assert(two_to(k) == 2 * p);
        assert(two_to(k) * two_to(k) == 4 * (p * p)) by (nonlinear_arith)
            requires
                two_to(k) == 2 * p,
        ;
        lemma_square_mod_four(x);
        lemma_square_mod_four(y);
        lemma_square_mod_four(z);
        let (a, b, c) = (x / 2, y / 2, z / 2);
        assert(x == 2 * a && y == 2 * b && z == 2 * c);
        assert(x * x + y * y + z * z == 4 * (a * a + b * b + c * c)) by (nonlinear_arith)
            requires
                x == 2 * a,
                y == 2 * b,
                z == 2 * c,
        ;
        lemma_three_squares((k - 1) as nat, a, b, c);
    }
}

/// The scale of the grid is two to the power 32.
pub proof fn lemma_scale_is_power_of_two()
    ensures
        two_to(32) == SCALE,
{
    reveal_with_fuel(two_to, 33);
    assert(SCALE == 0x1_0000_0000);
}

/// A vector of length exactly one is a signed axis vector.
pub proof fn lemma_unit_is_axis(n: Vec3)
    requires
        is_unit(n),
    ensures
        is_axis(n),
{
    lemma_scale_is_power_of_two();
    lemma_three_squares(32, n.x@, n.y@, n.z@);
}

/// The squares of the raw components add up to one, give or take nine units
/// of the grid.
pub open spec fn is_nearly_unit(n: Vec3) -> bool {
    -9 * SCALE <= n.raw_norm_squared() - SCALE * SCALE <= 9 * SCALE
}

/// Each component lies between minus one and one.
pub open spec fn is_within_one(v: Vec3) -> bool {
    &&& -SCALE <= v.x@ <= SCALE
    &&& -SCALE <= v.y@ <= SCALE
    &&& -SCALE <= v.z@ <= SCALE
}

/// For a divisor `l` with `l * l <= w < (l + 1)^2` and a component `x` with
/// `x * x <= w`, the square of the rounded quotient `x * s / l`, scaled by
/// `l * l`, differs from `s * s * x * x` by at most `(2 * s + 1) * l * l`.
proof fn lemma_scaled_component(x: int, l: int, s: int, n: int)
    requires
        l > 0,
        s > 0,
        -l <= x <= l,
        n == (x * s) / l,
    ensures
        s * s * (x * x) - 2 * (s * (l * l)) <= l * l * (n * n) <= s * s * (x * x) + 2 * (s * (l * l)) + l * l,
{
    vstd::arithmetic::div_mod::lemma_fundamental_div_mod(x * s, l);
    vstd::arithmetic::div_mod::lemma_mod_bound(x * s, l);
    let r = (x * s) % l;
    assert(l * n == x * s - r);
    assert(l * l * (n * n) == (x * s - r) * (x * s - r)) by (nonlinear_arith)
        requires
            l * n == x * s - r,
    ;
    assert((x * s - r) * (x * s - r) == s * s * (x * x) - 2 * s * (x * r) + r * r) by (nonlinear_arith);
    assert(r * r <= l * l) by (nonlinear_arith)
        requires
            0 <= r < l,
    ;
    assert(r * r >= 0) by (nonlinear_arith);
    assert(-(l * l) <= x * r <= l * l) by (nonlinear_arith)
        requires
            0 <= r < l,
            -l <= x <= l,
    ;
    assert(2 * s * (x * r) <= 2 * (s * (l * l)) && 2 * s * (x * r) >= -(2 * (s * (l * l)))) by (nonlinear_arith)
        requires
            -(l * l) <= x * r <= l * l,
            s > 0,
    ;
}

/// Normalizing a vector of length at least one gives a vector that is nearly
/// unit, provided the length is representable.
pub proof fn lemma_normalize_nearly_unit(w: Vec3)
    requires
        crate::numeric::root::floor_sqrt(w.raw_norm_squared()) <= i64::MAX,
        w.length_spec()@ >= SCALE,
    ensures
        is_nearly_unit(w.normalize_spec()),
        is_within_one(w.normalize_spec()),
{
    assert(SCALE == 0x1_0000_0000);
    let s = SCALE as int;
    let total = w.raw_norm_squared();
    crate::geometry::vec3::lemma_squares_nonnegative(w.x@, w.y@, w.z@);
    crate::numeric::root::lemma_floor_sqrt_nonnegative(total);
    let l = crate::numeric::root::floor_sqrt(total);
    assert(w.length_spec()@ == l);
    let n = w.normalize_spec();
    lemma_component_within(w.x@, total, l);
    lemma_component_within(w.y@, total, l);
    lemma_component_within(w.z@, total, l);
    crate::numeric::fixed::lemma_ratio_bounded(w.x, w.length_spec());
    crate::numeric::fixed::lemma_ratio_bounded(w.y, w.length_spec());
    crate::numeric::fixed::lemma_ratio_bounded(w.z, w.length_spec());
    assert(n.x@ == (w.x@ * s) / l);
    assert(n.y@ == (w.y@ * s) / l);
    assert(n.z@ == (w.z@ * s) / l);
    lemma_scaled_component(w.x@, l, s, n.x@);
    lemma_scaled_component(w.y@, l, s, n.y@);
    lemma_scaled_component(w.z@, l, s, n.z@);
    let sum = n.raw_norm_squared();
    let ll = l * l;
    let sl = s * ll;
    assert(ll * sum == ll * (n.x@ * n.x@) + ll * (n.y@ * n.y@) + ll * (n.z@ * n.z@)) by (nonlinear_arith)
        requires
            sum == n.x@ * n.x@ + n.y@ * n.y@ + n.z@ * n.z@,
    ;
    assert(s * s * total == s * s * (w.x@ * w.x@) + s * s * (w.y@ * w.y@) + s * s * (w.z@ * w.z@))
        by (nonlinear_arith)
        requires
            total == w.x@ * w.x@ + w.y@ * w.y@ + w.z@ * w.z@,
    ;
    // l * l <= total <= l * l + 2 * l
    assert((l + 1) * (l + 1) == ll + 2 * l + 1) by (nonlinear_arith)
        requires
            ll == l * l,
    ;
    assert(s * s * total <= s * s * ll + 2 * (s * s) * l && s * s * total >= s * s * ll) by (nonlinear_arith)
        requires
            ll <= total <= ll + 2 * l,
            s > 0,
    ;
    // 2 * s * s * l <= 2 * s * l * l because s <= l
    assert(2 * (s * s) * l <= 2 * sl) by (nonlinear_arith)
        requires
            0 < s <= l,
            sl == s * (l * l),
    ;
    assert(ll * (sum - s * s) <= ll * (9 * s)) by (nonlinear_arith)
        requires
            ll * sum <= s * s * total + 6 * sl + 3 * ll,
            s * s * total <= s * s * ll + 2 * (s * s) * l,
            2 * (s * s) * l <= 2 * sl,
            sl == s * ll,
            ll >= 0,
            s >= 3,
    ;
    assert(ll * (sum - s * s) >= ll * (-9 * s)) by (nonlinear_arith)
        requires
            ll * sum >= s * s * total - 6 * sl,
            s * s * total >= s * s * ll,
            sl == s * ll,
            ll >= 0,
            s >= 3,
    ;
    assert(ll > 0) by (nonlinear_arith)
        requires
            ll == l * l,
            l > 0,
    ;
    assert(sum - s * s <= 9 * s) by (nonlinear_arith)
        requires
            ll * (sum - s * s) <= ll * (9 * s),
            ll > 0,
    ;
    assert(sum - s * s >= -9 * s) by (nonlinear_arith)
        requires
            ll * (sum - s * s) >= ll * (-9 * s),
            ll > 0,
    ;
}

/// A component whose square is at most `total` has a magnitude of at most
/// the floor square root of `total`.
proof fn lemma_component_within(x: int, total: int, l: int)
    requires
        0 <= x * x <= total,
        crate::numeric::root::is_floor_root(total, l),
    ensures
        -l <= x <= l,
{
    let a: int = if x >= 0 {
        x
    } else {
        -x
    };
    assert(a * a == x * x) by (nonlinear_arith)
        requires
            a == x || a == -x,
    ;
    crate::numeric::root::lemma_floor_root_of_square(a);
    crate::numeric::root::lemma_floor_root_monotone(a * a, a, total, l);
}

} // verus!
