//! Reflection of a direction about a surface normal.

use crate::geometry::unit::{is_nearly_unit, is_unit, is_within_one, lemma_unit_is_axis};
use crate::geometry::vec3::Vec3;
use crate::numeric::fixed::{Fixed, SCALE};
use vstd::prelude::*;

verus! {

/// The mirror image of `v` in the plane with the given normal:
/// `v - 2 * (v . normal) * normal`.
pub open spec fn reflect_spec(v: Vec3, normal: Vec3) -> Vec3 {
    v.minus(normal.scaled(Fixed::from_int_spec(2).times(v.dot_spec(&normal))))
}

/// Reflects `v` about `normal`.
pub fn reflect(v: &Vec3, normal: &Vec3) -> (r: Vec3)
    ensures
        r == reflect_spec(*v, *normal),
{
    *v - Fixed::from_int(2) * v.dot(normal) * *normal
}

/// Each component can be doubled without leaving the representable range.
pub open spec fn can_be_doubled(v: Vec3) -> bool {
    &&& -0x4000_0000_0000_0000 < v.x@ < 0x4000_0000_0000_0000
    &&& -0x4000_0000_0000_0000 < v.y@ < 0x4000_0000_0000_0000
    &&& -0x4000_0000_0000_0000 < v.z@ < 0x4000_0000_0000_0000
}

/// Reflection about a signed axis: along the axis `a` (one or minus one), the
/// component `x` has the projection `a * x`, and reflecting negates both.
proof fn lemma_reflect_along_axis(x: int, a: int)
    requires
        a == SCALE || a == -SCALE,
        -0x4000_0000_0000_0000 < x < 0x4000_0000_0000_0000,
    ensures
        ({
            let s = SCALE as int;
            let k = (x * a) / s;
            let doubled = (2 * s) * k / s;
            let removed = a * doubled / s;
            &&& (k == x || k == -x)
            &&& doubled == 2 * k
            &&& removed == 2 * x
            &&& ((x - removed) * a) / s == -k
        }),
{
    assert(SCALE == 0x1_0000_0000);
    let s = SCALE as int;
    let k = (x * a) / s;
    if a == s {
        assert((x * a) / s == x) by (nonlinear_arith)
            requires
                a == s,
                s == 0x1_0000_0000,
        ;
        assert((2 * s) * k / s == 2 * k) by (nonlinear_arith)
            requires
                s == 0x1_0000_0000,
        ;
        assert(a * (2 * k) / s == 2 * x) by (nonlinear_arith)
            requires
                a == s,
                k == x,
                s == 0x1_0000_0000,
        ;
        assert(((x - 2 * x) * a) / s == -x) by (nonlinear_arith)
            requires
                a == s,
                s == 0x1_0000_0000,
        ;
    } else {
        assert((x * a) / s == -x) by (nonlinear_arith)
            requires
                a == -s,
                s == 0x1_0000_0000,
        ;
        assert((2 * s) * k / s == 2 * k) by (nonlinear_arith)
            requires
                s == 0x1_0000_0000,
        ;
        assert(a * (2 * k) / s == 2 * x) by (nonlinear_arith)
            requires
                a == -s,
                k == -x,
                s == 0x1_0000_0000,
        ;
        assert(((x - 2 * x) * a) / s == x) by (nonlinear_arith)
            requires
                a == -s,
                s == 0x1_0000_0000,
        ;
    }
}

/// Reflecting about a normal of length exactly one negates the component
/// along the normal and keeps its magnitude: `reflect(v, n) . n == -(v . n)`.
/// It holds for every `v` whose components can be doubled.
pub proof fn lemma_reflect_flips_normal_component(v: Vec3, n: Vec3)
    requires
        is_unit(n),
        can_be_doubled(v),
    ensures
        reflect_spec(v, n).dot_spec(&n) == v.dot_spec(&n).negated(),
{
    assert(SCALE == 0x1_0000_0000);
    lemma_unit_is_axis(n);
    let s = SCALE as int;
    let k = v.dot_spec(&n);
    let doubled = Fixed::from_int_spec(2).times(k);
    let removed = n.scaled(doubled);
    let r = v.minus(removed);
    assert(r == reflect_spec(v, n));
    assert(forall|a: int| #[trigger] (a * 0) == 0) by (nonlinear_arith);
    assert(forall|a: int| #[trigger] (0 * a) == 0) by (nonlinear_arith);
    if n.y@ == 0 && n.z@ == 0 {
        lemma_reflect_along_axis(v.x@, n.x@);
        assert(v.y@ * n.y@ == 0 && v.z@ * n.z@ == 0);
        assert(k@ == (v.x@ * n.x@) / s);
        assert(doubled@ == 2 * k@);
        assert(n.y@ * doubled@ == 0 && n.z@ * doubled@ == 0);
        assert(removed.x@ == 2 * v.x@ && removed.y@ == 0 && removed.z@ == 0);
        assert(r.x@ == v.x@ - 2 * v.x@ && r.y == v.y && r.z == v.z);
        assert(r.y@ * n.y@ == 0 && r.z@ * n.z@ == 0);
    } else if n.x@ == 0 && n.z@ == 0 {
        lemma_reflect_along_axis(v.y@, n.y@);
        assert(v.x@ * n.x@ == 0 && v.z@ * n.z@ == 0);
        assert(k@ == (v.y@ * n.y@) / s);
        assert(doubled@ == 2 * k@);
        assert(n.x@ * doubled@ == 0 && n.z@ * doubled@ == 0);
        assert(removed.y@ == 2 * v.y@ && removed.x@ == 0 && removed.z@ == 0);
        assert(r.y@ == v.y@ - 2 * v.y@ && r.x == v.x && r.z == v.z);
        assert(r.x@ * n.x@ == 0 && r.z@ * n.z@ == 0);
    } else {
        lemma_reflect_along_axis(v.z@, n.z@);
        assert(v.x@ * n.x@ == 0 && v.y@ * n.y@ == 0);
        assert(k@ == (v.z@ * n.z@) / s);
        assert(doubled@ == 2 * k@);
        assert(n.x@ * doubled@ == 0 && n.y@ * doubled@ == 0);
        assert(removed.z@ == 2 * v.z@ && removed.x@ == 0 && removed.y@ == 0);
        assert(r.z@ == v.z@ - 2 * v.z@ && r.x == v.x && r.y == v.y);
        assert(r.x@ * n.x@ == 0 && r.y@ * n.y@ == 0);
    }
}

/// The product of two numbers of magnitude at most `s` has magnitude at most
/// `s * s`.
proof fn lemma_product_within(x: int, y: int, s: int)
    requires
        -s <= x <= s,
        -s <= y <= s,
    ensures
        -(s * s) <= x * y <= s * s,
{
    assert(-(s * s) <= x * y <= s * s) by (nonlinear_arith)
        requires
            -s <= x <= s,
            -s <= y <= s,
    ;
}

/// One component of the identity behind `lemma_reflect_arith`.
proof fn lemma_reflect_component(s: int, v: int, n: int, m: int, e: int, r: int)
    requires
        s * e == n * m - r,
    ensures
        s * ((v - e) * n) == s * (v * n) - m * (n * n) + r * n,
{
    assert(s * ((v - e) * n) == s * (v * n) - (s * e) * n) by (nonlinear_arith);
    assert((n * m - r) * n == m * (n * n) - r * n) by (nonlinear_arith);
}

/// The arithmetic at the heart of `lemma_reflect_nearly_flips`, on plain
/// integers: `k` is the rounded projection of `v` on `n`, `e` the rounded
/// vector `2 * k * n` and `rn` the rounded projection of `v - e` on `n`.
proof fn lemma_reflect_arith(
    s: int,
    v1: int,
    v2: int,
    v3: int,
    n1: int,
    n2: int,
    n3: int,
    k: int,
    e1: int,
    e2: int,
    e3: int,
    rn: int,
)
    requires
        s == SCALE,
        -s <= v1 <= s,
        -s <= v2 <= s,
        -s <= v3 <= s,
        -s <= n1 <= s,
        -s <= n2 <= s,
        -s <= n3 <= s,
        -9 * s <= n1 * n1 + n2 * n2 + n3 * n3 - s * s <= 9 * s,
        k == (v1 * n1 + v2 * n2 + v3 * n3) / s,
        e1 == (n1 * (2 * k)) / s,
        e2 == (n2 * (2 * k)) / s,
        e3 == (n3 * (2 * k)) / s,
        rn == ((v1 - e1) * n1 + (v2 - e2) * n2 + (v3 - e3) * n3) / s,
    ensures
        -58 <= rn + k <= 58,
{
    assert(SCALE == 0x1_0000_0000);
    let d = v1 * n1 + v2 * n2 + v3 * n3;
    let big = n1 * n1 + n2 * n2 + n3 * n3;
    let delta = big - s * s;
    lemma_product_within(v1, n1, s);
    lemma_product_within(v2, n2, s);
    lemma_product_within(v3, n3, s);
    let ss = s * s;
    // k and its remainder
    vstd::arithmetic::div_mod::lemma_fundamental_div_mod(d, s);
    vstd::arithmetic::div_mod::lemma_mod_bound(d, s);
    let rho = d % s;
    assert(s * k == d - rho);
    assert(-3 * s <= k <= 3 * s) by (nonlinear_arith)
        requires
            s * k == d - rho,
            0 <= rho < s,
            -3 * ss <= d <= 3 * ss,
            ss == s * s,
            s > 0,
    ;
    // the components of e and their remainders
    let m = 2 * k;
    vstd::arithmetic::div_mod::lemma_fundamental_div_mod(n1 * m, s);
    vstd::arithmetic::div_mod::lemma_mod_bound(n1 * m, s);
    vstd::arithmetic::div_mod::lemma_fundamental_div_mod(n2 * m, s);
    vstd::arithmetic::div_mod::lemma_mod_bound(n2 * m, s);
    vstd::arithmetic::div_mod::lemma_fundamental_div_mod(n3 * m, s);
    vstd::arithmetic::div_mod::lemma_mod_bound(n3 * m, s);
    let r1 = (n1 * m) % s;
    let r2 = (n2 * m) % s;
    let r3 = (n3 * m) % s;
    assert(s * e1 == n1 * m - r1);
    assert(s * e2 == n2 * m - r2);
    assert(s * e3 == n3 * m - r3);
    // the projection of the reflection and its remainder
    let big_r = (v1 - e1) * n1 + (v2 - e2) * n2 + (v3 - e3) * n3;
    vstd::arithmetic::div_mod::lemma_fundamental_div_mod(big_r, s);
    vstd::arithmetic::div_mod::lemma_mod_bound(big_r, s);
    let rr = big_r % s;
    assert(s * rn == big_r - rr);
    // s * R = s * d - m * N + sum of remainders times n
    let p = r1 * n1 + r2 * n2 + r3 * n3;
    lemma_reflect_component(s, v1, n1, m, e1, r1);
    lemma_reflect_component(s, v2, n2, m, e2, r2);
    lemma_reflect_component(s, v3, n3, m, e3, r3);
    let (t1, t2, t3) = ((v1 - e1) * n1, (v2 - e2) * n2, (v3 - e3) * n3);
    let (first, second, third) = (v1 * n1, v2 * n2, v3 * n3);
    let (q1, q2, q3) = (n1 * n1, n2 * n2, n3 * n3);
    assert(s * big_r == s * t1 + s * t2 + s * t3) by (nonlinear_arith)
        requires
            big_r == t1 + t2 + t3,
    ;
    assert(s * d == s * first + s * second + s * third) by (nonlinear_arith)
        requires
            d == first + second + third,
    ;
    assert(m * big == m * q1 + m * q2 + m * q3) by (nonlinear_arith)
        requires
            big == q1 + q2 + q3,
    ;
    assert(s * big_r == s * d - m * big + p);
    lemma_product_within(r1, n1, s);
    lemma_product_within(r2, n2, s);
    lemma_product_within(r3, n3, s);
    assert(-3 * ss <= p <= 3 * ss);
    let kd = k * delta;
    assert(-27 * ss <= kd <= 27 * ss) by (nonlinear_arith)
        requires
            kd == k * delta,
            -3 * s <= k <= 3 * s,
            -9 * s <= delta <= 9 * s,
            ss == s * s,
            s > 0,
    ;
    // s * s * (rn + k) = s * rho - 2 * k * delta + p - s * rr
    assert(ss * (rn + k) == s * rho - 2 * kd + p - s * rr) by (nonlinear_arith)
        requires
            s * rn == big_r - rr,
            s * big_r == s * d - m * big + p,
            s * k == d - rho,
            m == 2 * k,
            big == ss + delta,
            kd == k * delta,
            ss == s * s,
    ;
    assert(0 <= s * rho < ss && 0 <= s * rr < ss) by (nonlinear_arith)
        requires
            0 <= rho < s,
            0 <= rr < s,
            ss == s * s,
    ;
    assert(-58 <= rn + k <= 58) by (nonlinear_arith)
        requires
            -58 * ss < ss * (rn + k) < 58 * ss,
            ss > 0,
    ;
}

/// Reflecting about a normal that is only nearly unit, as normals are after
/// rounding, negates the component along the normal up to 58 units of the
/// grid: `reflect(v, n) . n` differs from `-(v . n)` by less than `2^-26`.
pub proof fn lemma_reflect_nearly_flips(v: Vec3, n: Vec3)
    requires
        is_within_one(v),
        is_within_one(n),
        is_nearly_unit(n),
    ensures
        -58 <= reflect_spec(v, n).dot_spec(&n)@ - v.dot_spec(&n).negated()@ <= 58,
{
    assert(SCALE == 0x1_0000_0000);
    let s = SCALE as int;
    lemma_product_within(v.x@, n.x@, s);
    lemma_product_within(v.y@, n.y@, s);
    lemma_product_within(v.z@, n.z@, s);
    let d = v.x@ * n.x@ + v.y@ * n.y@ + v.z@ * n.z@;
    crate::numeric::fixed::lemma_quotient_bounded(d, s);
    let k = v.dot_spec(&n);
    assert(k@ == d / s);
    let doubled = Fixed::from_int_spec(2).times(k);
    assert((2 * s) * k@ / s == 2 * k@) by (nonlinear_arith)
        requires
            s == 0x1_0000_0000,
    ;
    assert(doubled@ == 2 * k@);
    lemma_product_within(n.x@, doubled@, 8 * s);
    lemma_product_within(n.y@, doubled@, 8 * s);
    lemma_product_within(n.z@, doubled@, 8 * s);
    crate::numeric::fixed::lemma_quotient_bounded(n.x@ * doubled@, s);
    crate::numeric::fixed::lemma_quotient_bounded(n.y@ * doubled@, s);
    crate::numeric::fixed::lemma_quotient_bounded(n.z@ * doubled@, s);
    let removed = n.scaled(doubled);
    assert(removed.x@ == (n.x@ * (2 * k@)) / s);
    assert(removed.y@ == (n.y@ * (2 * k@)) / s);
    assert(removed.z@ == (n.z@ * (2 * k@)) / s);
    let r = reflect_spec(v, n);
    assert(r == v.minus(removed));
    assert(r.x@ == v.x@ - removed.x@ && r.y@ == v.y@ - removed.y@ && r.z@ == v.z@ - removed.z@);
    lemma_product_within(r.x@, n.x@, 0x1_0000_0000_0000_0000);
    lemma_product_within(r.y@, n.y@, 0x1_0000_0000_0000_0000);
    lemma_product_within(r.z@, n.z@, 0x1_0000_0000_0000_0000);
    let big_r = r.x@ * n.x@ + r.y@ * n.y@ + r.z@ * n.z@;
    crate::numeric::fixed::lemma_quotient_bounded(big_r, s);
    let rn = r.dot_spec(&n);
    lemma_reflect_arith(
        s,
        v.x@,
        v.y@,
        v.z@,
        n.x@,
        n.y@,
        n.z@,
        k@,
        removed.x@,
        removed.y@,
        removed.z@,
        big_r / s,
    );
    assert(rn@ == big_r / s);
}

} // verus!
