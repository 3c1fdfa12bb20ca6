//! How rounding affects the decision whether a ray hits a sphere.
//!
//! The coefficients of the quadratic are rounded to the grid, so a ray that
//! passes very close to a sphere may be reported either way. This module
//! bounds the effect: a ray whose line stays clear of the sphere by more than
//! a stated margin is always reported as a miss.

use crate::geometry::ray::Ray;
use crate::numeric::fixed::{lemma_quotient_bounded, Fixed, SCALE};
use crate::scenery::hitable::Hitable;
use crate::scenery::sphere::Sphere;
use vstd::prelude::*;

verus! {

/// The absolute value of an integer.
pub open spec fn magnitude(x: int) -> int {
    if x >= 0 {
        x
    } else {
        -x
    }
}

/// The exact squared length of the direction, in squared raw units.
pub open spec fn exact_a(ray: &Ray) -> int {
    ray.direction.raw_norm_squared()
}

/// The exact product `(origin - centre) . direction`, in squared raw units.
pub open spec fn exact_b(sphere: &Sphere, ray: &Ray) -> int {
    (ray.origin.x@ - sphere.centre.x@) * ray.direction.x@ + (ray.origin.y@ - sphere.centre.y@) * ray.direction.y@
        + (ray.origin.z@ - sphere.centre.z@) * ray.direction.z@
}

/// The exact squared distance from the centre to the origin of the ray, in
/// squared raw units.
pub open spec fn exact_q(sphere: &Sphere, ray: &Ray) -> int {
    (ray.origin.x@ - sphere.centre.x@) * (ray.origin.x@ - sphere.centre.x@) + (ray.origin.y@ - sphere.centre.y@)
        * (ray.origin.y@ - sphere.centre.y@) + (ray.origin.z@ - sphere.centre.z@) * (ray.origin.z@
        - sphere.centre.z@)
}

/// The exact constant coefficient `|origin - centre|^2 - radius^2`.
pub open spec fn exact_c(sphere: &Sphere, ray: &Ray) -> int {
    exact_q(sphere, ray) - sphere.radius@ * sphere.radius@
}

/// The exact discriminant `b^2 - a * c`. It is negative exactly when the line
/// of the ray does not meet the sphere.
pub open spec fn exact_discriminant(sphere: &Sphere, ray: &Ray) -> int {
    exact_b(sphere, ray) * exact_b(sphere, ray) - exact_a(ray) * exact_c(sphere, ray)
}

/// The amount by which the exact discriminant must be negative for rounding
/// not to matter: one unit of the grid times `2|b| + a + |c| + 1`, and a
/// little.
pub open spec fn rounding_margin(sphere: &Sphere, ray: &Ray) -> int {
    SCALE * (2 * magnitude(exact_b(sphere, ray)) + exact_a(ray) + magnitude(exact_c(sphere, ray)) + SCALE * SCALE
        + SCALE)
}

/// The difference `origin - centre` and the squared lengths of that
/// difference and of the direction are representable.
pub open spec fn is_representable(sphere: &Sphere, ray: &Ray) -> bool {
    &&& i64::MIN <= ray.origin.x@ - sphere.centre.x@ <= i64::MAX
    &&& i64::MIN <= ray.origin.y@ - sphere.centre.y@ <= i64::MAX
    &&& i64::MIN <= ray.origin.z@ - sphere.centre.z@ <= i64::MAX
    &&& exact_a(ray) / (SCALE as int) <= i64::MAX
    &&& exact_q(sphere, ray) / (SCALE as int) <= i64::MAX
}

/// The arithmetic at the heart of `lemma_clear_miss`, on plain integers:
/// `a`, `b`, `c` are the rounded coefficients for the exact `ea`, `eb`,
/// `eq - er`, and `bb`, `ac` the rounded products.
proof fn lemma_rounded_discriminant(
    ea: int,
    eb: int,
    eq: int,
    er: int,
    a: int,
    b: int,
    c: int,
    bb: int,
    ac: int,
)
    requires
        ea >= 0,
        eq >= 0,
        er >= 0,
        a == ea / (SCALE as int),
        eb >= 0 ==> 0 <= b <= eb / (SCALE as int),
        eb < 0 ==> eb / (SCALE as int) <= b <= 0,
        eq / (SCALE as int) - er / (SCALE as int) <= c,
        0 <= bb <= (b * b) / (SCALE as int),
        bb <= i64::MAX,
        ac >= (a * c) / (SCALE as int) || ac >= i64::MAX,
        eb * eb - ea * (eq - er) <= -(SCALE * (2 * magnitude(eb) + ea + magnitude(eq - er) + SCALE * SCALE
            + SCALE)),
    ensures
        bb <= ac,
{
    assert(SCALE == 0x1_0000_0000);
    let s = SCALE as int;
    let ec = eq - er;
    let m = magnitude(eb);
    // The exact constant coefficient is positive: otherwise the discriminant
    // would not be negative.
    assert(eb * eb >= 0) by (nonlinear_arith);
    let mc = magnitude(ec);
    assert(s * (2 * m + ea + mc + s * s + s) > 0) by (nonlinear_arith)
        requires
            ea >= 0,
            m >= 0,
            mc >= 0,
            s == 0x1_0000_0000,
    ;
    assert(ec > 0) by (nonlinear_arith)
        requires
            eb * eb - ea * ec < 0,
            eb * eb >= 0,
            ea >= 0,
    ;
    // Rounding down loses less than one unit.
    vstd::arithmetic::div_mod::lemma_fundamental_div_mod(ea, s);
    vstd::arithmetic::div_mod::lemma_mod_bound(ea, s);
    vstd::arithmetic::div_mod::lemma_fundamental_div_mod(eq, s);
    vstd::arithmetic::div_mod::lemma_mod_bound(eq, s);
    vstd::arithmetic::div_mod::lemma_fundamental_div_mod(er, s);
    vstd::arithmetic::div_mod::lemma_mod_bound(er, s);
    vstd::arithmetic::div_mod::lemma_fundamental_div_mod(eb, s);
    vstd::arithmetic::div_mod::lemma_mod_bound(eb, s);
    lemma_quotient_bounded(ea, s);
    assert(s * a >= ea - (s - 1) && a >= 0);
    assert(s * c >= ec - (s - 1)) by (nonlinear_arith)
        requires
            eq / s - er / s <= c,
            eq == s * (eq / s) + eq % s,
            er == s * (er / s) + er % s,
            0 <= eq % s < s,
            0 <= er % s < s,
            ec == eq - er,
            s > 0,
    ;
    assert(c >= 0) by (nonlinear_arith)
        requires
            s * c >= ec - (s - 1),
            ec > 0,
            s == 0x1_0000_0000,
    ;
    // A lower bound on the rounded product a * c.
    assert(s * s * (a * c) >= ea * ec - (s - 1) * (ea + ec)) by (nonlinear_arith)
        requires
            s * a >= ea - (s - 1),
            s * c >= ec - (s - 1),
            a >= 0,
            c >= 0,
            ea >= 0,
            ec > 0,
            s == 0x1_0000_0000,
    ;
    // An upper bound on the rounded square b * b.
    assert(s * magnitude(b) <= m + (s - 1)) by (nonlinear_arith)
        requires
            eb >= 0 ==> 0 <= b <= eb / s,
            eb < 0 ==> eb / s <= b <= 0,
            eb == s * (eb / s) + eb % s,
            0 <= eb % s < s,
            m == magnitude(eb),
            s == 0x1_0000_0000,
    ;
    let mb = magnitude(b);
    assert(b * b == mb * mb) by (nonlinear_arith)
        requires
            mb == b || mb == -b,
    ;
    assert(m * m == eb * eb) by (nonlinear_arith)
        requires
            m == eb || m == -eb,
    ;
    assert(s * s * (mb * mb) <= m * m + 2 * (s - 1) * m + (s - 1) * (s - 1)) by (nonlinear_arith)
        requires
            s * mb <= m + (s - 1),
            mb >= 0,
            m >= 0,
            s == 0x1_0000_0000,
    ;
    vstd::arithmetic::div_mod::lemma_fundamental_div_mod(b * b, s);
    vstd::arithmetic::div_mod::lemma_mod_bound(b * b, s);
    assert(s * bb <= b * b) by (nonlinear_arith)
        requires
            0 <= bb <= (b * b) / s,
            b * b == s * ((b * b) / s) + (b * b) % s,
            0 <= (b * b) % s,
            s > 0,
    ;
    if ac >= i64::MAX {
    } else {
        vstd::arithmetic::div_mod::lemma_fundamental_div_mod(a * c, s);
        vstd::arithmetic::div_mod::lemma_mod_bound(a * c, s);
        assert(s * ac >= a * c - (s - 1)) by (nonlinear_arith)
            requires
                ac >= (a * c) / s,
                a * c == s * ((a * c) / s) + (a * c) % s,
                0 <= (a * c) % s < s,
                s > 0,
        ;
        let x = a * c;
        let y = b * b;
        assert(s * s * s * bb <= s * s * y) by (nonlinear_arith)
            requires
                s * bb <= y,
                s == 0x1_0000_0000,
        ;
        assert(s * s * s * ac >= s * s * x - s * s * (s - 1)) by (nonlinear_arith)
            requires
                s * ac >= x - (s - 1),
                s == 0x1_0000_0000,
        ;
        assert(s * s * y <= s * s * x - s * s * (s - 1)) by (nonlinear_arith)
            requires
                s * s * y <= m * m + 2 * (s - 1) * m + (s - 1) * (s - 1),
                s * s * x >= ea * ec - (s - 1) * (ea + ec),
                m * m - ea * ec <= -(s * (2 * m + ea + ec + s * s + s)),
                m >= 0,
                ea >= 0,
                ec > 0,
                s == 0x1_0000_0000,
        ;
        assert(bb <= ac) by (nonlinear_arith)
            requires
                s * s * s * bb <= s * s * s * ac,
                s == 0x1_0000_0000,
        ;
    }
}

/// A ray whose line stays clear of the sphere by more than the rounding
/// margin hits nothing: if the exact discriminant is below minus the margin,
/// the sphere reports no hit, whatever the interval.
pub proof fn lemma_clear_miss(sphere: &Sphere, ray: &Ray, t_min: Fixed, t_max: Fixed)
    requires
        is_representable(sphere, ray),
        exact_discriminant(sphere, ray) <= -rounding_margin(sphere, ray),
    ensures
        !sphere.crosses(ray),
        sphere.hit_spec(ray, t_min, t_max) is None,
{
    reveal(Sphere::first_root_within);
    assert(SCALE == 0x1_0000_0000);
    let s = SCALE as int;
    let ea = exact_a(ray);
    let eb = exact_b(sphere, ray);
    let eq = exact_q(sphere, ray);
    let er = sphere.radius@ * sphere.radius@;
    let oc = sphere.offset(ray);
    assert(oc.x@ == ray.origin.x@ - sphere.centre.x@);
    assert(oc.y@ == ray.origin.y@ - sphere.centre.y@);
    assert(oc.z@ == ray.origin.z@ - sphere.centre.z@);
    let a = sphere.quadratic_a(ray);
    let b = sphere.quadratic_b(ray);
    let c = sphere.quadratic_c(ray);
    crate::geometry::vec3::lemma_squares_nonnegative(ray.direction.x@, ray.direction.y@, ray.direction.z@);
    crate::geometry::vec3::lemma_squares_nonnegative(oc.x@, oc.y@, oc.z@);
    assert(er >= 0) by (nonlinear_arith)
        requires
            er == sphere.radius@ * sphere.radius@,
    ;
    lemma_quotient_bounded(ea, s);
    lemma_quotient_bounded(eq, s);
    lemma_quotient_bounded(er, s);
    lemma_quotient_bounded(eb, s);
    assert(a@ == ea / s);
    let q = oc.dot_spec(&oc);
    assert(q@ == eq / s);
    let rr = sphere.radius.times(sphere.radius);
    assert(0 <= rr@ <= er / s);
    assert(c@ == q@ - rr@);
    let bb = b.times(b);
    let ac = a.times(c);
    assert(b@ * b@ >= 0) by (nonlinear_arith);
    lemma_quotient_bounded(b@ * b@, s);
    lemma_rounded_discriminant(ea, eb, eq, er, a@, b@, c@, bb@, ac@);
    assert(sphere.discriminant(ray)@ <= 0);
}

} // verus!
