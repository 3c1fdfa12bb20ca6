//! Three-component vectors of fixed-point numbers, used for points, directions
//! and colours.

use crate::numeric::fixed::{floor_div, lemma_product_bounded, Fixed, SCALE};
use crate::numeric::root::{floor_sqrt, integer_sqrt};
use vstd::prelude::*;

verus! {

/// A vector `(x, y, z)`.
#[derive(Clone, Copy, Debug, PartialEq, Eq, Structural)]
pub struct Vec3 {
    pub x: Fixed,
    pub y: Fixed,
    pub z: Fixed,
}

/// The exact sum `first + second + third` of three raw products, scaled back to the grid
/// with a single rounding.
pub open spec fn scaled_sum(first: int, second: int, third: int) -> Fixed {
    Fixed::saturated((first + second + third) / (SCALE as int))
}

/// Splitting each term into quotient and remainder does not change the floor
/// of the sum divided by `d`.
pub proof fn lemma_split_sum(first: int, second: int, third: int, d: int)
    requires
        d > 0,
    ensures
        (first + second + third) / d == first / d + second / d + third / d + (first % d + second % d + third % d) / d,
{
    vstd::arithmetic::div_mod::lemma_fundamental_div_mod(first, d);
    vstd::arithmetic::div_mod::lemma_fundamental_div_mod(second, d);
    vstd::arithmetic::div_mod::lemma_fundamental_div_mod(third, d);
    let q = first / d + second / d + third / d;
    let r = first % d + second % d + third % d;
    assert(first + second + third == r + q * d) by (nonlinear_arith)
        requires
            first == d * (first / d) + first % d,
            second == d * (second / d) + second % d,
            third == d * (third / d) + third % d,
            q == first / d + second / d + third / d,
            r == first % d + second % d + third % d,
    ;
    vstd::arithmetic::div_mod::lemma_hoist_over_denominator(r, q, d as nat);
}

/// Adds three products of raw values exactly and rounds the sum once.
pub(crate) fn scaled_sum_of(first: i128, second: i128, third: i128) -> (r: Fixed)
    requires
        -0x4000_0000_0000_0000_0000_0000_0000_0000 <= first <= 0x4000_0000_0000_0000_0000_0000_0000_0000,
        -0x4000_0000_0000_0000_0000_0000_0000_0000 <= second <= 0x4000_0000_0000_0000_0000_0000_0000_0000,
        -0x4000_0000_0000_0000_0000_0000_0000_0000 <= third <= 0x4000_0000_0000_0000_0000_0000_0000_0000,
    ensures
        r == scaled_sum(first as int, second as int, third as int),
{
    let q1: i128 = floor_div(first, 0x1_0000_0000);
    let q2: i128 = floor_div(second, 0x1_0000_0000);
    let q3: i128 = floor_div(third, 0x1_0000_0000);
    proof {
        let d: int = 0x1_0000_0000;
        vstd::arithmetic::div_mod::lemma_fundamental_div_mod(first as int, d);
        vstd::arithmetic::div_mod::lemma_fundamental_div_mod(second as int, d);
        vstd::arithmetic::div_mod::lemma_fundamental_div_mod(third as int, d);
        vstd::arithmetic::div_mod::lemma_mod_bound(first as int, d);
        vstd::arithmetic::div_mod::lemma_mod_bound(second as int, d);
        vstd::arithmetic::div_mod::lemma_mod_bound(third as int, d);
        crate::numeric::fixed::lemma_quotient_bounded(first as int, d);
        crate::numeric::fixed::lemma_quotient_bounded(second as int, d);
        crate::numeric::fixed::lemma_quotient_bounded(third as int, d);
        lemma_split_sum(first as int, second as int, third as int, d);
    }
    let r1: i128 = first - q1 * 0x1_0000_0000;
    let r2: i128 = second - q2 * 0x1_0000_0000;
    let r3: i128 = third - q3 * 0x1_0000_0000;
    let carry: i128 = floor_div(r1 + r2 + r3, 0x1_0000_0000);
    Fixed::saturating(q1 + q2 + q3 + carry)
}

impl Vec3 {
    /// The dot product: the exact sum of the three products, rounded once.
    pub open spec fn dot_spec(&self, other: &Vec3) -> Fixed {
        scaled_sum(self.x@ * other.x@, self.y@ * other.y@, self.z@ * other.z@)
    }

    /// The squared length `self . self`.
    pub open spec fn squared_length_spec(&self) -> Fixed {
        self.dot_spec(self)
    }

    /// The exact sum of the squares of the raw components.
    pub open spec fn raw_norm_squared(&self) -> int {
        self.x@ * self.x@ + self.y@ * self.y@ + self.z@ * self.z@
    }

    /// The length: the floor square root of the exact sum of squares.
    pub open spec fn length_spec(&self) -> Fixed {
        Fixed::saturated(floor_sqrt(self.raw_norm_squared()))
    }

    /// The cross product; each component is an exact difference of two products,
    /// rounded once.
    pub open spec fn cross_spec(&self, other: &Vec3) -> Vec3 {
        Vec3 {
            x: scaled_sum(self.y@ * other.z@, -(self.z@ * other.y@), 0),
            y: scaled_sum(self.z@ * other.x@, -(self.x@ * other.z@), 0),
            z: scaled_sum(self.x@ * other.y@, -(self.y@ * other.x@), 0),
        }
    }

    /// The component-wise sum.
    pub open spec fn plus(self, rhs: Vec3) -> Vec3 {
        Vec3 { x: self.x.plus(rhs.x), y: self.y.plus(rhs.y), z: self.z.plus(rhs.z) }
    }

    /// The component-wise difference.
    pub open spec fn minus(self, rhs: Vec3) -> Vec3 {
        Vec3 { x: self.x.minus(rhs.x), y: self.y.minus(rhs.y), z: self.z.minus(rhs.z) }
    }

    /// The component-wise negation.
    pub open spec fn negated(self) -> Vec3 {
        Vec3 { x: self.x.negated(), y: self.y.negated(), z: self.z.negated() }
    }

    /// Each component multiplied by the scalar `k`.
    pub open spec fn scaled(self, k: Fixed) -> Vec3 {
        Vec3 { x: self.x.times(k), y: self.y.times(k), z: self.z.times(k) }
    }

    /// The component-wise product.
    pub open spec fn times(self, rhs: Vec3) -> Vec3 {
        Vec3 { x: self.x.times(rhs.x), y: self.y.times(rhs.y), z: self.z.times(rhs.z) }
    }

    /// Each component divided by the scalar `k`.
    pub open spec fn over(self, k: Fixed) -> Vec3 {
        Vec3 { x: self.x.over(k), y: self.y.over(k), z: self.z.over(k) }
    }

    /// Each component divided by the length. The zero vector stays zero.
    pub open spec fn normalize_spec(&self) -> Vec3 {
        self.over(self.length_spec())
    }

    /// Each component multiplied by the reciprocal of the length.
    pub open spec fn unit_spec(&self) -> Vec3 {
        self.scaled(Fixed { raw: SCALE }.over(self.length_spec()))
    }

    /// The vector `(x, y, z)`.
    pub fn new(x: Fixed, y: Fixed, z: Fixed) -> (v: Vec3)
        ensures
            v == (Vec3 { x, y, z }),
    {
        Vec3 { x, y, z }
    }

    /// The dot product of `self` and `other`.
    #[verifier::when_used_as_spec(dot_spec)]
    pub fn dot(&self, other: &Vec3) -> (r: Fixed)
        ensures
            r == self.dot_spec(other),
    {
        proof {
            lemma_product_bounded(self.x@, other.x@);
            lemma_product_bounded(self.y@, other.y@);
            lemma_product_bounded(self.z@, other.z@);
        }
        scaled_sum_of(
            (self.x.raw as i128) * (other.x.raw as i128),
            (self.y.raw as i128) * (other.y.raw as i128),
            (self.z.raw as i128) * (other.z.raw as i128),
        )
    }

    /// The squared length of the vector.
    #[verifier::when_used_as_spec(squared_length_spec)]
    pub fn squared_length(&self) -> (r: Fixed)
        ensures
            r == self.squared_length_spec(),
            r@ >= 0,
    {
        proof {
            lemma_squares_nonnegative(self.x@, self.y@, self.z@);
            crate::numeric::fixed::lemma_quotient_bounded(self.raw_norm_squared(), SCALE as int);
        }
        self.dot(self)
    }

    /// The length of the vector.
    #[verifier::when_used_as_spec(length_spec)]
    pub fn length(&self) -> (r: Fixed)
        ensures
            r == self.length_spec(),
            r@ >= 0,
    {
        proof {
            lemma_product_bounded(self.x@, self.x@);
            lemma_product_bounded(self.y@, self.y@);
            lemma_product_bounded(self.z@, self.z@);
            lemma_squares_nonnegative(self.x@, self.y@, self.z@);
        }
        let xx: i128 = (self.x.raw as i128) * (self.x.raw as i128);
        let yy: i128 = (self.y.raw as i128) * (self.y.raw as i128);
        let zz: i128 = (self.z.raw as i128) * (self.z.raw as i128);
        let sum: u128 = (xx as u128) + (yy as u128) + (zz as u128);
        let root: u64 = integer_sqrt(sum);
        Fixed::saturating(root as i128)
    }

    /// The cross product of `self` and `other`.
    #[verifier::when_used_as_spec(cross_spec)]
    pub fn cross(&self, other: &Vec3) -> (r: Vec3)
        ensures
            r == self.cross_spec(other),
    {
        proof {
            lemma_product_bounded(self.y@, other.z@);
            lemma_product_bounded(self.z@, other.y@);
            lemma_product_bounded(self.z@, other.x@);
            lemma_product_bounded(self.x@, other.z@);
            lemma_product_bounded(self.x@, other.y@);
            lemma_product_bounded(self.y@, other.x@);
        }
        Vec3 {
            x: scaled_sum_of(
                (self.y.raw as i128) * (other.z.raw as i128),
                -((self.z.raw as i128) * (other.y.raw as i128)),
                0,
            ),
            y: scaled_sum_of(
                (self.z.raw as i128) * (other.x.raw as i128),
                -((self.x.raw as i128) * (other.z.raw as i128)),
                0,
            ),
            z: scaled_sum_of(
                (self.x.raw as i128) * (other.y.raw as i128),
                -((self.y.raw as i128) * (other.x.raw as i128)),
                0,
            ),
        }
    }

    /// The vector scaled by the reciprocal of its length.
    #[verifier::when_used_as_spec(unit_spec)]
    pub fn unit(&self) -> (r: Vec3)
        ensures
            r == self.unit_spec(),
    {
        let k: Fixed = Fixed::one() / self.length();
        *self * k
    }

    /// The vector divided by its length. The zero vector stays zero.
    #[verifier::when_used_as_spec(normalize_spec)]
    pub fn normalize(&self) -> (r: Vec3)
        ensures
            r == self.normalize_spec(),
    {
        *self / self.length()
    }
}

/// A component divided by the length of its vector lies between minus one and
/// one; only the smallest representable number can fall short of minus one,
/// by one unit of the grid.
pub proof fn lemma_component_ratio_bounded(x: Fixed, v: Vec3)
    requires
        x == v.x || x == v.y || x == v.z,
    ensures
        -SCALE - 1 <= x.over(v.length_spec())@ <= SCALE,
        x@ > i64::MIN ==> -SCALE <= x.over(v.length_spec())@,
{
    assert(SCALE == 0x1_0000_0000);
    let n = v.raw_norm_squared();
    lemma_squares_nonnegative(v.x@, v.y@, v.z@);
    crate::numeric::root::lemma_floor_sqrt_nonnegative(n);
    let root = floor_sqrt(n);
    let a: int = if x@ >= 0 {
        x@
    } else {
        -x@
    };
    assert(a * a == x@ * x@) by (nonlinear_arith)
        requires
            a == x@ || a == -x@,
    ;
    crate::numeric::root::lemma_floor_root_of_square(a);
    crate::numeric::root::lemma_floor_root_monotone(a * a, a, n, root);
    let len = v.length_spec();
    if len@ == 0 {
        assert(x@ == 0);
    } else if x@ > i64::MIN {
        crate::numeric::fixed::lemma_ratio_bounded(x, len);
    } else {
        assert(len@ == i64::MAX);
        assert((-0x8000_0000_0000_0000int * 0x1_0000_0000int) / 0x7fff_ffff_ffff_ffffint == -0x1_0000_0001int);
    }
}

/// Each component of a normalized vector lies between minus one and one; only
/// a component that was the smallest representable number can fall short of
/// minus one, by one unit of the grid.
pub proof fn lemma_normalize_bounded(v: Vec3)
    ensures
        -SCALE - 1 <= v.normalize_spec().x@ <= SCALE,
        -SCALE - 1 <= v.normalize_spec().y@ <= SCALE,
        -SCALE - 1 <= v.normalize_spec().z@ <= SCALE,
        v.x@ > i64::MIN ==> -SCALE <= v.normalize_spec().x@,
        v.y@ > i64::MIN ==> -SCALE <= v.normalize_spec().y@,
        v.z@ > i64::MIN ==> -SCALE <= v.normalize_spec().z@,
{
    lemma_component_ratio_bounded(v.x, v);
    lemma_component_ratio_bounded(v.y, v);
    lemma_component_ratio_bounded(v.z, v);
}

/// A sum of three squares is not negative.
pub proof fn lemma_squares_nonnegative(x: int, y: int, z: int)
    ensures
        x * x >= 0,
        y * y >= 0,
        z * z >= 0,
        x * x + y * y + z * z >= 0,
{
    assert(x * x >= 0) by (nonlinear_arith);
    assert(y * y >= 0) by (nonlinear_arith);
    assert(z * z >= 0) by (nonlinear_arith);
}

impl core::ops::Add for Vec3 {
    type Output = Vec3;

    /// The component-wise sum.
    fn add(self, rhs: Vec3) -> (r: Vec3)
        ensures
            r == self.plus(rhs),
    {
        Vec3 { x: self.x + rhs.x, y: self.y + rhs.y, z: self.z + rhs.z }
    }
}

impl vstd::std_specs::ops::AddSpecImpl for Vec3 {
    open spec fn obeys_add_spec() -> bool {
        true
    }

    open spec fn add_req(self, rhs: Vec3) -> bool {
        true
    }

    open spec fn add_spec(self, rhs: Vec3) -> Vec3 {
        self.plus(rhs)
    }
}

impl core::ops::Sub for Vec3 {
    type Output = Vec3;

    /// The component-wise difference.
    fn sub(self, rhs: Vec3) -> (r: Vec3)
        ensures
            r == self.minus(rhs),
    {
        Vec3 { x: self.x - rhs.x, y: self.y - rhs.y, z: self.z - rhs.z }
    }
}

impl vstd::std_specs::ops::SubSpecImpl for Vec3 {
    open spec fn obeys_sub_spec() -> bool {
        true
    }

    open spec fn sub_req(self, rhs: Vec3) -> bool {
        true
    }

    open spec fn sub_spec(self, rhs: Vec3) -> Vec3 {
        self.minus(rhs)
    }
}

impl core::ops::Neg for Vec3 {
    type Output = Vec3;

    /// The component-wise negation.
    fn neg(self) -> (r: Vec3)
        ensures
            r == self.negated(),
    {
        Vec3 { x: core::ops::Neg::neg(self.x), y: core::ops::Neg::neg(self.y), z: core::ops::Neg::neg(self.z) }
    }
}

impl vstd::std_specs::ops::NegSpecImpl for Vec3 {
    open spec fn obeys_neg_spec() -> bool {
        true
    }

    open spec fn neg_req(self) -> bool {
        true
    }

    open spec fn neg_spec(self) -> Vec3 {
        self.negated()
    }
}

impl core::ops::Mul<Fixed> for Vec3 {
    type Output = Vec3;

    /// Each component multiplied by the scalar.
    fn mul(self, rhs: Fixed) -> (r: Vec3)
        ensures
            r == self.scaled(rhs),
    {
        Vec3 { x: self.x * rhs, y: self.y * rhs, z: self.z * rhs }
    }
}

impl vstd::std_specs::ops::MulSpecImpl<Fixed> for Vec3 {
    open spec fn obeys_mul_spec() -> bool {
        true
    }

    open spec fn mul_req(self, rhs: Fixed) -> bool {
        true
    }

    open spec fn mul_spec(self, rhs: Fixed) -> Vec3 {
        self.scaled(rhs)
    }
}

impl core::ops::Mul<Vec3> for Fixed {
    type Output = Vec3;

    /// Each component of the vector multiplied by the scalar.
    fn mul(self, rhs: Vec3) -> (r: Vec3)
        ensures
            r == rhs.scaled(self),
    {
        Vec3 { x: rhs.x * self, y: rhs.y * self, z: rhs.z * self }
    }
}

impl vstd::std_specs::ops::MulSpecImpl<Vec3> for Fixed {
    open spec fn obeys_mul_spec() -> bool {
        true
    }

    open spec fn mul_req(self, rhs: Vec3) -> bool {
        true
    }

    open spec fn mul_spec(self, rhs: Vec3) -> Vec3 {
        rhs.scaled(self)
    }
}

impl core::ops::Mul<Vec3> for Vec3 {
    type Output = Vec3;

    /// The component-wise product, used to attenuate one colour by another.
    fn mul(self, rhs: Vec3) -> (r: Vec3)
        ensures
            r == self.times(rhs),
    {
        Vec3 { x: self.x * rhs.x, y: self.y * rhs.y, z: self.z * rhs.z }
    }
}

impl vstd::std_specs::ops::MulSpecImpl<Vec3> for Vec3 {
    open spec fn obeys_mul_spec() -> bool {
        true
    }

    open spec fn mul_req(self, rhs: Vec3) -> bool {
        true
    }

    open spec fn mul_spec(self, rhs: Vec3) -> Vec3 {
        self.times(rhs)
    }
}

impl core::ops::Div<Fixed> for Vec3 {
    type Output = Vec3;

    /// Each component divided by the scalar.
    fn div(self, rhs: Fixed) -> (r: Vec3)
        ensures
            r == self.over(rhs),
    {
        Vec3 { x: self.x / rhs, y: self.y / rhs, z: self.z / rhs }
    }
}

impl vstd::std_specs::ops::DivSpecImpl<Fixed> for Vec3 {
    open spec fn obeys_div_spec() -> bool {
        true
    }

    open spec fn div_req(self, rhs: Fixed) -> bool {
        true
    }

    open spec fn div_spec(self, rhs: Fixed) -> Vec3 {
        self.over(rhs)
    }
}

} // verus!
