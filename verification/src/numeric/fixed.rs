//! Saturating fixed-point numbers with 32 fractional bits.
//!
//! A [`Fixed`] stores the integer `raw` and stands for the rational `raw / 2^32`.
//! Its view is `raw` as a mathematical integer, so the number one has the view
//! [`SCALE`].
//! Every operation computes the exact result, rounds it down to the grid and
//! clamps it to the representable range.

use crate::numeric::root::{floor_sqrt, integer_sqrt, is_floor_root, lemma_square_monotone};
use vstd::prelude::*;

verus! {

/// The raw value of the number one.
pub const SCALE: i64 = 0x1_0000_0000;

/// Clamps an integer to the range of raw values.
pub open spec fn saturate(x: int) -> int {
    if x < i64::MIN {
        i64::MIN as int
    } else if x > i64::MAX {
        i64::MAX as int
    } else {
        x
    }
}

/// The floor of the exact quotient `n / d`, for `d != 0`.
pub open spec fn floor_quotient(n: int, d: int) -> int {
    if d > 0 {
        n / d
    } else {
        (-n) / (-d)
    }
}

/// A fixed-point number: `raw / 2^32`.
#[derive(Clone, Copy, Debug, PartialEq, Eq, Structural)]
pub struct Fixed {
    pub raw: i64,
}

impl View for Fixed {
    type V = int;

    open spec fn view(&self) -> int {
        self.raw as int
    }
}

/// Floor division of 128-bit integers by a positive divisor.
pub(crate) fn floor_div(n: i128, d: i128) -> (q: i128)
    requires
        d > 0,
    ensures
        q == n / d,
{
    proof {
        lemma_quotient_bounded(n as int, d as int);
    }
    match n.checked_div_euclid(d) {
        Some(q) => q,
        // Not reached: the quotient by a positive divisor always fits.
        None => 0,
    }
}

/// Dividing by a positive integer never increases the magnitude.
pub proof fn lemma_quotient_bounded(n: int, d: int)
    requires
        d > 0,
    ensures
        n >= 0 ==> 0 <= n / d <= n,
        n < 0 ==> n <= n / d < 0,
{
    vstd::arithmetic::div_mod::lemma_fundamental_div_mod(n, d);
    vstd::arithmetic::div_mod::lemma_mod_bound(n, d);
    let q = n / d;
    let r = n % d;
    assert(n == d * q + r);
    if n >= 0 {
        assert(0 <= q <= n) by (nonlinear_arith)
            requires
                n == d * q + r,
                0 <= r < d,
                n >= 0,
        ;
    } else {
        assert(n <= q < 0) by (nonlinear_arith)
            requires
                n == d * q + r,
                0 <= r < d,
                n < 0,
        ;
    }
}

/// Floor division by a positive integer is monotone in the dividend.
pub proof fn lemma_quotient_monotone(n1: int, n2: int, d: int)
    requires
        d > 0,
        n1 <= n2,
    ensures
        n1 / d <= n2 / d,
{
    vstd::arithmetic::div_mod::lemma_div_is_ordered(n1, n2, d);
}

/// The product of two raw values fits comfortably in 128 bits.
pub proof fn lemma_product_bounded(a: int, b: int)
    requires
        i64::MIN <= a <= i64::MAX,
        i64::MIN <= b <= i64::MAX,
    ensures
        -0x4000_0000_0000_0000_0000_0000_0000_0000 <= a * b
            <= 0x4000_0000_0000_0000_0000_0000_0000_0000,
{
    assert(-0x4000_0000_0000_0000_0000_0000_0000_0000 <= a * b
        <= 0x4000_0000_0000_0000_0000_0000_0000_0000) by (nonlinear_arith)
        requires
            -0x8000_0000_0000_0000 <= a <= 0x8000_0000_0000_0000,
            -0x8000_0000_0000_0000 <= b <= 0x8000_0000_0000_0000,
    ;
}

/// The product of a non-negative number and a number between zero and one
/// lies between zero and the first factor.
pub proof fn lemma_fraction_product(a: Fixed, b: Fixed)
    requires
        0 <= a@,
        0 <= b@ <= SCALE,
    ensures
        0 <= a.times(b)@ <= a@,
{
    assert(SCALE == 0x1_0000_0000);
    assert(0 <= a@ * b@ <= a@ * SCALE) by (nonlinear_arith)
        requires
            0 <= a@,
            0 <= b@ <= SCALE,
    ;
    lemma_quotient_bounded(a@ * b@, SCALE as int);
    lemma_quotient_monotone(a@ * b@, a@ * SCALE, SCALE as int);
    assert(a@ * SCALE / (SCALE as int) == a@) by (nonlinear_arith)
        requires
            SCALE == 0x1_0000_0000,
    ;
}

/// Multiplying by one changes nothing.
pub proof fn lemma_times_one(a: Fixed)
    ensures
        a.times(Fixed::from_int_spec(1)) == a,
        Fixed::from_int_spec(1).times(a) == a,
{
    assert(SCALE == 0x1_0000_0000);
    assert(a@ * SCALE / (SCALE as int) == a@) by (nonlinear_arith)
        requires
            SCALE == 0x1_0000_0000,
    ;
    assert(SCALE * a@ / (SCALE as int) == a@) by (nonlinear_arith)
        requires
            SCALE == 0x1_0000_0000,
    ;
}

/// Multiplying by zero gives zero.
pub proof fn lemma_times_zero(a: Fixed)
    ensures
        a.times(Fixed::from_int_spec(0))@ == 0,
        Fixed::from_int_spec(0).times(a)@ == 0,
{
    assert(a@ * 0 == 0) by (nonlinear_arith);
    assert(0 * a@ == 0) by (nonlinear_arith);
}

/// A number divided by a positive number of at least its magnitude lies
/// between minus one and one.
pub proof fn lemma_ratio_bounded(x: Fixed, len: Fixed)
    requires
        len@ > 0,
        -len@ <= x@ <= len@,
    ensures
        -SCALE <= x.over(len)@ <= SCALE,
{
    assert(SCALE == 0x1_0000_0000);
    let l = len@;
    assert(x@ * SCALE <= l * SCALE && (-l) * SCALE <= x@ * SCALE && (-l) * SCALE == (-(SCALE as int)) * l)
        by (nonlinear_arith)
        requires
            -l <= x@ <= l,
            SCALE == 0x1_0000_0000,
    ;
    lemma_quotient_monotone(x@ * SCALE, l * SCALE, l);
    lemma_quotient_monotone((-l) * SCALE, x@ * SCALE, l);
    vstd::arithmetic::div_mod::lemma_div_multiples_vanish(SCALE as int, l);
    vstd::arithmetic::div_mod::lemma_div_multiples_vanish(-(SCALE as int), l);
    assert(l * SCALE == (SCALE as int) * l) by (nonlinear_arith);
}

impl Fixed {
    /// The number whose raw value is `x`, clamped to the representable range.
    pub open spec fn saturated(x: int) -> Fixed {
        Fixed { raw: saturate(x) as i64 }
    }

    /// The largest representable number.
    pub open spec fn top() -> Fixed {
        Fixed { raw: i64::MAX }
    }

    /// The smallest representable number.
    pub open spec fn bottom() -> Fixed {
        Fixed { raw: i64::MIN }
    }

    /// The whole number `n`.
    pub open spec fn from_int_spec(n: i32) -> Fixed {
        Fixed { raw: (n * SCALE) as i64 }
    }

    /// The sum, saturated.
    pub open spec fn plus(self, rhs: Fixed) -> Fixed {
        Fixed::saturated(self@ + rhs@)
    }

    /// The difference, saturated.
    pub open spec fn minus(self, rhs: Fixed) -> Fixed {
        Fixed::saturated(self@ - rhs@)
    }

    /// The negation, saturated.
    pub open spec fn negated(self) -> Fixed {
        Fixed::saturated(-self@)
    }

    /// The product, rounded down and saturated.
    pub open spec fn times(self, rhs: Fixed) -> Fixed {
        Fixed::saturated(self@ * rhs@ / (SCALE as int))
    }

    /// The quotient, rounded down and saturated. Dividing by zero gives the
    /// largest number, the smallest number or zero, by the sign of the dividend.
    pub open spec fn over(self, rhs: Fixed) -> Fixed {
        if rhs@ != 0 {
            Fixed::saturated(floor_quotient(self@ * SCALE, rhs@))
        } else if self@ > 0 {
            Fixed::top()
        } else if self@ < 0 {
            Fixed::bottom()
        } else {
            Fixed { raw: 0 }
        }
    }

    /// The floor of the square root; zero for negative numbers.
    pub open spec fn sqrt_spec(self) -> Fixed {
        if self@ <= 0 {
            Fixed { raw: 0 }
        } else {
            Fixed::saturated(floor_sqrt(self@ * SCALE))
        }
    }

    /// Clamps a wide intermediate result into a `Fixed`.
    pub fn saturating(x: i128) -> (r: Fixed)
        ensures
            r == Fixed::saturated(x as int),
    {
        if x > i64::MAX as i128 {
            Fixed { raw: i64::MAX }
        } else if x < i64::MIN as i128 {
            Fixed { raw: i64::MIN }
        } else {
            Fixed { raw: x as i64 }
        }
    }

    /// The number with the given raw value.
    pub fn from_raw(raw: i64) -> (r: Fixed)
        ensures
            r@ == raw,
    {
        Fixed { raw }
    }

    /// The whole number `n`.
    #[verifier::when_used_as_spec(from_int_spec)]
    pub fn from_int(n: i32) -> (r: Fixed)
        ensures
            r == Fixed::from_int_spec(n),
            r@ == n * SCALE,
    {
        Fixed { raw: (n as i64) * SCALE }
    }

    /// The number `bits / 2^32`, which lies in `[0, 1)`.
    pub fn from_fraction(bits: u32) -> (r: Fixed)
        ensures
            r@ == bits,
            0 <= r@ < SCALE,
    {
        Fixed { raw: bits as i64 }
    }

    /// Zero.
    pub fn zero() -> (r: Fixed)
        ensures
            r@ == 0,
    {
        Fixed { raw: 0 }
    }

    /// One.
    pub fn one() -> (r: Fixed)
        ensures
            r@ == SCALE,
    {
        Fixed { raw: SCALE }
    }

    /// The largest representable number.
    pub fn max_value() -> (r: Fixed)
        ensures
            r == Fixed::top(),
    {
        Fixed { raw: i64::MAX }
    }

    /// The smallest representable number.
    pub fn min_value() -> (r: Fixed)
        ensures
            r == Fixed::bottom(),
    {
        Fixed { raw: i64::MIN }
    }

    /// Whether `self < other`.
    pub fn lt(self, other: Fixed) -> (r: bool)
        ensures
            r == (self@ < other@),
    {
        self.raw < other.raw
    }

    /// Whether `self <= other`.
    pub fn le(self, other: Fixed) -> (r: bool)
        ensures
            r == (self@ <= other@),
    {
        self.raw <= other.raw
    }

    /// Whether `self > other`.
    pub fn gt(self, other: Fixed) -> (r: bool)
        ensures
            r == (self@ > other@),
    {
        self.raw > other.raw
    }

    /// Whether `self >= other`.
    pub fn ge(self, other: Fixed) -> (r: bool)
        ensures
            r == (self@ >= other@),
    {
        self.raw >= other.raw
    }

    /// Whether the number is strictly positive.
    pub fn is_positive(self) -> (r: bool)
        ensures
            r == (self@ > 0),
    {
        self.raw > 0
    }

    /// Whether the number is strictly negative.
    pub fn is_negative(self) -> (r: bool)
        ensures
            r == (self@ < 0),
    {
        self.raw < 0
    }

    /// The square root, rounded down; zero for negative numbers.
    pub fn sqrt(self) -> (r: Fixed)
        ensures
            r == self.sqrt_spec(),
            self@ > 0 ==> is_floor_root(self@ * SCALE, r@),
            r@ >= 0,
    {
        if self.raw <= 0 {
            Fixed { raw: 0 }
        } else {
            let wide: u128 = (self.raw as u128) * (SCALE as u128);
            let root: u64 = integer_sqrt(wide);
            proof {
                // The root of a number below 2^95 is below 2^48.
                if root as int >= 0x1_0000_0000_0000 {
                    lemma_square_monotone(0x1_0000_0000_0000, root as int);
                }
            }
            Fixed { raw: root as i64 }
        }
    }
}

impl core::ops::Add for Fixed {
    type Output = Fixed;

    /// The sum, saturated.
    fn add(self, rhs: Fixed) -> (r: Fixed)
        ensures
            r == self.plus(rhs),
    {
        Fixed::saturating(self.raw as i128 + rhs.raw as i128)
    }
}

impl vstd::std_specs::ops::AddSpecImpl for Fixed {
    open spec fn obeys_add_spec() -> bool {
        true
    }

    open spec fn add_req(self, rhs: Fixed) -> bool {
        true
    }

    open spec fn add_spec(self, rhs: Fixed) -> Fixed {
        self.plus(rhs)
    }
}

impl core::ops::Sub for Fixed {
    type Output = Fixed;

    /// The difference, saturated.
    fn sub(self, rhs: Fixed) -> (r: Fixed)
        ensures
            r == self.minus(rhs),
    {
        Fixed::saturating(self.raw as i128 - rhs.raw as i128)
    }
}

impl vstd::std_specs::ops::SubSpecImpl for Fixed {
    open spec fn obeys_sub_spec() -> bool {
        true
    }

    open spec fn sub_req(self, rhs: Fixed) -> bool {
        true
    }

    open spec fn sub_spec(self, rhs: Fixed) -> Fixed {
        self.minus(rhs)
    }
}

impl core::ops::Neg for Fixed {
    type Output = Fixed;

    /// The negation, saturated (the smallest number negates to the largest).
    fn neg(self) -> (r: Fixed)
        ensures
            r == self.negated(),
    {
        Fixed::saturating(-(self.raw as i128))
    }
}

impl vstd::std_specs::ops::NegSpecImpl for Fixed {
    open spec fn obeys_neg_spec() -> bool {
        true
    }

    open spec fn neg_req(self) -> bool {
        true
    }

    open spec fn neg_spec(self) -> Fixed {
        self.negated()
    }
}

impl core::ops::Mul for Fixed {
    type Output = Fixed;

    /// The product, rounded down and saturated.
    fn mul(self, rhs: Fixed) -> (r: Fixed)
        ensures
            r == self.times(rhs),
    {
        proof {
            lemma_product_bounded(self@, rhs@);
        }
        let wide: i128 = (self.raw as i128) * (rhs.raw as i128);
        Fixed::saturating(floor_div(wide, SCALE as i128))
    }
}

impl vstd::std_specs::ops::MulSpecImpl for Fixed {
    open spec fn obeys_mul_spec() -> bool {
        true
    }

    open spec fn mul_req(self, rhs: Fixed) -> bool {
        true
    }

    open spec fn mul_spec(self, rhs: Fixed) -> Fixed {
        self.times(rhs)
    }
}

impl core::ops::Div for Fixed {
    type Output = Fixed;

    /// The quotient, rounded down and saturated. Dividing by zero gives the
    /// largest number, the smallest number or zero, by the sign of the dividend.
    fn div(self, rhs: Fixed) -> (r: Fixed)
        ensures
            r == self.over(rhs),
    {
        if rhs.raw == 0 {
            if self.raw > 0 {
                Fixed { raw: i64::MAX }
            } else if self.raw < 0 {
                Fixed { raw: i64::MIN }
            } else {
                Fixed { raw: 0 }
            }
        } else {
            let wide: i128 = (self.raw as i128) * 0x1_0000_0000;
            if rhs.raw > 0 {
                Fixed::saturating(floor_div(wide, rhs.raw as i128))
            } else {
                Fixed::saturating(floor_div(-wide, -(rhs.raw as i128)))
            }
        }
    }
}

impl vstd::std_specs::ops::DivSpecImpl for Fixed {
    open spec fn obeys_div_spec() -> bool {
        true
    }

    open spec fn div_req(self, rhs: Fixed) -> bool {
        true
    }

    open spec fn div_spec(self, rhs: Fixed) -> Fixed {
        self.over(rhs)
    }
}

} // verus!
