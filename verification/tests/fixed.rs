use pathtracer::numeric::fixed::{Fixed, SCALE};
use pathtracer::numeric::root::integer_sqrt;

fn fixed(x: f64) -> Fixed {
    Fixed::from_raw((x * 4294967296.0).round() as i64)
}

#[test]
fn one_is_two_to_the_thirty_two() {
    assert_eq!(SCALE, 4294967296);
    assert_eq!(Fixed::one().raw, 4294967296);
    assert_eq!(Fixed::zero().raw, 0);
    assert_eq!(Fixed::from_int(1), Fixed::one());
    assert_eq!(Fixed::from_int(-3).raw, -3 * 4294967296);
    assert_eq!(Fixed::from_int(i32::MAX).raw, 2147483647 * 4294967296);
    assert_eq!(Fixed::from_int(i32::MIN).raw, i64::MIN);
    assert_eq!(Fixed::max_value().raw, i64::MAX);
    assert_eq!(Fixed::min_value().raw, i64::MIN);
}

#[test]
fn from_fraction_reads_bits_as_a_fraction() {
    assert_eq!(Fixed::from_fraction(0), Fixed::zero());
    assert_eq!(Fixed::from_fraction(0x8000_0000), fixed(0.5));
    assert_eq!(Fixed::from_fraction(u32::MAX).raw, 4294967295);
    assert!(Fixed::from_fraction(u32::MAX).lt(Fixed::one()));
}

#[test]
fn addition_and_subtraction_are_exact_until_they_saturate() {
    assert_eq!(fixed(1.5) + fixed(2.25), fixed(3.75));
    assert_eq!(fixed(1.5) - fixed(2.25), fixed(-0.75));
    assert_eq!(Fixed::max_value() + Fixed::from_raw(1), Fixed::max_value());
    assert_eq!(Fixed::min_value() - Fixed::from_raw(1), Fixed::min_value());
    assert_eq!(Fixed::max_value() - Fixed::min_value(), Fixed::max_value());
    assert_eq!(Fixed::min_value() + Fixed::min_value(), Fixed::min_value());
    assert_eq!(Fixed::max_value() + Fixed::min_value(), Fixed::from_raw(-1));
}

#[test]
fn negation_saturates_at_the_smallest_number() {
    assert_eq!(-fixed(1.5), fixed(-1.5));
    assert_eq!(-Fixed::zero(), Fixed::zero());
    assert_eq!(-Fixed::max_value(), Fixed::from_raw(i64::MIN + 1));
    assert_eq!(-Fixed::min_value(), Fixed::max_value());
}

#[test]
fn multiplication_rounds_down() {
    assert_eq!(fixed(1.5) * fixed(2.5), fixed(3.75));
    assert_eq!(fixed(-1.5) * fixed(2.5), fixed(-3.75));
    assert_eq!(fixed(0.5) * fixed(0.5), fixed(0.25));
    // One unit of the grid times a half is half a unit: rounded down.
    assert_eq!(Fixed::from_raw(1) * fixed(0.5), Fixed::from_raw(0));
    assert_eq!(Fixed::from_raw(-1) * fixed(0.5), Fixed::from_raw(-1));
    assert_eq!(Fixed::from_raw(3) * fixed(0.5), Fixed::from_raw(1));
    assert_eq!(Fixed::from_raw(-3) * fixed(0.5), Fixed::from_raw(-2));
}

#[test]
fn multiplication_saturates() {
    assert_eq!(Fixed::max_value() * fixed(2.0), Fixed::max_value());
    assert_eq!(Fixed::min_value() * fixed(2.0), Fixed::min_value());
    assert_eq!(Fixed::min_value() * fixed(-1.0), Fixed::max_value());
    assert_eq!(Fixed::max_value() * fixed(-1.0), Fixed::from_raw(i64::MIN + 1));
    assert_eq!(Fixed::min_value() * Fixed::min_value(), Fixed::max_value());
    assert_eq!(Fixed::max_value() * Fixed::one(), Fixed::max_value());
    assert_eq!(Fixed::min_value() * Fixed::one(), Fixed::min_value());
}

#[test]
fn division_rounds_down() {
    assert_eq!(fixed(3.0) / fixed(2.0), fixed(1.5));
    assert_eq!(fixed(1.0) / fixed(2.0), Fixed::from_raw(2147483648));
    assert_eq!(fixed(7.0) / fixed(10.0), Fixed::from_raw(3006477107));
    assert_eq!(fixed(1.0) / fixed(1000.0), Fixed::from_raw(4294967));
    assert_eq!(fixed(1.0) / fixed(3.0), Fixed::from_raw(1431655765));
    assert_eq!(fixed(-1.0) / fixed(3.0), Fixed::from_raw(-1431655766));
    assert_eq!(fixed(1.0) / fixed(-3.0), Fixed::from_raw(-1431655766));
    assert_eq!(fixed(-1.0) / fixed(-3.0), Fixed::from_raw(1431655765));
    assert_eq!(fixed(4.0) / fixed(6.0), Fixed::from_raw(2863311530));
}

#[test]
fn division_saturates() {
    assert_eq!(Fixed::max_value() / fixed(0.5), Fixed::max_value());
    assert_eq!(Fixed::min_value() / fixed(0.5), Fixed::min_value());
    assert_eq!(Fixed::min_value() / fixed(-1.0), Fixed::max_value());
    assert_eq!(Fixed::one() / Fixed::from_raw(1), Fixed::max_value());
    assert_eq!(Fixed::one() / Fixed::from_raw(-1), Fixed::min_value());
}

#[test]
fn division_by_zero_saturates_by_sign() {
    assert_eq!(fixed(2.0) / Fixed::zero(), Fixed::max_value());
    assert_eq!(fixed(-2.0) / Fixed::zero(), Fixed::min_value());
    assert_eq!(Fixed::zero() / Fixed::zero(), Fixed::zero());
}

#[test]
fn square_root_rounds_down() {
    assert_eq!(fixed(4.0).sqrt(), fixed(2.0));
    assert_eq!(fixed(0.25).sqrt(), fixed(0.5));
    assert_eq!(fixed(2.0).sqrt(), Fixed::from_raw(6074000999));
    assert_eq!(Fixed::one().sqrt(), Fixed::one());
    assert_eq!(Fixed::from_raw(1).sqrt(), Fixed::from_raw(65536));
    assert_eq!(Fixed::max_value().sqrt(), Fixed::from_raw(199032864766430));
}

#[test]
fn square_root_of_zero_and_negatives_is_zero() {
    assert_eq!(Fixed::zero().sqrt(), Fixed::zero());
    assert_eq!(fixed(-4.0).sqrt(), Fixed::zero());
    assert_eq!(Fixed::min_value().sqrt(), Fixed::zero());
}

#[test]
fn comparisons_follow_the_raw_values() {
    let a = fixed(-0.5);
    let b = fixed(0.25);
    assert!(a.lt(b) && a.le(b) && !a.gt(b) && !a.ge(b));
    assert!(b.gt(a) && b.ge(a) && !b.lt(a) && !b.le(a));
    assert!(a.le(a) && a.ge(a) && !a.lt(a) && !a.gt(a));
    assert!(b.is_positive() && !b.is_negative());
    assert!(a.is_negative() && !a.is_positive());
    assert!(!Fixed::zero().is_positive() && !Fixed::zero().is_negative());
}

#[test]
fn saturating_clamps_wide_values() {
    assert_eq!(Fixed::saturating(5), Fixed::from_raw(5));
    assert_eq!(Fixed::saturating(i64::MAX as i128 + 1), Fixed::max_value());
    assert_eq!(Fixed::saturating(i64::MIN as i128 - 1), Fixed::min_value());
    assert_eq!(Fixed::saturating(i128::MAX), Fixed::max_value());
    assert_eq!(Fixed::saturating(i128::MIN), Fixed::min_value());
}

#[test]
fn integer_sqrt_is_the_floor_root() {
    assert_eq!(integer_sqrt(0), 0);
    assert_eq!(integer_sqrt(1), 1);
    assert_eq!(integer_sqrt(3), 1);
    assert_eq!(integer_sqrt(4), 2);
    assert_eq!(integer_sqrt(99), 9);
    assert_eq!(integer_sqrt(100), 10);
    assert_eq!(integer_sqrt(1 << 64), 1 << 32);
    assert_eq!(integer_sqrt((1 << 64) - 1), (1 << 32) - 1);
    assert_eq!(integer_sqrt(u128::MAX), u64::MAX);
    let n: u128 = 123456789012345678901234567890;
    let r = integer_sqrt(n) as u128;
    assert!(r * r <= n && n < (r + 1) * (r + 1));
}
