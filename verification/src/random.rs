//! The library's source of randomness.

use crate::numeric::fixed::{Fixed, SCALE};
use vstd::prelude::*;

verus! {

/// How often a random point is drawn before rejection sampling gives up and
/// returns the centre of the ball or disk. A draw lands in the ball with
/// probability above one half, so giving up is practically impossible.
pub const SAMPLING_ATTEMPTS: u32 = 64;

/// The number lies in `[0, 1)`.
pub open spec fn is_fraction(f: Fixed) -> bool {
    0 <= f@ < SCALE
}

/// Calls `rand::random::<u32>()`, which takes the next 32 bits of the
/// thread-local generator of the `rand` crate. Nothing is claimed about the
/// value drawn: every `u32` is possible. The call has no arguments and fails
/// only if the operating system cannot seed the generator.
#[verifier::external_body]
fn random_bits() -> (bits: u32) {
    rand::random::<u32>()
}

/// A random number in `[0, 1)`: 32 random bits read as a fraction.
pub fn random_fraction() -> (r: Fixed)
    ensures
        is_fraction(r),
{
    Fixed::from_fraction(random_bits())
}

} // verus!
