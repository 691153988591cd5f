//! Constants and the source of randomness.

use crate::scalar::Scalar;
use crate::scalar::ONE_RAW;
use rand::Rng;
use vstd::prelude::*;

verus! {

/// Raw value of the scalar nearest to pi.
pub const PI_RAW: i64 = 13493037705;

/// How often a rejection sampler draws before it gives up. A draw is
/// accepted with probability above one half, so giving up has probability
/// below `2^-128`.
pub const MAX_DRAWS: u32 = 128;

/// An integer drawn from `min..max` by `rand::Rng::random_range` on the
/// thread-local generator `rand::rng()`. The range must not be empty. The
/// result lies in the range; which of its members it is depends on the
/// generator's state. The generator panics if the operating system cannot
/// seed it.
#[verifier::external_body]
fn uniform_raw(min: i64, max: i64) -> (r: i64)
    requires
        min < max,
    ensures
        min <= r < max,
{
    rand::rng().random_range(min..max)
}

/// The angle in radians that measures `d` degrees: `d` times pi, divided by
/// 180.
pub open spec fn spec_deg_to_rad(d: Scalar) -> Scalar {
    d.spec_mul(Scalar::of_raw(PI_RAW as int)).spec_div(Scalar::of_raw(180 * ONE_RAW))
}

/// An angle in radians, given in degrees.
pub fn deg_to_rad(d: Scalar) -> (r: Scalar)
    ensures
        r == spec_deg_to_rad(d),
{
    broadcast use crate::scalar::group_scalar;

    d.mul(Scalar::from_raw(PI_RAW)).div(Scalar::from_int(180))
}

/// A scalar drawn from `[0, 1)`.
pub fn random_df() -> (r: Scalar)
    ensures
        0 <= r@ < ONE_RAW,
{
    Scalar::from_raw(uniform_raw(0, ONE_RAW))
}

/// A scalar drawn from `[min, max)`, which must not be empty.
pub fn random(min: Scalar, max: Scalar) -> (r: Scalar)
    requires
        min@ < max@,
    ensures
        min@ <= r@ < max@,
{
    Scalar::from_raw(uniform_raw(min.raw(), max.raw()))
}

} // verus!
