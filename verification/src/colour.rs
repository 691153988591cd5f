//! From linear colours to bytes.

use crate::interval::Interval;
use crate::scalar::trunc_div;
use crate::scalar::Scalar;
use crate::scalar::ONE_RAW;
use crate::vector::Vector;
use vstd::prelude::*;

verus! {

/// The gamma-2 encoding of a linear colour component: its square root, or
/// zero where it is not positive.
pub open spec fn spec_linear_to_gamma(linear_component: Scalar) -> Scalar {
    if linear_component@ > 0 {
        linear_component.spec_sqrt()
    } else {
        Scalar::of_raw(0)
    }
}

/// The gamma-2 encoding of a linear colour component: its square root, or
/// zero where it is not positive.
pub fn linear_to_gamma(linear_component: Scalar) -> (r: Scalar)
    ensures
        r == spec_linear_to_gamma(linear_component),
{
    if linear_component.gt(Scalar::zero()) {
        return linear_component.sqrt();
    }
    Scalar::zero()
}

/// The range of intensities that are told apart: from 0 to 0.999.
pub open spec fn spec_intensity() -> Interval {
    Interval { min: Scalar::of_raw(0), max: Scalar::spec_from_ratio(999, 1000) }
}

/// The byte that stands for a linear colour component: 256 times its gamma
/// encoding clamped to the range of intensities, rounded down.
pub open spec fn spec_channel(linear_component: Scalar) -> int {
    trunc_div(
        Scalar::spec_from_int(256).spec_mul(
            spec_intensity().spec_clamp(spec_linear_to_gamma(linear_component)),
        )@,
        ONE_RAW as int,
    )
}

/// The byte that stands for a colour component is a byte.
pub proof fn lemma_channel_is_byte(linear_component: Scalar)
    ensures
        0 <= spec_channel(linear_component) <= 255,
{
    broadcast use crate::scalar::group_scalar;

    let c = spec_intensity().spec_clamp(spec_linear_to_gamma(linear_component))@;
    assert(999 * ONE_RAW == 4290672328704);
    assert(4290672328704int / 1000 == 4290672328);
    assert(trunc_div(999 * ONE_RAW, 1000) == 4290672328);
    assert(spec_intensity().max@ == 4290672328);
    assert(spec_intensity().min@ == 0);
    assert(0 <= c <= 4290672328);
    assert((256 * ONE_RAW) * c == ONE_RAW * (256 * c)) by (nonlinear_arith);
    assert((ONE_RAW * (256 * c)) / (ONE_RAW as int) == 256 * c) by (nonlinear_arith)
        requires
            ONE_RAW == 4294967296,
    ;
}

/// A colour component that is at least `floor`, whose square root is at
/// least `root`, has a byte of at least `byte`, where 256 times `root` makes
/// up `byte` and `root` lies in the range of intensities.
pub proof fn lemma_channel_at_least(x: Scalar, floor: int, root: int, byte: int)
    requires
        0 < floor <= x@,
        0 <= root <= 4290672328,
        root * root <= floor * ONE_RAW,
        byte * ONE_RAW <= 256 * root,
    ensures
        spec_channel(x) >= byte,
{
    broadcast use crate::scalar::group_scalar;

    crate::scalar::lemma_sqrt_nonnegative(x@);
    let g = crate::scalar::sqrt_raw(x@);
    assert(floor * ONE_RAW <= x@ * ONE_RAW) by (nonlinear_arith)
        requires
            floor <= x@,
            ONE_RAW == 4294967296,
    ;
    if g < root {
        assert((g + 1) * (g + 1) <= root * root) by (nonlinear_arith)
            requires
                0 <= g + 1 <= root,
        ;
    }
    assert(g >= root);
    assert(spec_linear_to_gamma(x)@ == g);
    assert(999 * ONE_RAW == 4290672328704);
    assert(4290672328704int / 1000 == 4290672328);
    assert(trunc_div(999 * ONE_RAW, 1000) == 4290672328);
    assert(spec_intensity().max@ == 4290672328);
    assert(spec_intensity().min@ == 0);
    let c = spec_intensity().spec_clamp(spec_linear_to_gamma(x))@;
    assert(root <= c <= 4290672328);
    assert((256 * ONE_RAW) * c == ONE_RAW * (256 * c)) by (nonlinear_arith);
    assert((ONE_RAW * (256 * c)) / (ONE_RAW as int) == 256 * c) by (nonlinear_arith)
        requires
            ONE_RAW == 4294967296,
    ;
}

/// Black has the byte zero.
pub proof fn lemma_channel_of_black()
    ensures
        spec_channel(Scalar::of_raw(0)) == 0,
{
    broadcast use crate::scalar::group_scalar;

    assert(999 * ONE_RAW == 4290672328704);
    assert(4290672328704int / 1000 == 4290672328);
    assert(trunc_div(999 * ONE_RAW, 1000) == 4290672328);
    assert(spec_intensity().max@ == 4290672328);
    assert(spec_intensity().min@ == 0);
    let c = spec_intensity().spec_clamp(spec_linear_to_gamma(Scalar::of_raw(0)));
    assert(c@ == 0);
    crate::scalar::lemma_product_sign(256 * ONE_RAW, 0);
}

/// The byte that stands for a linear colour component.
pub fn channel(linear_component: Scalar) -> (r: u8)
    ensures
        r == spec_channel(linear_component),
{
    broadcast use crate::scalar::group_scalar;

    let intensity = Interval::new(Scalar::zero(), Scalar::from_ratio(999, 1000));
    let clamped = intensity.clamp(linear_to_gamma(linear_component));
    let scaled = Scalar::from_int(256).mul(clamped);
    proof {
        lemma_channel_is_byte(linear_component);
        let c = clamped@;
        assert((256 * ONE_RAW) * c == ONE_RAW * (256 * c)) by (nonlinear_arith);
        assert((ONE_RAW * (256 * c)) / (ONE_RAW as int) == 256 * c) by (nonlinear_arith)
            requires
                ONE_RAW == 4294967296,
        ;
    }
    scaled.trunc() as u8
}

/// The red, green and blue bytes of a linear colour.
pub fn get_colour(v: &Vector) -> (rgb: (u8, u8, u8))
    ensures
        rgb.0 == spec_channel(v.x),
        rgb.1 == spec_channel(v.y),
        rgb.2 == spec_channel(v.z),
{
    (channel(v.x), channel(v.y), channel(v.z))
}

} // verus!
