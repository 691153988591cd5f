use raytracer::scalar::isqrt;
use raytracer::scalar::Scalar;

const ONE: i64 = 4294967296;
const MAX: i64 = i64::MAX;

fn s(x: f64) -> Scalar {
    Scalar::from_raw((x * ONE as f64).round() as i64)
}

#[test]
fn one_plus_one_is_two() {
    let two = Scalar::one().add(Scalar::one());
    assert_eq!(two.raw(), 2 * ONE);
}

#[test]
fn constants_have_their_raw_values() {
    assert_eq!(Scalar::zero().raw(), 0);
    assert_eq!(Scalar::one().raw(), ONE);
    assert_eq!(Scalar::max_value().raw(), MAX);
    assert!(Scalar::zero().is_zero());
    assert!(!Scalar::one().is_zero());
}

#[test]
fn from_raw_clamps_the_one_value_without_negation() {
    assert_eq!(Scalar::from_raw(i64::MIN).raw(), -MAX);
    assert_eq!(Scalar::from_raw(-MAX).raw(), -MAX);
    assert_eq!(Scalar::from_raw(-5).raw(), -5);
}

#[test]
fn from_int_scales_and_saturates() {
    assert_eq!(Scalar::from_int(3).raw(), 3 * ONE);
    assert_eq!(Scalar::from_int(-3).raw(), -3 * ONE);
    assert_eq!(Scalar::from_int(2147483647).raw(), 2147483647 * ONE);
    assert_eq!(Scalar::from_int(2147483648).raw(), MAX);
    assert_eq!(Scalar::from_int(i64::MIN).raw(), -MAX);
}

#[test]
fn from_ratio_rounds_toward_zero() {
    assert_eq!(Scalar::from_ratio(1, 2).raw(), ONE / 2);
    assert_eq!(Scalar::from_ratio(1, 3).raw(), 1431655765);
    assert_eq!(Scalar::from_ratio(-1, 3).raw(), -1431655765);
    assert_eq!(Scalar::from_ratio(1, -3).raw(), -1431655765);
    assert_eq!(Scalar::from_ratio(999, 1000).raw(), 4290672328);
    assert_eq!(Scalar::from_ratio(1, 1000).raw(), 4294967);
    assert_eq!(Scalar::from_ratio(16, 9).raw(), 7635497415);
}

#[test]
fn trunc_drops_the_fraction_toward_zero() {
    assert_eq!(s(2.75).trunc(), 2);
    assert_eq!(s(-2.75).trunc(), -2);
    assert_eq!(s(0.999).trunc(), 0);
    assert_eq!(Scalar::from_int(225).trunc(), 225);
}

#[test]
fn addition_and_subtraction_saturate() {
    assert_eq!(s(1.5).add(s(2.25)).raw(), s(3.75).raw());
    assert_eq!(s(1.5).sub(s(2.25)).raw(), s(-0.75).raw());
    assert_eq!(Scalar::max_value().add(Scalar::one()).raw(), MAX);
    assert_eq!(Scalar::max_value().neg().sub(Scalar::one()).raw(), -MAX);
    assert_eq!(Scalar::max_value().sub(Scalar::max_value()).raw(), 0);
}

#[test]
fn negation_is_exact() {
    assert_eq!(s(1.25).neg().raw(), s(-1.25).raw());
    assert_eq!(Scalar::max_value().neg().raw(), -MAX);
    assert_eq!(Scalar::max_value().neg().neg().raw(), MAX);
    assert_eq!(Scalar::zero().neg().raw(), 0);
}

#[test]
fn multiplication_rounds_toward_zero_and_saturates() {
    assert_eq!(s(1.5).mul(s(2.5)).raw(), s(3.75).raw());
    assert_eq!(s(-1.5).mul(s(2.5)).raw(), s(-3.75).raw());
    assert_eq!(s(-1.5).mul(s(-2.5)).raw(), s(3.75).raw());
    // One raw unit times one half is half a raw unit, which rounds to zero
    // from either side.
    assert_eq!(Scalar::from_raw(1).mul(s(0.5)).raw(), 0);
    assert_eq!(Scalar::from_raw(-1).mul(s(0.5)).raw(), 0);
    assert_eq!(Scalar::from_raw(3).mul(s(0.5)).raw(), 1);
    assert_eq!(Scalar::from_raw(-3).mul(s(0.5)).raw(), -1);
    assert_eq!(Scalar::from_int(100000).mul(Scalar::from_int(100000)).raw(), MAX);
    assert_eq!(Scalar::from_int(-100000).mul(Scalar::from_int(100000)).raw(), -MAX);
    assert_eq!(Scalar::zero().mul(Scalar::max_value()).raw(), 0);
}

#[test]
fn division_rounds_toward_zero_and_saturates() {
    assert_eq!(s(3.75).div(s(2.5)).raw(), s(1.5).raw());
    assert_eq!(Scalar::one().div(Scalar::from_int(3)).raw(), 1431655765);
    assert_eq!(Scalar::one().neg().div(Scalar::from_int(3)).raw(), -1431655765);
    assert_eq!(Scalar::one().div(Scalar::from_int(-3)).raw(), -1431655765);
    assert_eq!(Scalar::one().div(Scalar::from_raw(1)).raw(), MAX);
    assert_eq!(Scalar::one().div(Scalar::one()).raw(), ONE);
}

#[test]
fn division_by_zero_saturates() {
    assert_eq!(Scalar::one().div(Scalar::zero()).raw(), MAX);
    assert_eq!(Scalar::one().neg().div(Scalar::zero()).raw(), -MAX);
    assert_eq!(Scalar::zero().div(Scalar::zero()).raw(), 0);
}

#[test]
fn comparisons_follow_the_numbers() {
    assert!(s(1.0).lt(s(1.5)));
    assert!(!s(1.5).lt(s(1.5)));
    assert!(s(1.5).le(s(1.5)));
    assert!(s(-1.0).gt(s(-1.5)));
    assert!(!s(-1.5).gt(s(-1.5)));
    assert!(s(-1.5).ge(s(-1.5)));
    assert_eq!(s(2.0), Scalar::from_int(2));
    assert_ne!(s(2.0), Scalar::from_int(3));
}

#[test]
fn min_max_and_abs() {
    assert_eq!(s(1.0).min(s(2.0)), s(1.0));
    assert_eq!(s(1.0).max(s(2.0)), s(2.0));
    assert_eq!(s(-1.0).min(s(-2.0)), s(-2.0));
    assert_eq!(s(-3.5).abs(), s(3.5));
    assert_eq!(s(3.5).abs(), s(3.5));
    assert_eq!(Scalar::max_value().neg().abs().raw(), MAX);
}

#[test]
fn integer_square_root_rounds_down() {
    assert_eq!(isqrt(0), 0);
    assert_eq!(isqrt(1), 1);
    assert_eq!(isqrt(3), 1);
    assert_eq!(isqrt(4), 2);
    assert_eq!(isqrt(99), 9);
    assert_eq!(isqrt(100), 10);
    assert_eq!(isqrt(u128::MAX), u64::MAX);
    assert_eq!(isqrt((u64::MAX as u128) * (u64::MAX as u128)), u64::MAX);
    assert_eq!(isqrt((u64::MAX as u128) * (u64::MAX as u128) - 1), u64::MAX - 1);
}

#[test]
fn square_root_of_squares_is_exact() {
    assert_eq!(Scalar::from_int(4).sqrt(), Scalar::from_int(2));
    assert_eq!(s(0.25).sqrt(), s(0.5));
    assert_eq!(s(2.25).sqrt(), s(1.5));
    assert_eq!(Scalar::zero().sqrt(), Scalar::zero());
    assert_eq!(Scalar::one().sqrt(), Scalar::one());
}

#[test]
fn square_root_rounds_down() {
    // The square root of two, times 2^32, is 6074000999.95...
    assert_eq!(Scalar::from_int(2).sqrt().raw(), 6074000999);
    // The smallest positive scalar has the square root 2^-16.
    assert_eq!(Scalar::from_raw(1).sqrt().raw(), 65536);
    assert_eq!(Scalar::max_value().sqrt().raw(), 199032864766430);
}

#[test]
fn norm_comes_from_the_exact_sum_of_squares() {
    assert_eq!(
        Scalar::norm(Scalar::from_int(3), Scalar::from_int(4), Scalar::zero()),
        Scalar::from_int(5)
    );
    assert_eq!(
        Scalar::norm(Scalar::from_int(-2), Scalar::from_int(3), Scalar::from_int(6)),
        Scalar::from_int(7)
    );
    // Components whose squares vanish as scalars still have a length.
    assert_eq!(
        Scalar::norm(Scalar::from_raw(3), Scalar::from_raw(4), Scalar::zero()),
        Scalar::from_raw(5)
    );
    assert_eq!(Scalar::norm(Scalar::zero(), Scalar::zero(), Scalar::zero()), Scalar::zero());
    assert_eq!(
        Scalar::norm(Scalar::max_value(), Scalar::max_value(), Scalar::max_value()).raw(),
        MAX
    );
}

#[test]
fn powers_multiply_up() {
    assert_eq!(Scalar::from_int(2).powi(5), Scalar::from_int(32));
    assert_eq!(s(0.5).powi(5), s(0.03125));
    assert_eq!(Scalar::from_int(7).powi(0), Scalar::one());
    assert_eq!(Scalar::from_int(-2).powi(3), Scalar::from_int(-8));
    assert_eq!(Scalar::zero().powi(5), Scalar::zero());
}
