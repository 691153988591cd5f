//! Fixed-point scalars.
//!
//! A [`Scalar`] stands for the real number `raw / 2^32`, where `raw` is a
//! signed 64-bit integer. Every operation is total on its stated domain and
//! saturates at the ends of the representable range, which is symmetric
//! around zero, so that negation is always exact. Products and quotients
//! round toward zero.

use vstd::prelude::*;

verus! {

/// Number of raw units in the scalar one.
pub const ONE_RAW: i64 = 4294967296;

/// Largest raw magnitude a scalar can hold.
pub const MAX_RAW: i64 = 9223372036854775807;

/// Raw value of `10^-8`, the threshold below which a component counts as
/// vanishing.
pub const NEAR_ZERO_RAW: i64 = 42;

/// A bound on the raw components of a vector below which its mirror image
/// and inner products with unit vectors are computed without saturation:
/// `2^58`.
pub const REFLECT_BOUND_RAW: i64 = 288230376151711744;

/// Clamps an integer into the raw range of a scalar.
pub open spec fn saturate(v: int) -> int {
    if v > MAX_RAW {
        MAX_RAW as int
    } else if v < -MAX_RAW {
        -MAX_RAW
    } else {
        v
    }
}

/// Absolute value of an integer.
pub open spec fn magnitude(v: int) -> int {
    if v < 0 {
        -v
    } else {
        v
    }
}

/// Quotient of `n` by `d`, rounded toward zero. Zero when `d` is zero.
pub open spec fn trunc_div(n: int, d: int) -> int {
    if d == 0 {
        0
    } else if (n < 0) == (d < 0) {
        magnitude(n) / magnitude(d)
    } else {
        -(magnitude(n) / magnitude(d))
    }
}

/// `r` is the integer square root of `n`: the largest integer whose square
/// does not exceed `n`.
pub open spec fn is_floor_sqrt(n: int, r: int) -> bool {
    0 <= r && r * r <= n < (r + 1) * (r + 1)
}

/// The integer square root of `n`, for `n >= 0`.
pub open spec fn floor_sqrt(n: int) -> int {
    choose|r: int| is_floor_sqrt(n, r)
}

/// Raw value of the sum of two scalars.
pub open spec fn add_raw(a: int, b: int) -> int {
    saturate(a + b)
}

/// Raw value of the difference of two scalars.
pub open spec fn sub_raw(a: int, b: int) -> int {
    saturate(a - b)
}

/// Raw value of the product of two scalars.
pub open spec fn mul_raw(a: int, b: int) -> int {
    saturate(trunc_div(a * b, ONE_RAW as int))
}

/// Raw value of the quotient of two scalars. Division by zero saturates:
/// the quotient of a positive scalar by zero is the largest scalar, that of
/// a negative one the smallest, and that of zero by zero is zero.
pub open spec fn div_raw(a: int, b: int) -> int {
    if b != 0 {
        saturate(trunc_div(a * ONE_RAW, b))
    } else if a > 0 {
        MAX_RAW as int
    } else if a < 0 {
        -MAX_RAW
    } else {
        0
    }
}

/// Raw value of the square root of a non-negative scalar.
pub open spec fn sqrt_raw(a: int) -> int {
    floor_sqrt(a * ONE_RAW)
}

/// Raw value of the Euclidean norm of three scalars. It is computed from the
/// exact sum of squares, so it is zero only when all three are zero.
pub open spec fn norm_raw(x: int, y: int, z: int) -> int {
    saturate(floor_sqrt(x * x + y * y + z * z))
}

/// An integer has at most one integer square root.
pub proof fn lemma_floor_sqrt_unique(n: int, r: int)
    requires
        is_floor_sqrt(n, r),
    ensures
        floor_sqrt(n) == r,
{
    let s = floor_sqrt(n);
    assert(is_floor_sqrt(n, s));
    if s < r {
        assert((s + 1) * (s + 1) <= r * r) by (nonlinear_arith)
            requires
                0 <= s + 1 <= r,
        ;
    }
    if r < s {
        assert((r + 1) * (r + 1) <= s * s) by (nonlinear_arith)
            requires
                0 <= r + 1 <= s,
        ;
    }
}

/// Every non-negative integer has an integer square root.
pub proof fn lemma_floor_sqrt_exists(n: int)
    requires
        n >= 0,
    ensures
        is_floor_sqrt(n, floor_sqrt(n)),
    decreases n,
{
    if n == 0 {
        assert(is_floor_sqrt(0, 0));
    } else {
        lemma_floor_sqrt_exists(n - 1);
        let r = floor_sqrt(n - 1);
        if n < (r + 1) * (r + 1) {
            assert(is_floor_sqrt(n, r));
        } else {
            assert((r + 1) * (r + 1) < (r + 2) * (r + 2)) by (nonlinear_arith)
                requires
                    r >= 0,
            ;
            assert(is_floor_sqrt(n, r + 1));
        }
    }
}

/// The magnitude of a product is the product of the magnitudes, and the
/// product is negative exactly when the factors have opposite signs.
pub proof fn lemma_product_sign(a: int, b: int)
    ensures
        magnitude(a * b) == magnitude(a) * magnitude(b),
        a * b < 0 <==> (a < 0 && b > 0) || (a > 0 && b < 0),
        a * b == 0 <==> a == 0 || b == 0,
{
    assert(magnitude(a * b) == magnitude(a) * magnitude(b) && (a * b < 0 <==> (a < 0 && b > 0) || (
    a > 0 && b < 0)) && (a * b == 0 <==> a == 0 || b == 0)) by (nonlinear_arith);
}

/// The magnitude of a product of bounded factors is bounded by the product
/// of the bounds.
pub proof fn lemma_product_magnitude(a: int, b: int, bound_a: int, bound_b: int)
    requires
        magnitude(a) <= bound_a,
        magnitude(b) <= bound_b,
    ensures
        magnitude(a * b) <= bound_a * bound_b,
{
    lemma_product_sign(a, b);
    assert(magnitude(a) * magnitude(b) <= bound_a * bound_b) by (nonlinear_arith)
        requires
            0 <= magnitude(a) <= bound_a,
            0 <= magnitude(b) <= bound_b,
    ;
}

/// The product with minus one is the negation, for a raw value in range.
pub proof fn lemma_mul_minus_one(a: int)
    requires
        -MAX_RAW <= a <= MAX_RAW,
    ensures
        mul_raw(a, saturate(-1 * ONE_RAW)) == -a,
{
    assert(a * (-ONE_RAW) == -(a * ONE_RAW)) by (nonlinear_arith);
    assert(magnitude(a * (-ONE_RAW)) == magnitude(a) * ONE_RAW) by (nonlinear_arith);
    assert((magnitude(a) * ONE_RAW) / (ONE_RAW as int) == magnitude(a)) by (nonlinear_arith)
        requires
            ONE_RAW == 4294967296,
    ;
}

/// The product is odd in its second factor.
pub proof fn lemma_mul_odd(a: int, b: int)
    ensures
        mul_raw(a, -b) == -mul_raw(a, b),
{
    assert(a * (-b) == -(a * b)) by (nonlinear_arith);
}

/// Rounding toward zero keeps the order of the numerators, for a positive
/// denominator.
pub proof fn lemma_trunc_div_monotone(x: int, y: int, d: int)
    requires
        x <= y,
        d > 0,
    ensures
        trunc_div(x, d) <= trunc_div(y, d),
{
    if x >= 0 {
        vstd::arithmetic::div_mod::lemma_div_is_ordered(x, y, d);
    } else if y >= 0 {
        vstd::arithmetic::div_mod::lemma_div_is_ordered(0, -x, d);
        vstd::arithmetic::div_mod::lemma_div_is_ordered(0, y, d);
    } else {
        vstd::arithmetic::div_mod::lemma_div_is_ordered(-y, -x, d);
    }
}

/// The quotient of scalars keeps the order of the numerators, for a
/// positive denominator.
pub proof fn lemma_div_monotone(x: int, y: int, d: int)
    requires
        x <= y,
        d > 0,
    ensures
        div_raw(x, d) <= div_raw(y, d),
{
    assert(x * ONE_RAW <= y * ONE_RAW) by (nonlinear_arith)
        requires
            x <= y,
            ONE_RAW == 4294967296,
    ;
    lemma_trunc_div_monotone(x * ONE_RAW, y * ONE_RAW, d);
}

/// The square root of a non-negative scalar is not negative.
pub proof fn lemma_sqrt_nonnegative(a: int)
    requires
        a >= 0,
    ensures
        sqrt_raw(a) >= 0,
        is_floor_sqrt(a * ONE_RAW, sqrt_raw(a)),
        a <= MAX_RAW ==> sqrt_raw(a) < 0x1_0000_0000_0000,
{
    assert(a * ONE_RAW >= 0) by (nonlinear_arith)
        requires
            a >= 0,
            ONE_RAW == 4294967296,
    ;
    lemma_floor_sqrt_exists(a * ONE_RAW);
    if a <= MAX_RAW {
        let r = sqrt_raw(a);
        assert(r < 0x1_0000_0000_0000) by (nonlinear_arith)
            requires
                0 <= r,
                r * r <= a * ONE_RAW,
                a <= 0x7fff_ffff_ffff_ffff,
                ONE_RAW == 4294967296,
        ;
    }
}

/// The product of a scalar with one of magnitude at most one is no larger
/// in magnitude, does not saturate, and misses the exact product by less
/// than one raw unit.
pub proof fn lemma_mul_raw_small(a: int, b: int)
    requires
        -MAX_RAW <= a <= MAX_RAW,
        -ONE_RAW <= b <= ONE_RAW,
    ensures
        magnitude(mul_raw(a, b)) <= magnitude(a),
        mul_raw(a, b) == trunc_div(a * b, ONE_RAW as int),
        -ONE_RAW < a * b - ONE_RAW * mul_raw(a, b) < ONE_RAW,
{
    lemma_product_sign(a, b);
    assert(magnitude(a) * magnitude(b) <= magnitude(a) * ONE_RAW) by (nonlinear_arith)
        requires
            0 <= magnitude(a),
            0 <= magnitude(b) <= ONE_RAW,
    ;
    let m = magnitude(a * b);
    let q = m / 4294967296;
    assert(m == 4294967296 * q + m % 4294967296);
    assert(q <= magnitude(a));
}

/// The product of two scalars of magnitude at most eight does not
/// saturate and misses the exact product by less than one raw unit.
pub proof fn lemma_mul_raw_moderate(a: int, b: int)
    requires
        -8 * ONE_RAW <= a <= 8 * ONE_RAW,
        -8 * ONE_RAW <= b <= 8 * ONE_RAW,
    ensures
        magnitude(mul_raw(a, b)) <= 64 * ONE_RAW,
        -ONE_RAW < a * b - ONE_RAW * mul_raw(a, b) < ONE_RAW,
{
    lemma_product_sign(a, b);
    assert(magnitude(a) * magnitude(b) <= (8 * ONE_RAW) * (8 * ONE_RAW)) by (nonlinear_arith)
        requires
            0 <= magnitude(a) <= 8 * ONE_RAW,
            0 <= magnitude(b) <= 8 * ONE_RAW,
    ;
    assert((8 * ONE_RAW) * (8 * ONE_RAW) == 64 * 18446744073709551616) by (nonlinear_arith)
        requires
            ONE_RAW == 4294967296,
    ;
    let m = magnitude(a * b);
    let q = m / 4294967296;
    assert(m == 4294967296 * q + m % 4294967296);
    assert(q <= 64 * 4294967296);
}

/// The product of two bounded scalars does not saturate where the product
/// of the bounds can be held, and misses the exact product by less than one
/// raw unit, on the side of zero.
pub proof fn lemma_mul_raw_within(a: int, b: int, bound_a: int, bound_b: int, bound: int)
    requires
        magnitude(a) <= bound_a,
        magnitude(b) <= bound_b,
        bound_a * bound_b <= bound * ONE_RAW,
        0 <= bound <= MAX_RAW,
    ensures
        magnitude(mul_raw(a, b)) <= bound,
        -ONE_RAW < a * b - ONE_RAW * mul_raw(a, b) < ONE_RAW,
        a * b >= 0 ==> 0 <= a * b - ONE_RAW * mul_raw(a, b),
        a * b <= 0 ==> a * b - ONE_RAW * mul_raw(a, b) <= 0,
{
    lemma_product_sign(a, b);
    lemma_product_magnitude(a, b, bound_a, bound_b);
    let m = magnitude(a * b);
    let q = m / 4294967296;
    assert(m == 4294967296 * q + m % 4294967296);
    assert(q <= bound);
}

/// The quotient of a scalar by a positive one that is not too small does
/// not saturate, and misses the exact quotient by less than one raw unit:
/// where `k` times the divisor is at least one, the quotient is at most `k`
/// times the dividend in magnitude.
pub proof fn lemma_div_raw_within(x: int, d: int, k: int)
    requires
        d > 0,
        k >= 1,
        d * k >= ONE_RAW,
        magnitude(x) * k <= MAX_RAW,
    ensures
        magnitude(div_raw(x, d)) <= magnitude(x) * k,
        -d < x * ONE_RAW - d * div_raw(x, d) < d,
{
    lemma_product_sign(x, ONE_RAW as int);
    let m = magnitude(x * ONE_RAW);
    assert(m == magnitude(x) * 4294967296);
    let q = m / d;
    let rem = m % d;
    vstd::arithmetic::div_mod::lemma_fundamental_div_mod(m, d);
    vstd::arithmetic::div_mod::lemma_mod_bound(m, d);
    assert(m == d * q + rem);
    assert(0 <= q <= magnitude(x) * k) by (nonlinear_arith)
        requires
            m == d * q + rem,
            0 <= rem < d,
            m == magnitude(x) * 4294967296,
            d * k >= 4294967296,
            0 <= magnitude(x),
            d > 0,
            k >= 1,
    ;
    let t = div_raw(x, d);
    assert(t == if x < 0 { -q } else { q });
    assert(d * (-q) == -(d * q)) by (nonlinear_arith);
}

/// The square root of a scalar that is at most the square of `bound` is at
/// most `bound`.
pub proof fn lemma_sqrt_raw_within(a: int, bound: int)
    requires
        0 <= a,
        0 <= bound,
        a * ONE_RAW <= bound * bound,
    ensures
        0 <= sqrt_raw(a) <= bound,
        is_floor_sqrt(a * ONE_RAW, sqrt_raw(a)),
{
    lemma_sqrt_nonnegative(a);
    let r = sqrt_raw(a);
    if r > bound {
        assert(r * r >= (bound + 1) * (bound + 1)) by (nonlinear_arith)
            requires
                r >= bound + 1,
                bound >= 0,
        ;
        assert((bound + 1) * (bound + 1) > bound * bound) by (nonlinear_arith)
            requires
                bound >= 0,
        ;
    }
}

/// The product with one is the scalar itself.
pub proof fn lemma_mul_raw_one(a: int)
    requires
        -MAX_RAW <= a <= MAX_RAW,
    ensures
        mul_raw(a, ONE_RAW as int) == a,
{
    lemma_product_sign(a, ONE_RAW as int);
    assert((magnitude(a) * ONE_RAW) / (ONE_RAW as int) == magnitude(a)) by (nonlinear_arith)
        requires
            ONE_RAW == 4294967296,
    ;
}

/// The product of scalars does not depend on the order of the factors.
pub proof fn lemma_mul_raw_commutes(a: int, b: int)
    ensures
        mul_raw(a, b) == mul_raw(b, a),
{
    assert(a * b == b * a) by (nonlinear_arith);
}

/// The product with two is the double, where that can be held.
pub proof fn lemma_mul_raw_two(a: int)
    requires
        -MAX_RAW <= 2 * a <= MAX_RAW,
    ensures
        mul_raw(a, saturate(2 * ONE_RAW)) == 2 * a,
{
    assert(a * (2 * ONE_RAW) == (2 * a) * ONE_RAW) by (nonlinear_arith);
    assert(magnitude((2 * a) * ONE_RAW) == magnitude(2 * a) * ONE_RAW) by (nonlinear_arith)
        requires
            ONE_RAW > 0,
    ;
    assert((magnitude(2 * a) * ONE_RAW) / (ONE_RAW as int) == magnitude(2 * a))
        by (nonlinear_arith)
        requires
            ONE_RAW == 4294967296,
    ;
    assert((2 * a) * ONE_RAW < 0 <==> a < 0) by (nonlinear_arith)
        requires
            ONE_RAW == 4294967296,
    ;
}

/// The largest integer whose square does not exceed `n`.
pub fn isqrt(n: u128) -> (r: u64)
    ensures
        r == floor_sqrt(n as int),
        is_floor_sqrt(n as int, r as int),
{
    let mut lo: u128 = 0;
    let mut hi: u128 = 0x1_0000_0000_0000_0000;
    assert(n < hi * hi) by (nonlinear_arith)
        requires
            hi == 0x1_0000_0000_0000_0000,
            n <= u128::MAX,
    ;
    while hi - lo > 1
        invariant
            lo < hi <= 0x1_0000_0000_0000_0000,
            lo * lo <= n < hi * hi,
        decreases hi - lo,
    {
        let mid: u128 = lo + (hi - lo) / 2;
        assert(mid * mid <= 0xffff_ffff_ffff_ffff * 0xffff_ffff_ffff_ffff) by (nonlinear_arith)
            requires
                0 <= mid <= 0xffff_ffff_ffff_ffff,
        ;
        if mid * mid <= n {
            lo = mid;
        } else {
            hi = mid;
        }
    }
    proof {
        lemma_floor_sqrt_unique(n as int, lo as int);
    }
    lo as u64
}

fn magnitude_of(v: i128) -> (m: u128)
    requires
        v > i128::MIN,
    ensures
        m == magnitude(v as int),
{
    if v < 0 {
        (-v) as u128
    } else {
        v as u128
    }
}

/// Gives a magnitude its sign back and clamps it into the raw range.
fn signed_saturate(negative: bool, m: u128) -> (r: i64)
    ensures
        r == saturate(
            if negative {
                -(m as int)
            } else {
                m as int
            },
        ),
        -MAX_RAW <= r <= MAX_RAW,
{
    let capped: i64 = if m > MAX_RAW as u128 {
        MAX_RAW
    } else {
        m as i64
    };
    if negative {
        -capped
    } else {
        capped
    }
}

/// A real number in signed 31.32 fixed-point representation.
#[derive(Clone, Copy, Debug, PartialEq, Eq, Structural)]
pub struct Scalar {
    raw: i64,
}

impl View for Scalar {
    type V = int;

    /// The raw value: the number stood for, times `2^32`.
    closed spec fn view(&self) -> int {
        self.raw as int
    }
}

impl Scalar {
    /// The raw value is never the one 64-bit integer without a negation.
    /// Every scalar that executable code holds satisfies this.
    #[verifier::type_invariant]
    pub closed spec fn wf(self) -> bool {
        -MAX_RAW <= self.raw
    }

    /// The scalar with raw value `v`, for `v` in the raw range.
    pub closed spec fn of_raw(v: int) -> Scalar {
        Scalar { raw: v as i64 }
    }

    /// `of_raw` and the view are inverse to each other on the raw range.
    pub broadcast proof fn lemma_of_raw(v: int)
        requires
            -MAX_RAW <= v <= MAX_RAW,
        ensures
            (#[trigger] Scalar::of_raw(v))@ == v,
            Scalar::of_raw(v).wf(),
    {
    }

    /// A well-formed scalar's raw value lies in the raw range.
    pub broadcast proof fn lemma_wf_range(a: Scalar)
        requires
            #[trigger] a.wf(),
        ensures
            -MAX_RAW <= a@ <= MAX_RAW,
            a == Scalar::of_raw(a@),
    {
    }

    /// Any scalar's raw value fits in 64 bits.
    pub broadcast proof fn lemma_view_bounds(a: Scalar)
        ensures
            -MAX_RAW - 1 <= #[trigger] a@ <= MAX_RAW,
    {
    }

    /// A scalar whose raw value has a negation is well-formed.
    pub proof fn lemma_range_wf(a: Scalar)
        requires
            -MAX_RAW <= a@,
        ensures
            a.wf(),
    {
    }

    /// Two scalars with the same raw value are the same scalar.
    pub proof fn lemma_view_injective(a: Scalar, b: Scalar)
        requires
            a@ == b@,
        ensures
            a == b,
    {
    }

    /// The scalar whose raw value is `raw`, clamped into the raw range.
    pub fn from_raw(raw: i64) -> (r: Scalar)
        ensures
            r == Scalar::of_raw(saturate(raw as int)),
            r@ == saturate(raw as int),
            r.wf(),
    {
        if raw < -MAX_RAW {
            Scalar { raw: -MAX_RAW }
        } else {
            Scalar { raw }
        }
    }

    /// The raw value.
    pub fn raw(&self) -> (r: i64)
        ensures
            r == self@,
            -MAX_RAW <= r <= MAX_RAW,
            self.wf(),
    {
        proof {
            use_type_invariant(self);
        }
        self.raw
    }

    /// Whether the scalar is zero.
    pub fn is_zero(&self) -> (r: bool)
        ensures
            r == (self@ == 0),
    {
        self.raw == 0
    }

    /// The scalar zero.
    pub fn zero() -> (r: Scalar)
        ensures
            r == Scalar::of_raw(0),
            r@ == 0,
            r.wf(),
    {
        Scalar { raw: 0 }
    }

    /// The scalar one.
    pub fn one() -> (r: Scalar)
        ensures
            r == Scalar::of_raw(ONE_RAW as int),
            r@ == ONE_RAW,
            r.wf(),
    {
        Scalar { raw: ONE_RAW }
    }

    /// The largest scalar, which stands in for infinity.
    pub fn max_value() -> (r: Scalar)
        ensures
            r == Scalar::of_raw(MAX_RAW as int),
            r@ == MAX_RAW,
            r.wf(),
    {
        Scalar { raw: MAX_RAW }
    }

    /// The scalar that stands for the integer `n`, saturating.
    pub fn from_int(n: i64) -> (r: Scalar)
        ensures
            r == Scalar::spec_from_int(n as int),
            r@ == saturate(n * ONE_RAW),
            r.wf(),
    {
        let negative = n < 0;
        let m = magnitude_of(n as i128);
        assert(m * 4294967296 <= 0x8000_0000_0000_0000 * 4294967296) by (nonlinear_arith)
            requires
                m <= 0x8000_0000_0000_0000,
        ;
        Scalar { raw: signed_saturate(negative, m * 4294967296) }
    }

    /// The scalar nearest to `num / den` on the side of zero, saturating.
    pub fn from_ratio(num: i64, den: i64) -> (r: Scalar)
        requires
            den != 0,
        ensures
            r == Scalar::spec_from_ratio(num as int, den as int),
            r@ == saturate(trunc_div(num * ONE_RAW, den as int)),
            r.wf(),
    {
        let negative = (num < 0) != (den < 0);
        let n = magnitude_of(num as i128);
        let d = magnitude_of(den as i128);
        assert(n * 4294967296 <= 0x8000_0000_0000_0000 * 4294967296) by (nonlinear_arith)
            requires
                n <= 0x8000_0000_0000_0000,
        ;
        proof {
            lemma_product_sign(num as int, ONE_RAW as int);
        }
        Scalar { raw: signed_saturate(negative, n * 4294967296 / d) }
    }

    /// The integer part, rounded toward zero.
    pub fn trunc(self) -> (r: i64)
        ensures
            r == trunc_div(self@, ONE_RAW as int),
    {
        proof {
            use_type_invariant(&self);
        }
        let m = magnitude_of(self.raw as i128) / 4294967296;
        if self.raw < 0 {
            -(m as i64)
        } else {
            m as i64
        }
    }

    /// Absolute value.
    pub fn abs(self) -> (r: Scalar)
        ensures
            r == self.spec_abs(),
            r@ == magnitude(self@),
            r.wf(),
    {
        proof {
            use_type_invariant(&self);
        }
        if self.raw < 0 {
            Scalar { raw: -self.raw }
        } else {
            self
        }
    }

    /// The smaller of two scalars.
    pub fn min(self, other: Scalar) -> (r: Scalar)
        ensures
            r == self.spec_min(other),
    {
        if self.raw <= other.raw {
            self
        } else {
            other
        }
    }

    /// The larger of two scalars.
    pub fn max(self, other: Scalar) -> (r: Scalar)
        ensures
            r == self.spec_max(other),
    {
        if self.raw >= other.raw {
            self
        } else {
            other
        }
    }

    /// The scalar that stands for the integer `n`, saturating.
    pub open spec fn spec_from_int(n: int) -> Scalar {
        Scalar::of_raw(saturate(n * ONE_RAW))
    }

    /// The scalar nearest to `num / den` on the side of zero, saturating.
    pub open spec fn spec_from_ratio(num: int, den: int) -> Scalar {
        Scalar::of_raw(saturate(trunc_div(num * ONE_RAW, den)))
    }

    /// The absolute value.
    pub open spec fn spec_abs(self) -> Scalar {
        Scalar::of_raw(magnitude(self@))
    }

    /// The smaller of two scalars.
    pub open spec fn spec_min(self, other: Scalar) -> Scalar {
        if self@ <= other@ {
            self
        } else {
            other
        }
    }

    /// The larger of two scalars.
    pub open spec fn spec_max(self, other: Scalar) -> Scalar {
        if self@ >= other@ {
            self
        } else {
            other
        }
    }

    /// The negated scalar.
    pub open spec fn spec_neg(self) -> Scalar {
        Scalar::of_raw(-self@)
    }

    /// The saturating sum.
    pub open spec fn spec_add(self, rhs: Scalar) -> Scalar {
        Scalar::of_raw(add_raw(self@, rhs@))
    }

    /// The saturating difference.
    pub open spec fn spec_sub(self, rhs: Scalar) -> Scalar {
        Scalar::of_raw(sub_raw(self@, rhs@))
    }

    /// The product, rounded toward zero and saturating.
    pub open spec fn spec_mul(self, rhs: Scalar) -> Scalar {
        Scalar::of_raw(mul_raw(self@, rhs@))
    }

    /// The quotient, rounded toward zero and saturating, also where the
    /// divisor is zero.
    pub open spec fn spec_div(self, rhs: Scalar) -> Scalar {
        Scalar::of_raw(div_raw(self@, rhs@))
    }

    /// The product of `n` factors `self`, multiplied up from the left.
    pub open spec fn spec_powi(self, n: nat) -> Scalar
        decreases n,
    {
        if n == 0 {
            Scalar::of_raw(ONE_RAW as int)
        } else {
            self.spec_powi((n - 1) as nat).spec_mul(self)
        }
    }

    /// The scalar raised to the power `n`.
    pub fn powi(self, n: u32) -> (r: Scalar)
        ensures
            r == self.spec_powi(n as nat),
    {
        let mut r = Scalar::one();
        let mut i: u32 = 0;
        while i < n
            invariant
                i <= n,
                r == self.spec_powi(i as nat),
            decreases n - i,
        {
            r = r.mul(self);
            i = i + 1;
        }
        r
    }

    /// The square root of a non-negative scalar, rounded down.
    pub open spec fn spec_sqrt(self) -> Scalar {
        Scalar::of_raw(sqrt_raw(self@))
    }

    /// Square root of a non-negative scalar, rounded down.
    pub fn sqrt(self) -> (r: Scalar)
        requires
            self@ >= 0,
        ensures
            r == self.spec_sqrt(),
            r@ == sqrt_raw(self@),
            is_floor_sqrt(self@ * ONE_RAW, r@),
            r.wf(),
    {
        assert(self.raw * 4294967296 <= 0x7fff_ffff_ffff_ffff * 4294967296) by (nonlinear_arith)
            requires
                0 <= self.raw <= 0x7fff_ffff_ffff_ffff,
        ;
        let n: u128 = self.raw as u128 * 4294967296;
        let root = isqrt(n);
        assert(root < 0x1_0000_0000_0000) by (nonlinear_arith)
            requires
                root * root <= n,
                n <= 0x7fff_ffff_ffff_ffff * 4294967296,
                0 <= root,
        ;
        Scalar { raw: root as i64 }
    }

    /// The Euclidean norm of three scalars, rounded down and saturating.
    pub open spec fn spec_norm(x: Scalar, y: Scalar, z: Scalar) -> Scalar {
        Scalar::of_raw(norm_raw(x@, y@, z@))
    }

    /// Euclidean norm of three scalars, rounded down and saturating.
    pub fn norm(x: Scalar, y: Scalar, z: Scalar) -> (r: Scalar)
        ensures
            r == Scalar::spec_norm(x, y, z),
            r@ == norm_raw(x@, y@, z@),
            r.wf(),
    {
        proof {
            use_type_invariant(&x);
            use_type_invariant(&y);
            use_type_invariant(&z);
        }
        let mx = magnitude_of(x.raw as i128);
        let my = magnitude_of(y.raw as i128);
        let mz = magnitude_of(z.raw as i128);
        assert(mx * mx <= 0x7fff_ffff_ffff_ffff * 0x7fff_ffff_ffff_ffff && mx * mx == x.raw
            * x.raw) by (nonlinear_arith)
            requires
                0 <= mx <= 0x7fff_ffff_ffff_ffff,
                mx == magnitude(x.raw as int),
        ;
        assert(my * my <= 0x7fff_ffff_ffff_ffff * 0x7fff_ffff_ffff_ffff && my * my == y.raw
            * y.raw) by (nonlinear_arith)
            requires
                0 <= my <= 0x7fff_ffff_ffff_ffff,
                my == magnitude(y.raw as int),
        ;
        assert(mz * mz <= 0x7fff_ffff_ffff_ffff * 0x7fff_ffff_ffff_ffff && mz * mz == z.raw
            * z.raw) by (nonlinear_arith)
            requires
                0 <= mz <= 0x7fff_ffff_ffff_ffff,
                mz == magnitude(z.raw as int),
        ;
        let root = isqrt(mx * mx + my * my + mz * mz);
        Scalar { raw: signed_saturate(false, root as u128) }
    }

    /// Negation, which is exact.
    pub fn neg(self) -> (r: Scalar)
        ensures
            r == self.spec_neg(),
    {
        proof {
            use_type_invariant(&self);
        }
        Scalar { raw: -self.raw }
    }

    /// Sum, saturating.
    pub fn add(self, rhs: Scalar) -> (r: Scalar)
        ensures
            r == self.spec_add(rhs),
    {
        proof {
            use_type_invariant(&self);
            use_type_invariant(&rhs);
        }
        let wide: i128 = self.raw as i128 + rhs.raw as i128;
        Scalar { raw: signed_saturate(wide < 0, magnitude_of(wide)) }
    }

    /// Difference, saturating.
    pub fn sub(self, rhs: Scalar) -> (r: Scalar)
        ensures
            r == self.spec_sub(rhs),
    {
        proof {
            use_type_invariant(&self);
            use_type_invariant(&rhs);
        }
        let wide: i128 = self.raw as i128 - rhs.raw as i128;
        Scalar { raw: signed_saturate(wide < 0, magnitude_of(wide)) }
    }

    /// Product, rounded toward zero and saturating.
    pub fn mul(self, rhs: Scalar) -> (r: Scalar)
        ensures
            r == self.spec_mul(rhs),
    {
        proof {
            use_type_invariant(&self);
            use_type_invariant(&rhs);
            lemma_product_sign(self.raw as int, rhs.raw as int);
        }
        let negative = (self.raw < 0) != (rhs.raw < 0);
        let ma = magnitude_of(self.raw as i128);
        let mb = magnitude_of(rhs.raw as i128);
        assert(ma * mb <= 0x7fff_ffff_ffff_ffff * 0x7fff_ffff_ffff_ffff) by (nonlinear_arith)
            requires
                0 <= ma <= 0x7fff_ffff_ffff_ffff,
                0 <= mb <= 0x7fff_ffff_ffff_ffff,
        ;
        Scalar { raw: signed_saturate(negative, ma * mb / 4294967296) }
    }

    /// Quotient, rounded toward zero and saturating, also where the divisor
    /// is zero.
    pub fn div(self, rhs: Scalar) -> (r: Scalar)
        ensures
            r == self.spec_div(rhs),
    {
        proof {
            use_type_invariant(&self);
            use_type_invariant(&rhs);
            lemma_product_sign(self.raw as int, ONE_RAW as int);
        }
        if rhs.raw == 0 {
            return Scalar {
                raw: if self.raw > 0 {
                    MAX_RAW
                } else if self.raw < 0 {
                    -MAX_RAW
                } else {
                    0
                },
            };
        }
        let negative = (self.raw < 0) != (rhs.raw < 0);
        let ma = magnitude_of(self.raw as i128);
        let mb = magnitude_of(rhs.raw as i128);
        assert(ma * 4294967296 <= 0x7fff_ffff_ffff_ffff * 4294967296) by (nonlinear_arith)
            requires
                0 <= ma <= 0x7fff_ffff_ffff_ffff,
        ;
        Scalar { raw: signed_saturate(negative, ma * 4294967296 / mb) }
    }

    /// Whether the scalar is less than `other`.
    pub fn lt(self, other: Scalar) -> (r: bool)
        ensures
            r == (self@ < other@),
    {
        self.raw < other.raw
    }

    /// Whether the scalar is at most `other`.
    pub fn le(self, other: Scalar) -> (r: bool)
        ensures
            r == (self@ <= other@),
    {
        self.raw <= other.raw
    }

    /// Whether the scalar is greater than `other`.
    pub fn gt(self, other: Scalar) -> (r: bool)
        ensures
            r == (self@ > other@),
    {
        self.raw > other.raw
    }

    /// Whether the scalar is at least `other`.
    pub fn ge(self, other: Scalar) -> (r: bool)
        ensures
            r == (self@ >= other@),
    {
        self.raw >= other.raw
    }
}

/// What relates scalars to their raw values.
pub broadcast group group_scalar {
    Scalar::lemma_of_raw,
    Scalar::lemma_wf_range,
    Scalar::lemma_view_bounds,
}

} // verus!
