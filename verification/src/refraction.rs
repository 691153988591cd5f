//! Refraction between media of the same refractive index.

use crate::scalar::is_floor_sqrt;
use crate::scalar::lemma_mul_odd;
use crate::scalar::lemma_mul_raw_commutes;
use crate::scalar::lemma_mul_raw_moderate;
use crate::scalar::lemma_mul_raw_one;
use crate::scalar::lemma_mul_raw_small;
use crate::scalar::lemma_product_magnitude;
use crate::scalar::lemma_product_sign;
use crate::scalar::lemma_sqrt_nonnegative;
use crate::scalar::magnitude;
use crate::scalar::mul_raw;
use crate::scalar::sqrt_raw;
use crate::scalar::Scalar;
use crate::scalar::ONE_RAW;
use crate::vector::Vector;
use vstd::prelude::*;

verus! {

/// How far the squared length of a vector may be from one for the vector to
/// count as a unit vector here: 16 raw units of the squared length.
pub const UNIT_DEFECT_RAW: i64 = 68719476736;

/// How far a component of a refracted direction may lie from that of the
/// incoming one where the refractive indices agree: `2^19 + 3` raw units,
/// about `0.00012`.
pub const REFRACT_TOLERANCE_RAW: i64 = 524291;

/// Whether `v` is a unit vector up to rounding: no component exceeds one,
/// and the squared length is within `UNIT_DEFECT_RAW` of one.
pub open spec fn is_nearly_unit(v: Vector) -> bool {
    &&& v.spec_within(ONE_RAW as int)
    &&& magnitude(v.spec_unit_defect()) <= UNIT_DEFECT_RAW
}

/// The cosine that [`Vector::refract`] works with: the inner product of the
/// opposite of `v` and `n`, at most one.
pub open spec fn spec_cosine(v: Vector, n: Vector) -> Scalar {
    v.spec_opposite().spec_dot(n).spec_min(Scalar::spec_from_int(1))
}

/// The part of the refracted direction across the normal, for a ratio of
/// the refractive indices of one.
pub open spec fn spec_across(v: Vector, n: Vector) -> Vector {
    v.spec_add(n.spec_scale(spec_cosine(v, n))).spec_scale(Scalar::spec_from_int(1))
}

/// The length of the part of the refracted direction along the normal, for
/// a ratio of the refractive indices of one.
pub open spec fn spec_along(v: Vector, n: Vector) -> Scalar {
    Scalar::spec_from_int(1).spec_sub(spec_across(v, n).spec_length_squared()).spec_abs().spec_sqrt()
}

/// Where the normal faces the ray, the cosine is the opposite of the inner
/// product of `v` and `n`.
proof fn lemma_cosine(v: Vector, n: Vector)
    requires
        v.spec_within(ONE_RAW as int),
        n.spec_within(ONE_RAW as int),
        -ONE_RAW <= v.spec_dot(n)@ <= 0,
    ensures
        spec_cosine(v, n)@ == -v.spec_dot(n)@,
        0 <= spec_cosine(v, n)@ <= ONE_RAW,
{
    Scalar::lemma_range_wf(v.x);
    Scalar::lemma_range_wf(v.y);
    Scalar::lemma_range_wf(v.z);
    Vector::lemma_dot_opposite(n, v);
    v.lemma_dot_exact(n, ONE_RAW as int);
    let o = v.spec_opposite();
    o.lemma_dot_exact(n, ONE_RAW as int);
    lemma_mul_raw_commutes(v.x@, n.x@);
    lemma_mul_raw_commutes(v.y@, n.y@);
    lemma_mul_raw_commutes(v.z@, n.z@);
    lemma_mul_raw_commutes(-v.x@, n.x@);
    lemma_mul_raw_commutes(-v.y@, n.y@);
    lemma_mul_raw_commutes(-v.z@, n.z@);
    lemma_mul_odd(n.x@, v.x@);
    lemma_mul_odd(n.y@, v.y@);
    lemma_mul_odd(n.z@, v.z@);
    Scalar::lemma_of_raw(ONE_RAW as int);
}

/// The components of the part across the normal: those of `v`, plus the
/// rounded products of those of `n` with the cosine.
proof fn lemma_across_exact(v: Vector, n: Vector)
    requires
        v.spec_within(ONE_RAW as int),
        n.spec_within(ONE_RAW as int),
        0 <= spec_cosine(v, n)@ <= ONE_RAW,
    ensures
        spec_across(v, n).x@ == v.x@ + mul_raw(n.x@, spec_cosine(v, n)@),
        spec_across(v, n).y@ == v.y@ + mul_raw(n.y@, spec_cosine(v, n)@),
        spec_across(v, n).z@ == v.z@ + mul_raw(n.z@, spec_cosine(v, n)@),
        spec_across(v, n).spec_within(2 * ONE_RAW),
{
    let c = spec_cosine(v, n)@;
    lemma_mul_raw_commutes(n.x@, c);
    lemma_mul_raw_commutes(n.y@, c);
    lemma_mul_raw_commutes(n.z@, c);
    lemma_mul_raw_small(c, n.x@);
    lemma_mul_raw_small(c, n.y@);
    lemma_mul_raw_small(c, n.z@);
    let mx = mul_raw(n.x@, c);
    let my = mul_raw(n.y@, c);
    let mz = mul_raw(n.z@, c);
    Scalar::lemma_of_raw(mx);
    Scalar::lemma_of_raw(my);
    Scalar::lemma_of_raw(mz);
    Scalar::lemma_of_raw(v.x@ + mx);
    Scalar::lemma_of_raw(v.y@ + my);
    Scalar::lemma_of_raw(v.z@ + mz);
    Scalar::lemma_of_raw(ONE_RAW as int);
    lemma_mul_raw_one(v.x@ + mx);
    lemma_mul_raw_one(v.y@ + my);
    lemma_mul_raw_one(v.z@ + mz);
}

/// The squared length of a vector whose components do not exceed two is
/// the sum of the rounded squares of its components.
proof fn lemma_length_squared_exact(p: Vector)
    requires
        p.spec_within(2 * ONE_RAW),
    ensures
        p.spec_length_squared()@ == mul_raw(p.x@, p.x@) + mul_raw(p.y@, p.y@) + mul_raw(
            p.z@,
            p.z@,
        ),
        magnitude(p.spec_length_squared()@) <= 192 * ONE_RAW,
{
    lemma_mul_raw_moderate(p.x@, p.x@);
    lemma_mul_raw_moderate(p.y@, p.y@);
    lemma_mul_raw_moderate(p.z@, p.z@);
    let lx = mul_raw(p.x@, p.x@);
    let ly = mul_raw(p.y@, p.y@);
    let lz = mul_raw(p.z@, p.z@);
    Scalar::lemma_of_raw(lx);
    Scalar::lemma_of_raw(ly);
    Scalar::lemma_of_raw(lz);
    Scalar::lemma_of_raw(lx + ly);
    Scalar::lemma_of_raw(lx + ly + lz);
}

/// The length of the part along the normal is the integer square root of
/// what the squared length of the part across misses of one.
proof fn lemma_along_exact(v: Vector, n: Vector)
    requires
        spec_across(v, n).spec_within(2 * ONE_RAW),
    ensures
        is_floor_sqrt(
            magnitude(ONE_RAW * (ONE_RAW - spec_across(v, n).spec_length_squared()@)),
            spec_along(v, n)@,
        ),
        0 <= spec_along(v, n)@ < 0x1_0000_0000_0000,
{
    let p = spec_across(v, n);
    lemma_length_squared_exact(p);
    let l = p.spec_length_squared()@;
    Scalar::lemma_of_raw(ONE_RAW as int);
    Scalar::lemma_of_raw(ONE_RAW - l);
    let a = magnitude(ONE_RAW - l);
    Scalar::lemma_of_raw(a);
    lemma_sqrt_nonnegative(a);
    Scalar::lemma_of_raw(sqrt_raw(a));
    lemma_product_sign(ONE_RAW as int, ONE_RAW - l);
    assert(a * ONE_RAW == magnitude(ONE_RAW * (ONE_RAW - l))) by (nonlinear_arith)
        requires
            magnitude(ONE_RAW * (ONE_RAW - l)) == magnitude(ONE_RAW as int) * a,
            ONE_RAW == 4294967296,
    ;
}

/// The components of the refracted direction for a ratio of the refractive
/// indices of one: those of the part across the normal, less the rounded
/// products of those of `n` with the length of the part along it.
proof fn lemma_refract_exact(v: Vector, n: Vector)
    requires
        n.spec_within(ONE_RAW as int),
        spec_across(v, n).spec_within(2 * ONE_RAW),
        0 <= spec_along(v, n)@ < 0x1_0000_0000_0000,
    ensures
        v.spec_refract(n, Scalar::spec_from_int(1)).x@ == spec_across(v, n).x@ - mul_raw(
            n.x@,
            spec_along(v, n)@,
        ),
        v.spec_refract(n, Scalar::spec_from_int(1)).y@ == spec_across(v, n).y@ - mul_raw(
            n.y@,
            spec_along(v, n)@,
        ),
        v.spec_refract(n, Scalar::spec_from_int(1)).z@ == spec_across(v, n).z@ - mul_raw(
            n.z@,
            spec_along(v, n)@,
        ),
{
    let k = spec_along(v, n)@;
    Scalar::lemma_of_raw(-k);
    lemma_mul_odd(n.x@, k);
    lemma_mul_odd(n.y@, k);
    lemma_mul_odd(n.z@, k);
    lemma_mul_raw_commutes(n.x@, k);
    lemma_mul_raw_commutes(n.y@, k);
    lemma_mul_raw_commutes(n.z@, k);
    lemma_mul_raw_small(k, n.x@);
    lemma_mul_raw_small(k, n.y@);
    lemma_mul_raw_small(k, n.z@);
    let px = mul_raw(n.x@, k);
    let py = mul_raw(n.y@, k);
    let pz = mul_raw(n.z@, k);
    Scalar::lemma_of_raw(-px);
    Scalar::lemma_of_raw(-py);
    Scalar::lemma_of_raw(-pz);
    let a = spec_across(v, n);
    Scalar::lemma_of_raw(a.x@ - px);
    Scalar::lemma_of_raw(a.y@ - py);
    Scalar::lemma_of_raw(a.z@ - pz);
}

/// Between media of the same refractive index a ray is refracted into its
/// own direction, as nearly as its direction and the normal are unit
/// vectors.
///
/// For a direction `v` and a normal `n` that faces the ray, with components
/// of at most one and squared lengths within `defect_v` and `defect_n` of
/// one, every component of the direction that Snell's law gives for a ratio
/// of the refractive indices of one lies within `g + 3` raw units of that of
/// `v`, for any `g` whose square is at least
/// `defect_v + defect_n + 21 S + 3`.
pub proof fn lemma_refract_unit_ratio_within(
    v: Vector,
    n: Vector,
    defect_v: int,
    defect_n: int,
    g: int,
)
    requires
        v.spec_within(ONE_RAW as int),
        n.spec_within(ONE_RAW as int),
        magnitude(v.spec_unit_defect()) <= defect_v,
        magnitude(n.spec_unit_defect()) <= defect_n,
        0 <= g,
        defect_v + defect_n + 21 * ONE_RAW + 3 <= g * g,
        -ONE_RAW <= v.spec_dot(n)@ <= 0,
    ensures
        magnitude(v.spec_refract(n, Scalar::spec_from_int(1)).x@ - v.x@) <= g + 3,
        magnitude(v.spec_refract(n, Scalar::spec_from_int(1)).y@ - v.y@) <= g + 3,
        magnitude(v.spec_refract(n, Scalar::spec_from_int(1)).z@ - v.z@) <= g + 3,
{
    lemma_cosine(v, n);
    lemma_across_exact(v, n);
    lemma_along_exact(v, n);
    lemma_refract_exact(v, n);
    let c = spec_cosine(v, n)@;
    let k = spec_along(v, n)@;
    let a = spec_across(v, n);
    // The roundings of the products involved.
    v.lemma_dot_exact(n, ONE_RAW as int);
    lemma_mul_raw_small(v.x@, n.x@);
    lemma_mul_raw_small(v.y@, n.y@);
    lemma_mul_raw_small(v.z@, n.z@);
    lemma_mul_raw_commutes(n.x@, c);
    lemma_mul_raw_commutes(n.y@, c);
    lemma_mul_raw_commutes(n.z@, c);
    lemma_mul_raw_small(c, n.x@);
    lemma_mul_raw_small(c, n.y@);
    lemma_mul_raw_small(c, n.z@);
    lemma_mul_raw_commutes(n.x@, k);
    lemma_mul_raw_commutes(n.y@, k);
    lemma_mul_raw_commutes(n.z@, k);
    lemma_mul_raw_small(k, n.x@);
    lemma_mul_raw_small(k, n.y@);
    lemma_mul_raw_small(k, n.z@);
    lemma_mul_raw_moderate(a.x@, a.x@);
    lemma_mul_raw_moderate(a.y@, a.y@);
    lemma_mul_raw_moderate(a.z@, a.z@);
    lemma_length_squared_exact(a);
    let l = a.spec_length_squared()@;
    // What the squared length of the part across misses of one is nearly
    // the squared cosine, so its root is nearly the cosine.
    lemma_square_defect(
        v.x@,
        v.y@,
        v.z@,
        n.x@,
        n.y@,
        n.z@,
        mul_raw(v.x@, n.x@),
        mul_raw(v.y@, n.y@),
        mul_raw(v.z@, n.z@),
        mul_raw(n.x@, c),
        mul_raw(n.y@, c),
        mul_raw(n.z@, c),
        mul_raw(a.x@, a.x@),
        mul_raw(a.y@, a.y@),
        mul_raw(a.z@, a.z@),
        c,
    );
    let y = ONE_RAW * (ONE_RAW - l);
    lemma_sqrt_near(y, k, c, g);
    // The two parts along the normal nearly cancel.
    lemma_products_near(n.x@, c, k, mul_raw(n.x@, c), mul_raw(n.x@, k));
    lemma_products_near(n.y@, c, k, mul_raw(n.y@, c), mul_raw(n.y@, k));
    lemma_products_near(n.z@, c, k, mul_raw(n.z@, c), mul_raw(n.z@, k));
}

/// Between media of the same refractive index a ray is refracted into its
/// own direction.
///
/// For a unit direction `v` and a unit normal `n` that faces the ray, each
/// up to rounding, every component of the direction that Snell's law gives
/// for a ratio of the refractive indices of one lies within
/// `REFRACT_TOLERANCE_RAW` of that of `v`.
pub proof fn lemma_refract_unit_ratio(v: Vector, n: Vector)
    requires
        is_nearly_unit(v),
        is_nearly_unit(n),
        -ONE_RAW <= v.spec_dot(n)@ <= 0,
    ensures
        magnitude(v.spec_refract(n, Scalar::spec_from_int(1)).x@ - v.x@) <= REFRACT_TOLERANCE_RAW,
        magnitude(v.spec_refract(n, Scalar::spec_from_int(1)).y@ - v.y@) <= REFRACT_TOLERANCE_RAW,
        magnitude(v.spec_refract(n, Scalar::spec_from_int(1)).z@ - v.z@) <= REFRACT_TOLERANCE_RAW,
{
    assert(524288int * 524288 == 274877906944);
    lemma_refract_unit_ratio_within(
        v,
        n,
        UNIT_DEFECT_RAW as int,
        UNIT_DEFECT_RAW as int,
        524288,
    );
}

/// The integer square root of a number near a square is near the root of
/// that square: where `y` differs from `c^2` by at most `g^2`, its square
/// root differs from `c` by at most `g + 1`.
pub proof fn lemma_sqrt_near(y: int, k: int, c: int, g: int)
    requires
        is_floor_sqrt(magnitude(y), k),
        0 <= c,
        0 <= g,
        magnitude(y - c * c) <= g * g,
    ensures
        magnitude(k - c) <= g + 1,
{
    let m = magnitude(y);
    // k^2 <= |y| <= c^2 + g^2 <= (c + g)^2
    if k > c + g {
        assert(k * k >= (c + g + 1) * (c + g + 1)) by (nonlinear_arith)
            requires
                k >= c + g + 1,
                c + g + 1 >= 0,
        ;
        assert((c + g + 1) * (c + g + 1) > c * c + g * g) by (nonlinear_arith)
            requires
                0 <= c,
                0 <= g,
        ;
    }
    // (k + 1)^2 > |y| >= c^2 - g^2 >= (c - g)^2 where c >= g
    if k + 1 < c - g {
        assert((k + 1) * (k + 1) <= (c - g - 1) * (c - g - 1)) by (nonlinear_arith)
            requires
                0 <= k + 1 <= c - g - 1,
        ;
        assert((c - g - 1) * (c - g - 1) <= c * c - g * g) by (nonlinear_arith)
            requires
                0 <= g,
                g + 1 <= c,
        ;
    }
}

/// Two rounded products with a factor of magnitude at most one differ by
/// at most the difference of the other factors, plus two.
pub proof fn lemma_products_near(n: int, c: int, k: int, m: int, p: int)
    requires
        -ONE_RAW <= n <= ONE_RAW,
        -ONE_RAW < n * c - ONE_RAW * m < ONE_RAW,
        -ONE_RAW < n * k - ONE_RAW * p < ONE_RAW,
    ensures
        magnitude(m - p) <= magnitude(c - k) + 2,
{
    assert(n * c - n * k == n * (c - k)) by (nonlinear_arith);
    lemma_product_sign(n, c - k);
    assert(magnitude(n) * magnitude(c - k) <= ONE_RAW * magnitude(c - k)) by (nonlinear_arith)
        requires
            0 <= magnitude(n) <= ONE_RAW,
            0 <= magnitude(c - k),
    ;
    // ONE_RAW * (m - p) lies within 2 * ONE_RAW of n * (c - k).
    assert(magnitude(4294967296 * (m - p)) <= 4294967296 * magnitude(c - k) + 2 * 4294967296);
}

/// One component's share in the inner product of `v` with the normal scaled
/// by the cosine: with `m` the rounded product of `n` and `c`,
/// `S v m = c (v n) - v (n c - S m)`, and the last term is at most `S^2`.
proof fn lemma_across_component(v: int, n: int, m: int, c: int)
    requires
        -ONE_RAW <= v <= ONE_RAW,
        -ONE_RAW < n * c - ONE_RAW * m < ONE_RAW,
    ensures
        4294967296 * (v * m) == c * (v * n) - v * (n * c - 4294967296 * m),
        magnitude(v * (n * c - 4294967296 * m)) <= 18446744073709551616,
{
    assert(4294967296 * (v * m) == c * (v * n) - v * (n * c - 4294967296 * m))
        by (nonlinear_arith);
    lemma_product_magnitude(v, n * c - 4294967296 * m, 4294967296, 4294967296);
}

/// The inner product of `v` with the normal scaled by the cosine is the
/// opposite of the squared cosine, up to six: with `c = -(v . n)`, rounded,
/// and `m` the rounded products of the components of `n` with `c`,
/// `|v . m + c^2| <= 6 S`.
proof fn lemma_across(
    vx: int,
    vy: int,
    vz: int,
    nx: int,
    ny: int,
    nz: int,
    qx: int,
    qy: int,
    qz: int,
    mx: int,
    my: int,
    mz: int,
    c: int,
)
    requires
        -ONE_RAW <= vx <= ONE_RAW,
        -ONE_RAW <= vy <= ONE_RAW,
        -ONE_RAW <= vz <= ONE_RAW,
        0 <= c <= ONE_RAW,
        qx + qy + qz == -c,
        -ONE_RAW < vx * nx - ONE_RAW * qx < ONE_RAW,
        -ONE_RAW < vy * ny - ONE_RAW * qy < ONE_RAW,
        -ONE_RAW < vz * nz - ONE_RAW * qz < ONE_RAW,
        -ONE_RAW < nx * c - ONE_RAW * mx < ONE_RAW,
        -ONE_RAW < ny * c - ONE_RAW * my < ONE_RAW,
        -ONE_RAW < nz * c - ONE_RAW * mz < ONE_RAW,
    ensures
        magnitude(vx * mx + vy * my + vz * mz + c * c) <= 6 * ONE_RAW,
{
    lemma_across_component(vx, nx, mx, c);
    lemma_across_component(vy, ny, my, c);
    lemma_across_component(vz, nz, mz, c);
    let rho = (vx * nx - 4294967296 * qx) + (vy * ny - 4294967296 * qy) + (vz * nz - 4294967296
        * qz);
    let inner = vx * nx + vy * ny + vz * nz;
    assert(inner == rho - 4294967296 * c);
    assert(c * inner == c * (vx * nx) + c * (vy * ny) + c * (vz * nz)) by (nonlinear_arith)
        requires
            inner == vx * nx + vy * ny + vz * nz,
    ;
    assert(c * inner == c * rho - 4294967296 * (c * c)) by (nonlinear_arith)
        requires
            inner == rho - 4294967296 * c,
    ;
    lemma_product_magnitude(c, rho, 4294967296, 12884901888);
    let t = vx * mx + vy * my + vz * mz + c * c;
    assert(4294967296 * t == c * rho - vx * (nx * c - 4294967296 * mx) - vy * (ny * c
        - 4294967296 * my) - vz * (nz * c - 4294967296 * mz));
    assert(magnitude(4294967296 * t) <= 6 * 18446744073709551616);
}

/// One component's share in the squared length of the normal scaled by the
/// cosine: `S^2 m^2 = n^2 c^2 - 2 (n c) s + s^2` with `s = n c - S m`, and
/// the last two terms are at most `2 S^3` and `S^2`.
proof fn lemma_along_component(n: int, m: int, c: int)
    requires
        -ONE_RAW <= n <= ONE_RAW,
        0 <= c <= ONE_RAW,
        -ONE_RAW < n * c - ONE_RAW * m < ONE_RAW,
    ensures
        18446744073709551616 * (m * m) == (n * n) * (c * c) - 2 * ((n * c) * (n * c - 4294967296
            * m)) + (n * c - 4294967296 * m) * (n * c - 4294967296 * m),
        magnitude((n * c) * (n * c - 4294967296 * m)) <= 18446744073709551616 * 4294967296,
        0 <= (n * c - 4294967296 * m) * (n * c - 4294967296 * m) <= 18446744073709551616,
{
    let u = n * c;
    let s = u - 4294967296 * m;
    assert((4294967296 * m) * (4294967296 * m) == 18446744073709551616 * (m * m))
        by (nonlinear_arith);
    assert((u - s) * (u - s) == u * u - 2 * (u * s) + s * s) by (nonlinear_arith);
    assert(u * u == (n * n) * (c * c)) by (nonlinear_arith)
        requires
            u == n * c,
    ;
    lemma_product_magnitude(n, c, 4294967296, 4294967296);
    lemma_product_magnitude(u, s, 18446744073709551616, 4294967296);
    lemma_product_magnitude(s, s, 4294967296, 4294967296);
    lemma_product_sign(s, s);
}

/// The squared length of the normal scaled by the cosine is the squared
/// cosine, up to the defect of the normal and to roundings:
/// `|m . m - c^2| <= |defect| + 6 S + 3`.
proof fn lemma_along(nx: int, ny: int, nz: int, mx: int, my: int, mz: int, c: int)
    requires
        -ONE_RAW <= nx <= ONE_RAW,
        -ONE_RAW <= ny <= ONE_RAW,
        -ONE_RAW <= nz <= ONE_RAW,
        0 <= c <= ONE_RAW,
        -ONE_RAW < nx * c - ONE_RAW * mx < ONE_RAW,
        -ONE_RAW < ny * c - ONE_RAW * my < ONE_RAW,
        -ONE_RAW < nz * c - ONE_RAW * mz < ONE_RAW,
    ensures
        magnitude(mx * mx + my * my + mz * mz - c * c) <= magnitude(
            nx * nx + ny * ny + nz * nz - ONE_RAW * ONE_RAW,
        ) + 6 * ONE_RAW + 3,
{
    lemma_along_component(nx, mx, c);
    lemma_along_component(ny, my, c);
    lemma_along_component(nz, mz, c);
    assert(ONE_RAW * ONE_RAW == 18446744073709551616);
    let defect = nx * nx + ny * ny + nz * nz - 18446744073709551616;
    let cc = c * c;
    assert((nx * nx) * cc + (ny * ny) * cc + (nz * nz) * cc == (defect + 18446744073709551616)
        * cc) by (nonlinear_arith)
        requires
            defect == nx * nx + ny * ny + nz * nz - 18446744073709551616,
    ;
    assert((defect + 18446744073709551616) * cc == defect * cc + 18446744073709551616 * cc)
        by (nonlinear_arith);
    lemma_product_magnitude(c, c, 4294967296, 4294967296);
    lemma_product_magnitude(defect, cc, magnitude(defect), 18446744073709551616);
    let t = mx * mx + my * my + mz * mz - cc;
    assert(magnitude(18446744073709551616 * t) <= 18446744073709551616 * magnitude(defect) + 6
        * (18446744073709551616 * 4294967296) + 3 * 18446744073709551616);
}

/// What the squared length of the part across the normal misses of one is
/// the squared cosine, up to the defects of the two unit vectors and to
/// roundings.
///
/// Here `q` are the rounded products that make up the inner product of `v`
/// and `n`, whose opposite is the cosine `c`; `m` are those of `n` and `c`;
/// and `l` are the rounded squares of the components of `v + m`. Then
/// `|S (S - (lx + ly + lz)) - c^2|` is at most the sum of the two defects,
/// plus `21 S + 3`.
proof fn lemma_square_defect(
    vx: int,
    vy: int,
    vz: int,
    nx: int,
    ny: int,
    nz: int,
    qx: int,
    qy: int,
    qz: int,
    mx: int,
    my: int,
    mz: int,
    lx: int,
    ly: int,
    lz: int,
    c: int,
)
    requires
        -ONE_RAW <= vx <= ONE_RAW,
        -ONE_RAW <= vy <= ONE_RAW,
        -ONE_RAW <= vz <= ONE_RAW,
        -ONE_RAW <= nx <= ONE_RAW,
        -ONE_RAW <= ny <= ONE_RAW,
        -ONE_RAW <= nz <= ONE_RAW,
        0 <= c <= ONE_RAW,
        qx + qy + qz == -c,
        -ONE_RAW < vx * nx - ONE_RAW * qx < ONE_RAW,
        -ONE_RAW < vy * ny - ONE_RAW * qy < ONE_RAW,
        -ONE_RAW < vz * nz - ONE_RAW * qz < ONE_RAW,
        -ONE_RAW < nx * c - ONE_RAW * mx < ONE_RAW,
        -ONE_RAW < ny * c - ONE_RAW * my < ONE_RAW,
        -ONE_RAW < nz * c - ONE_RAW * mz < ONE_RAW,
        -ONE_RAW < (vx + mx) * (vx + mx) - ONE_RAW * lx < ONE_RAW,
        -ONE_RAW < (vy + my) * (vy + my) - ONE_RAW * ly < ONE_RAW,
        -ONE_RAW < (vz + mz) * (vz + mz) - ONE_RAW * lz < ONE_RAW,
    ensures
        magnitude(ONE_RAW * (ONE_RAW - (lx + ly + lz)) - c * c) <= magnitude(
            vx * vx + vy * vy + vz * vz - ONE_RAW * ONE_RAW,
        ) + magnitude(nx * nx + ny * ny + nz * nz - ONE_RAW * ONE_RAW) + 21 * ONE_RAW + 3,
{
    lemma_across(vx, vy, vz, nx, ny, nz, qx, qy, qz, mx, my, mz, c);
    lemma_along(nx, ny, nz, mx, my, mz, c);
    assert((vx + mx) * (vx + mx) == vx * vx + 2 * (vx * mx) + mx * mx) by (nonlinear_arith);
    assert((vy + my) * (vy + my) == vy * vy + 2 * (vy * my) + my * my) by (nonlinear_arith);
    assert((vz + mz) * (vz + mz) == vz * vz + 2 * (vz * mz) + mz * mz) by (nonlinear_arith);
    assert(ONE_RAW * ONE_RAW == 18446744073709551616);
    let across = vx * mx + vy * my + vz * mz + c * c;
    let along = mx * mx + my * my + mz * mz - c * c;
    let defect = vx * vx + vy * vy + vz * vz - 18446744073709551616;
    let pi = ((vx + mx) * (vx + mx) - 4294967296 * lx) + ((vy + my) * (vy + my) - 4294967296 * ly)
        + ((vz + mz) * (vz + mz) - 4294967296 * lz);
    assert(4294967296 * (4294967296 - (lx + ly + lz)) - c * c == pi - defect - 2 * across
        - along);
}

/// One component of a vector scaled to unit length: the quotient `u` of
/// `d` by the length `len` is at most one, and what it misses of the exact
/// quotient, `r = S d - len u`, is less than `len` and has the sign of `d`.
proof fn lemma_unit_component(d: int, len: int)
    requires
        0 < len,
        -len <= d <= len,
    ensures
        ({
            let u = crate::scalar::div_raw(d, len);
            let r = 4294967296 * d - len * u;
            &&& -ONE_RAW <= u <= ONE_RAW
            &&& 0 <= d * r <= len * len
            &&& 0 <= r * r <= len * len
            &&& (len * u) * (len * u) == 18446744073709551616 * (d * d) - 2 * (4294967296 * (d
                * r)) + r * r
        }),
{
    let x = magnitude(d * ONE_RAW);
    lemma_product_sign(d, ONE_RAW as int);
    assert(x == magnitude(d) * 4294967296);
    let q = x / len;
    let rem = x % len;
    vstd::arithmetic::div_mod::lemma_fundamental_div_mod(x, len);
    vstd::arithmetic::div_mod::lemma_mod_bound(x, len);
    assert(x == len * q + rem);
    assert(q <= 4294967296 && q >= 0) by (nonlinear_arith)
        requires
            x == len * q + rem,
            0 <= rem < len,
            0 <= x <= len * 4294967296,
            0 < len,
    ;
    let u = crate::scalar::div_raw(d, len);
    assert(u == if d < 0 { -q } else { q });
    let r = 4294967296 * d - len * u;
    assert(len * (-q) == -(len * q)) by (nonlinear_arith);
    assert(r == if d < 0 { -rem } else { rem });
    lemma_product_magnitude(d, r, len, len);
    lemma_product_sign(d, r);
    lemma_product_magnitude(r, r, len, len);
    lemma_product_sign(r, r);
    assert((len * u) * (len * u) == (4294967296 * d - r) * (4294967296 * d - r));
    assert((4294967296 * d - r) * (4294967296 * d - r) == 18446744073709551616 * (d * d) - 2 * (
    4294967296 * (d * r)) + r * r) by (nonlinear_arith);
}

/// No component of a vector scaled to unit length exceeds one. The
/// vector's components must not exceed `2^61` raw units, so that its length
/// can be held.
pub proof fn lemma_unit_vector_within_one(d: Vector)
    requires
        d.spec_within(0x2000_0000_0000_0000),
        d.spec_length()@ > 0,
    ensures
        d.spec_unit_vector().spec_within(ONE_RAW as int),
{
    let sum = d.x@ * d.x@ + d.y@ * d.y@ + d.z@ * d.z@;
    lemma_product_magnitude(d.x@, d.x@, 0x2000_0000_0000_0000, 0x2000_0000_0000_0000);
    lemma_product_magnitude(d.y@, d.y@, 0x2000_0000_0000_0000, 0x2000_0000_0000_0000);
    lemma_product_magnitude(d.z@, d.z@, 0x2000_0000_0000_0000, 0x2000_0000_0000_0000);
    lemma_product_sign(d.x@, d.x@);
    lemma_product_sign(d.y@, d.y@);
    lemma_product_sign(d.z@, d.z@);
    assert(0x2000_0000_0000_0000int * 0x2000_0000_0000_0000
        == 0x400_0000_0000_0000_0000_0000_0000_0000);
    crate::scalar::lemma_floor_sqrt_exists(sum);
    let len = crate::scalar::floor_sqrt(sum);
    assert(len < 0x4000_0000_0000_0000) by (nonlinear_arith)
        requires
            0 <= len,
            len * len <= sum,
            sum <= 3 * 0x400_0000_0000_0000_0000_0000_0000_0000,
    ;
    Scalar::lemma_of_raw(len);
    assert(d.spec_length()@ == len);
    assert(-len <= d.x@ <= len && -len <= d.y@ <= len && -len <= d.z@ <= len)
        by (nonlinear_arith)
        requires
            sum == d.x@ * d.x@ + d.y@ * d.y@ + d.z@ * d.z@,
            sum < (len + 1) * (len + 1),
            0 <= len,
    ;
    lemma_unit_component(d.x@, len);
    lemma_unit_component(d.y@, len);
    lemma_unit_component(d.z@, len);
    Scalar::lemma_of_raw(crate::scalar::div_raw(d.x@, len));
    Scalar::lemma_of_raw(crate::scalar::div_raw(d.y@, len));
    Scalar::lemma_of_raw(crate::scalar::div_raw(d.z@, len));
}

/// A vector of length at least one, scaled to unit length, is a unit vector
/// up to rounding. The vector's components must not exceed `2^61` raw units,
/// so that its length can be held.
pub proof fn lemma_unit_vector_nearly_unit(d: Vector)
    requires
        d.spec_within(0x2000_0000_0000_0000),
        d.spec_length()@ >= ONE_RAW,
    ensures
        is_nearly_unit(d.spec_unit_vector()),
{
    let sum = d.x@ * d.x@ + d.y@ * d.y@ + d.z@ * d.z@;
    lemma_product_magnitude(d.x@, d.x@, 0x2000_0000_0000_0000, 0x2000_0000_0000_0000);
    lemma_product_magnitude(d.y@, d.y@, 0x2000_0000_0000_0000, 0x2000_0000_0000_0000);
    lemma_product_magnitude(d.z@, d.z@, 0x2000_0000_0000_0000, 0x2000_0000_0000_0000);
    lemma_product_sign(d.x@, d.x@);
    lemma_product_sign(d.y@, d.y@);
    lemma_product_sign(d.z@, d.z@);
    assert(0x2000_0000_0000_0000int * 0x2000_0000_0000_0000
        == 0x400_0000_0000_0000_0000_0000_0000_0000);
    crate::scalar::lemma_floor_sqrt_exists(sum);
    let len = crate::scalar::floor_sqrt(sum);
    assert(len < 0x4000_0000_0000_0000) by (nonlinear_arith)
        requires
            0 <= len,
            len * len <= sum,
            sum <= 3 * 0x400_0000_0000_0000_0000_0000_0000_0000,
    ;
    Scalar::lemma_of_raw(len);
    assert(d.spec_length()@ == len);
    // No component is longer than the vector.
    assert(-len <= d.x@ <= len && -len <= d.y@ <= len && -len <= d.z@ <= len)
        by (nonlinear_arith)
        requires
            sum == d.x@ * d.x@ + d.y@ * d.y@ + d.z@ * d.z@,
            sum < (len + 1) * (len + 1),
            0 <= len,
    ;
    lemma_unit_component(d.x@, len);
    lemma_unit_component(d.y@, len);
    lemma_unit_component(d.z@, len);
    let ux = crate::scalar::div_raw(d.x@, len);
    let uy = crate::scalar::div_raw(d.y@, len);
    let uz = crate::scalar::div_raw(d.z@, len);
    Scalar::lemma_of_raw(ux);
    Scalar::lemma_of_raw(uy);
    Scalar::lemma_of_raw(uz);
    let u = d.spec_unit_vector();
    assert(u.x@ == ux && u.y@ == uy && u.z@ == uz);
    // The squared length of the quotient, times the squared length of the
    // vector, is that squared length up to what the roundings took away.
    let rx = 4294967296 * d.x@ - len * ux;
    let ry = 4294967296 * d.y@ - len * uy;
    let rz = 4294967296 * d.z@ - len * uz;
    let twice = (d.x@ * rx) + (d.y@ * ry) + (d.z@ * rz);
    let squares = rx * rx + ry * ry + rz * rz;
    let defect = ux * ux + uy * uy + uz * uz - 18446744073709551616;
    let ll = len * len;
    assert((len * ux) * (len * ux) == ll * (ux * ux)) by (nonlinear_arith)
        requires
            ll == len * len,
    ;
    assert((len * uy) * (len * uy) == ll * (uy * uy)) by (nonlinear_arith)
        requires
            ll == len * len,
    ;
    assert((len * uz) * (len * uz) == ll * (uz * uz)) by (nonlinear_arith)
        requires
            ll == len * len,
    ;
    assert(ll * (defect + 18446744073709551616) == ll * (ux * ux) + ll * (uy * uy) + ll * (uz
        * uz)) by (nonlinear_arith)
        requires
            defect + 18446744073709551616 == ux * ux + uy * uy + uz * uz,
    ;
    assert(ll * (defect + 18446744073709551616) == ll * defect + 18446744073709551616 * ll)
        by (nonlinear_arith);
    let excess = sum - ll;
    assert(0 <= excess <= 2 * len) by (nonlinear_arith)
        requires
            excess == sum - ll,
            ll == len * len,
            len * len <= sum < (len + 1) * (len + 1),
    ;
    assert(ll * defect == 18446744073709551616 * excess - 2 * (4294967296 * twice) + squares);
    assert(4294967296 * len <= ll) by (nonlinear_arith)
        requires
            ll == len * len,
            len >= 4294967296,
    ;
    assert(0 <= twice <= 3 * ll);
    assert(0 <= squares <= 3 * ll);
    assert(18446744073709551616 * excess <= 8589934592 * ll);
    assert(ll * defect <= 8589934595 * ll);
    assert(ll * defect >= -25769803776 * ll);
    assert(-25769803776 <= defect <= 8589934595) by (nonlinear_arith)
        requires
            ll * defect <= 8589934595 * ll,
            ll * defect >= -25769803776 * ll,
            ll > 0,
    ;
    assert(ONE_RAW * ONE_RAW == 18446744073709551616);
    assert(u.spec_unit_defect() == defect);
}

} // verus!
