//! How near to the sphere a hit point lies, and how near to unit length its
//! normal.

use crate::hittable::Hittable;
use crate::interval::Interval;
use crate::ray::Ray;
use crate::scalar::div_raw;
use crate::scalar::is_floor_sqrt;
use crate::scalar::lemma_div_raw_within;
use crate::scalar::lemma_mul_raw_within;
use crate::scalar::lemma_product_magnitude;
use crate::scalar::lemma_product_sign;
use crate::scalar::lemma_sqrt_raw_within;
use crate::scalar::magnitude;
use crate::scalar::mul_raw;
use crate::scalar::Scalar;
use crate::scalar::MAX_RAW;
use crate::scalar::ONE_RAW;
use crate::sphere::Sphere;
use crate::vector::Vector;
use vstd::prelude::*;

verus! {

/// The quadratic at the computed root. With `a`, `h` and `cc` the
/// coefficients of the equation `a t^2 - 2 h t + cc = 0` in its half-b form,
/// `m1` and `m2` the rounded products `h h` and `a cc`, `sq` the integer
/// square root of their difference and `t` the rounded quotient of
/// `x = h - sq` or `x = h + sq` by `a`, the value of the quadratic at `t`,
/// times `a`, is small.
pub proof fn lemma_quadratic_at_root(
    a: int,
    h: int,
    cc: int,
    m1: int,
    m2: int,
    sq: int,
    x: int,
    t: int,
)
    requires
        a > 0,
        -ONE_RAW < h * h - ONE_RAW * m1 < ONE_RAW,
        -ONE_RAW < a * cc - ONE_RAW * m2 < ONE_RAW,
        is_floor_sqrt((m1 - m2) * ONE_RAW, sq),
        x == h - sq || x == h + sq,
        -a < x * ONE_RAW - a * t < a,
    ensures
        magnitude(a * (a * (t * t) - 2 * (4294967296 * (h * t)) + 18446744073709551616 * cc)) <= 2
            * (4294967296 * (sq * a)) + a * a + 18446744073709551616 * (2 * sq + 2 * 4294967296),
{
    let s: int = 4294967296;
    let p = a * t;
    let e = x - h;
    let tau = x * s - p;
    // a f = (a t - S h)^2 - S^2 (h h - a cc)
    let f = a * (t * t) - 2 * (s * (h * t)) + 18446744073709551616 * cc;
    assert(a * (a * (t * t)) == p * p) by (nonlinear_arith)
        requires
            p == a * t,
    ;
    assert(a * (h * t) == h * p) by (nonlinear_arith)
        requires
            p == a * t,
    ;
    assert(a * f == a * (a * (t * t)) - 2 * (s * (a * (h * t))) + 18446744073709551616 * (a * cc))
        by (nonlinear_arith)
        requires
            f == a * (t * t) - 2 * (s * (h * t)) + 18446744073709551616 * cc,
    ;
    let z = p - s * h;
    assert(z * z == p * p - 2 * (s * (h * p)) + 18446744073709551616 * (h * h))
        by (nonlinear_arith)
        requires
            z == p - s * h,
            s == 4294967296,
    ;
    assert(a * f == z * z - 18446744073709551616 * (h * h - a * cc));
    // a t - S h = S e - tau, and e e = sq sq
    assert(z == s * e - tau);
    assert(z * z == 18446744073709551616 * (e * e) - 2 * (s * (e * tau)) + tau * tau)
        by (nonlinear_arith)
        requires
            z == s * e - tau,
            s == 4294967296,
    ;
    assert(e * e == sq * sq) by (nonlinear_arith)
        requires
            e == sq || e == -sq,
    ;
    // h h - a cc = sq sq + nu + mu1 - mu2
    let nu = (m1 - m2) * s - sq * sq;
    assert(0 <= nu <= 2 * sq) by (nonlinear_arith)
        requires
            nu == (m1 - m2) * s - sq * sq,
            0 <= sq,
            sq * sq <= (m1 - m2) * s < (sq + 1) * (sq + 1),
    ;
    let mu = (h * h - s * m1) - (a * cc - s * m2);
    assert(h * h - a * cc == sq * sq + nu + mu);
    assert(a * f == -2 * (s * (e * tau)) + tau * tau - 18446744073709551616 * (nu + mu));
    lemma_product_magnitude(e, tau, sq, a);
    lemma_product_magnitude(tau, tau, a, a);
    lemma_product_sign(tau, tau);
}

/// One component's share in the squared distance of the hit point from the
/// center. With `big_a`, `big_h`, `big_c` and `big_t` the rounded products
/// `d d`, `d oc`, `oc oc` and `d t`, and `u = big_t - oc` the component of
/// the vector from the center to the point, `S^2 u^2` is `S` times the
/// component's share in the quadratic, up to what the roundings took away.
proof fn lemma_distance_component(
    d: int,
    oc: int,
    big_a: int,
    big_h: int,
    big_c: int,
    big_t: int,
    t: int,
)
    requires
        0 <= d * d - ONE_RAW * big_a < ONE_RAW,
        -ONE_RAW < d * oc - ONE_RAW * big_h < ONE_RAW,
        0 <= oc * oc - ONE_RAW * big_c < ONE_RAW,
        -ONE_RAW < d * t - ONE_RAW * big_t < ONE_RAW,
    ensures
        ({
            let u = big_t - oc;
            let share = big_a * (t * t) - 2 * (4294967296 * (big_h * t)) + 18446744073709551616
                * big_c;
            magnitude(18446744073709551616 * (u * u) - 4294967296 * share) <= 4294967296 * (t * t)
                + 2 * (18446744073709551616 * magnitude(t)) + 18446744073709551616 * 4294967296
                + 2 * (18446744073709551616 * magnitude(u)) + 18446744073709551616
        }),
{
    let s: int = 4294967296;
    let u = big_t - oc;
    let theta = d * t - s * big_t;
    let w = d * t - s * oc;
    let alpha = d * d - s * big_a;
    let eta = d * oc - s * big_h;
    let gamma = oc * oc - s * big_c;
    let tt = t * t;
    assert(w == s * u + theta);
    assert(w * w == 18446744073709551616 * (u * u) + 2 * (s * (u * theta)) + theta * theta)
        by (nonlinear_arith)
        requires
            w == s * u + theta,
            s == 4294967296,
    ;
    assert(w * w == (d * d) * tt - 2 * (s * ((d * oc) * t)) + 18446744073709551616 * (oc * oc))
        by (nonlinear_arith)
        requires
            w == d * t - s * oc,
            tt == t * t,
            s == 4294967296,
    ;
    assert((d * d) * tt == s * (big_a * tt) + alpha * tt) by (nonlinear_arith)
        requires
            d * d == s * big_a + alpha,
    ;
    assert((d * oc) * t == s * (big_h * t) + eta * t) by (nonlinear_arith)
        requires
            d * oc == s * big_h + eta,
    ;
    lemma_product_sign(t, t);
    lemma_product_magnitude(alpha, tt, s, tt);
    lemma_product_magnitude(eta, t, s, magnitude(t));
    lemma_product_magnitude(u, theta, magnitude(u), s);
    lemma_product_magnitude(theta, theta, s, s);
    lemma_product_sign(theta, theta);
    let share = big_a * tt - 2 * (s * (big_h * t)) + 18446744073709551616 * big_c;
    assert(18446744073709551616 * (u * u) - s * share == alpha * tt - 2 * (s * (eta * t))
        + 18446744073709551616 * gamma - 2 * (s * (u * theta)) - theta * theta);
}

/// What the squared distance of the hit point from the center misses of
/// the squared radius, in raw units: where it is positive the point lies
/// outside the sphere.
pub open spec fn distance_defect(ux: int, uy: int, uz: int, r: int) -> int {
    ux * ux + uy * uy + uz * uz - r * r
}

/// A bound on `S` times the distance defect of a hit point, from the ray's
/// parameter `t`, the square root `sq` of the discriminant, the squared
/// length `a` of the direction and the vector `u` from the center to the
/// point: `3 t^2 + 6 S |t| + 4 S sq + a + 2 S (|ux| + |uy| + |uz|)
/// + 6 S^2 + 3 S`.
pub open spec fn hit_slack(a: int, sq: int, t: int, ux: int, uy: int, uz: int) -> int {
    3 * (t * t) + 6 * (4294967296 * magnitude(t)) + 4 * (4294967296 * sq) + a + 2 * (4294967296
        * (magnitude(ux) + magnitude(uy) + magnitude(uz))) + 6 * 18446744073709551616 + 3
        * 4294967296
}

/// The squared distance of the hit point from the center is `S` times the
/// quadratic at the ray's parameter, up to what the roundings took away.
proof fn lemma_distance_sum(
    dx: int,
    dy: int,
    dz: int,
    ocx: int,
    ocy: int,
    ocz: int,
    ax: int,
    ay: int,
    az: int,
    hx: int,
    hy: int,
    hz: int,
    cx: int,
    cy: int,
    cz: int,
    tx: int,
    ty: int,
    tz: int,
    r: int,
    big_r: int,
    t: int,
)
    requires
        0 <= dx * dx - ONE_RAW * ax < ONE_RAW,
        0 <= dy * dy - ONE_RAW * ay < ONE_RAW,
        0 <= dz * dz - ONE_RAW * az < ONE_RAW,
        -ONE_RAW < dx * ocx - ONE_RAW * hx < ONE_RAW,
        -ONE_RAW < dy * ocy - ONE_RAW * hy < ONE_RAW,
        -ONE_RAW < dz * ocz - ONE_RAW * hz < ONE_RAW,
        0 <= ocx * ocx - ONE_RAW * cx < ONE_RAW,
        0 <= ocy * ocy - ONE_RAW * cy < ONE_RAW,
        0 <= ocz * ocz - ONE_RAW * cz < ONE_RAW,
        -ONE_RAW < dx * t - ONE_RAW * tx < ONE_RAW,
        -ONE_RAW < dy * t - ONE_RAW * ty < ONE_RAW,
        -ONE_RAW < dz * t - ONE_RAW * tz < ONE_RAW,
        0 <= r * r - ONE_RAW * big_r < ONE_RAW,
    ensures
        ({
            let a = ax + ay + az;
            let h = hx + hy + hz;
            let cc = cx + cy + cz - big_r;
            let f = a * (t * t) - 2 * (4294967296 * (h * t)) + 18446744073709551616 * cc;
            let defect = distance_defect(tx - ocx, ty - ocy, tz - ocz, r);
            magnitude(18446744073709551616 * defect - 4294967296 * f) <= 3 * (4294967296 * (t * t))
                + 6 * (18446744073709551616 * magnitude(t)) + 4 * (18446744073709551616
                * 4294967296) + 2 * (18446744073709551616 * (magnitude(tx - ocx) + magnitude(
                ty - ocy,
            ) + magnitude(tz - ocz))) + 3 * 18446744073709551616
        }),
{
    lemma_distance_component(dx, ocx, ax, hx, cx, tx, t);
    lemma_distance_component(dy, ocy, ay, hy, cy, ty, t);
    lemma_distance_component(dz, ocz, az, hz, cz, tz, t);
    let tt = t * t;
    assert((ax + ay + az) * tt == ax * tt + ay * tt + az * tt) by (nonlinear_arith);
    assert((hx + hy + hz) * t == hx * t + hy * t + hz * t) by (nonlinear_arith);
}

/// The hit point lies on the sphere up to rounding: `S` times the distance
/// defect is at most the slack, for a direction of squared length at least
/// one.
///
/// Here `big_a`, `big_h`, `big_c` and `big_t` are the rounded products
/// `d d`, `d oc`, `oc oc` and `d t` by component, `big_r` that of `r r`,
/// `m1` and `m2` those of `h h` and `a cc`, `sq` the integer square root of
/// the discriminant `m1 - m2` and `t` the rounded quotient of `x = h - sq`
/// or `x = h + sq` by `a`.
pub proof fn lemma_hit_distance(
    dx: int,
    dy: int,
    dz: int,
    ocx: int,
    ocy: int,
    ocz: int,
    ax: int,
    ay: int,
    az: int,
    hx: int,
    hy: int,
    hz: int,
    cx: int,
    cy: int,
    cz: int,
    tx: int,
    ty: int,
    tz: int,
    r: int,
    big_r: int,
    m1: int,
    m2: int,
    sq: int,
    x: int,
    t: int,
)
    requires
        0 <= dx * dx - ONE_RAW * ax < ONE_RAW,
        0 <= dy * dy - ONE_RAW * ay < ONE_RAW,
        0 <= dz * dz - ONE_RAW * az < ONE_RAW,
        -ONE_RAW < dx * ocx - ONE_RAW * hx < ONE_RAW,
        -ONE_RAW < dy * ocy - ONE_RAW * hy < ONE_RAW,
        -ONE_RAW < dz * ocz - ONE_RAW * hz < ONE_RAW,
        0 <= ocx * ocx - ONE_RAW * cx < ONE_RAW,
        0 <= ocy * ocy - ONE_RAW * cy < ONE_RAW,
        0 <= ocz * ocz - ONE_RAW * cz < ONE_RAW,
        -ONE_RAW < dx * t - ONE_RAW * tx < ONE_RAW,
        -ONE_RAW < dy * t - ONE_RAW * ty < ONE_RAW,
        -ONE_RAW < dz * t - ONE_RAW * tz < ONE_RAW,
        0 <= r * r - ONE_RAW * big_r < ONE_RAW,
        ax + ay + az >= ONE_RAW,
        -ONE_RAW < (hx + hy + hz) * (hx + hy + hz) - ONE_RAW * m1 < ONE_RAW,
        -ONE_RAW < (ax + ay + az) * (cx + cy + cz - big_r) - ONE_RAW * m2 < ONE_RAW,
        is_floor_sqrt((m1 - m2) * ONE_RAW, sq),
        x == (hx + hy + hz) - sq || x == (hx + hy + hz) + sq,
        -(ax + ay + az) < x * ONE_RAW - (ax + ay + az) * t < ax + ay + az,
    ensures
        ONE_RAW * magnitude(distance_defect(tx - ocx, ty - ocy, tz - ocz, r)) <= hit_slack(
            ax + ay + az,
            sq,
            t,
            tx - ocx,
            ty - ocy,
            tz - ocz,
        ),
{
    let s: int = 4294967296;
    let a = ax + ay + az;
    let h = hx + hy + hz;
    let cc = cx + cy + cz - big_r;
    let f = a * (t * t) - 2 * (s * (h * t)) + 18446744073709551616 * cc;
    let defect = distance_defect(tx - ocx, ty - ocy, tz - ocz, r);
    let sum_u = magnitude(tx - ocx) + magnitude(ty - ocy) + magnitude(tz - ocz);
    lemma_quadratic_at_root(a, h, cc, m1, m2, sq, x, t);
    lemma_distance_sum(
        dx,
        dy,
        dz,
        ocx,
        ocy,
        ocz,
        ax,
        ay,
        az,
        hx,
        hy,
        hz,
        cx,
        cy,
        cz,
        tx,
        ty,
        tz,
        r,
        big_r,
        t,
    );
    lemma_product_sign(t, t);
    let y = 18446744073709551616 * defect;
    let delta = y - s * f;
    let b1 = 3 * (s * (t * t)) + 6 * (18446744073709551616 * magnitude(t)) + 4 * (
    18446744073709551616 * s) + 2 * (18446744073709551616 * sum_u) + 3 * 18446744073709551616;
    assert(magnitude(delta) <= b1);
    assert(a * y == s * (a * f) + a * delta) by (nonlinear_arith)
        requires
            y == s * f + delta,
    ;
    lemma_product_magnitude(a, delta, a, b1);
    assert(s * (sq * a) >= s * (s * sq) && sq * a >= 0) by (nonlinear_arith)
        requires
            a >= s,
            sq >= 0,
            s == 4294967296,
    ;
    assert(a * a >= s * a) by (nonlinear_arith)
        requires
            a >= s,
            s == 4294967296,
    ;
    let k = 4 * (18446744073709551616 * sq) + s * a + 2 * (18446744073709551616 * s) + b1;
    assert(a * k == 4 * (18446744073709551616 * (sq * a)) + s * (a * a) + 2 * (
    18446744073709551616 * (s * a)) + a * b1) by (nonlinear_arith)
        requires
            k == 4 * (18446744073709551616 * sq) + s * a + 2 * (18446744073709551616 * s) + b1,
    ;
    assert(magnitude(a * y) <= a * k);
    assert(magnitude(y) <= k) by (nonlinear_arith)
        requires
            magnitude(a * y) <= a * k,
            a > 0,
    ;
    assert(s * hit_slack(a, sq, t, tx - ocx, ty - ocy, tz - ocz) == k);
}

/// The normal of a hit is a unit vector as far as the hit point lies on
/// the sphere. With `n` the rounded quotients of the components of `u`, the
/// vector from the center to the point, by the radius `r`, what the squared
/// length of `n` misses of one, times `r^2`, is `S^2` times the distance
/// defect, up to what the roundings took away.
pub proof fn lemma_normal_defect(
    ux: int,
    uy: int,
    uz: int,
    nx: int,
    ny: int,
    nz: int,
    r: int,
)
    requires
        r > 0,
        -r < ONE_RAW * ux - r * nx < r,
        -r < ONE_RAW * uy - r * ny < r,
        -r < ONE_RAW * uz - r * nz < r,
    ensures
        (r * r) * magnitude(nx * nx + ny * ny + nz * nz - ONE_RAW * ONE_RAW)
            <= 18446744073709551616 * magnitude(distance_defect(ux, uy, uz, r)) + 2 * (4294967296
            * (r * (magnitude(ux) + magnitude(uy) + magnitude(uz)))) + 3 * (r * r),
{
    let s: int = 4294967296;
    let rr = r * r;
    lemma_normal_component(ux, nx, r);
    lemma_normal_component(uy, ny, r);
    lemma_normal_component(uz, nz, r);
    let kx = s * ux - r * nx;
    let ky = s * uy - r * ny;
    let kz = s * uz - r * nz;
    let defect = nx * nx + ny * ny + nz * nz - 18446744073709551616;
    assert(rr * (defect + 18446744073709551616) == rr * (nx * nx) + rr * (ny * ny) + rr * (nz
        * nz)) by (nonlinear_arith)
        requires
            defect + 18446744073709551616 == nx * nx + ny * ny + nz * nz,
    ;
    assert(rr * (defect + 18446744073709551616) == rr * defect + 18446744073709551616 * rr)
        by (nonlinear_arith);
    assert(r * (magnitude(ux) + magnitude(uy) + magnitude(uz)) == r * magnitude(ux) + r
        * magnitude(uy) + r * magnitude(uz)) by (nonlinear_arith);
    assert(rr * defect == 18446744073709551616 * distance_defect(ux, uy, uz, r) - 2 * (s * (ux
        * kx)) - 2 * (s * (uy * ky)) - 2 * (s * (uz * kz)) + kx * kx + ky * ky + kz * kz);
    assert(ONE_RAW * ONE_RAW == 18446744073709551616);
    lemma_product_sign(rr, defect);
    assert(magnitude(rr) == rr) by (nonlinear_arith)
        requires
            rr == r * r,
    ;
}

/// One component of the normal: `(r n)^2 = S^2 u^2 - 2 S u k + k^2` with
/// `k = S u - r n`, and `|u k| <= r |u|`, `k^2 <= r^2`.
proof fn lemma_normal_component(u: int, n: int, r: int)
    requires
        r > 0,
        -r < ONE_RAW * u - r * n < r,
    ensures
        ({
            let k = 4294967296 * u - r * n;
            &&& (r * r) * (n * n) == 18446744073709551616 * (u * u) - 2 * (4294967296 * (u * k))
                + k * k
            &&& magnitude(u * k) <= r * magnitude(u)
            &&& 0 <= k * k <= r * r
        }),
{
    let s: int = 4294967296;
    let k = s * u - r * n;
    assert((r * r) * (n * n) == (r * n) * (r * n)) by (nonlinear_arith);
    assert((s * u - k) * (s * u - k) == 18446744073709551616 * (u * u) - 2 * (s * (u * k)) + k
        * k) by (nonlinear_arith)
        requires
            s == 4294967296,
    ;
    lemma_product_magnitude(k, u, r, magnitude(u));
    assert(u * k == k * u) by (nonlinear_arith);
    lemma_product_magnitude(k, k, r, r);
    lemma_product_sign(k, k);
}

/// Whether a sphere and a ray are of a size at which a hit is computed
/// without saturation: the components of the direction do not exceed 4,
/// those of the origin and the center 1024, the radius lies between `2^-10`
/// and 1024, and the direction has a squared length of at least one.
pub open spec fn in_range(sphere: Sphere, r: Ray) -> bool {
    &&& r.dir.spec_within(4 * ONE_RAW)
    &&& r.orig.spec_within(1024 * ONE_RAW)
    &&& sphere.center.spec_within(1024 * ONE_RAW)
    &&& 4194304 <= sphere.radius@ <= 1024 * ONE_RAW
    &&& r.dir.spec_length_squared()@ >= ONE_RAW
}

/// The inner product of two bounded vectors is the sum of the rounded
/// products of their components, where three times the product of the
/// bounds can be held.
proof fn lemma_dot_within(a: Vector, b: Vector, bound_a: int, bound_b: int, bound: int)
    requires
        a.spec_within(bound_a),
        b.spec_within(bound_b),
        0 <= bound_a,
        0 <= bound_b,
        bound_a * bound_b <= bound * ONE_RAW,
        0 <= bound,
        3 * bound <= MAX_RAW,
    ensures
        a.spec_dot(b)@ == mul_raw(a.x@, b.x@) + mul_raw(a.y@, b.y@) + mul_raw(a.z@, b.z@),
        magnitude(a.spec_dot(b)@) <= 3 * bound,
{
    lemma_mul_raw_within(a.x@, b.x@, bound_a, bound_b, bound);
    lemma_mul_raw_within(a.y@, b.y@, bound_a, bound_b, bound);
    lemma_mul_raw_within(a.z@, b.z@, bound_a, bound_b, bound);
    let qx = mul_raw(a.x@, b.x@);
    let qy = mul_raw(a.y@, b.y@);
    let qz = mul_raw(a.z@, b.z@);
    Scalar::lemma_of_raw(qx);
    Scalar::lemma_of_raw(qy);
    Scalar::lemma_of_raw(qz);
    Scalar::lemma_of_raw(qx + qy);
    Scalar::lemma_of_raw(qx + qy + qz);
}

/// The difference of two vectors whose components do not exceed 1024 is
/// exact.
proof fn lemma_sub_within(a: Vector, b: Vector, bound_a: int, bound_b: int)
    requires
        a.spec_within(bound_a),
        b.spec_within(bound_b),
        0 <= bound_a,
        0 <= bound_b,
        bound_a + bound_b <= MAX_RAW,
    ensures
        a.spec_sub(b).x@ == a.x@ - b.x@,
        a.spec_sub(b).y@ == a.y@ - b.y@,
        a.spec_sub(b).z@ == a.z@ - b.z@,
        a.spec_sub(b).spec_within(bound_a + bound_b),
{
    Scalar::lemma_of_raw(a.x@ - b.x@);
    Scalar::lemma_of_raw(a.y@ - b.y@);
    Scalar::lemma_of_raw(a.z@ - b.z@);
}

/// The coefficients of the quadratic equation for a sphere and a ray in
/// range, as sums of rounded products.
proof fn lemma_coefficients(sphere: Sphere, r: Ray)
    requires
        in_range(sphere, r),
    ensures
        ({
            let oc = sphere.center.spec_sub(r.orig);
            let a = r.dir.spec_length_squared();
            let h = r.dir.spec_dot(oc);
            let c = oc.spec_length_squared().spec_sub(sphere.radius.spec_mul(sphere.radius));
            let disc = r.spec_discriminant(sphere.center, sphere.radius);
            &&& oc.x@ == sphere.center.x@ - r.orig.x@
            &&& oc.y@ == sphere.center.y@ - r.orig.y@
            &&& oc.z@ == sphere.center.z@ - r.orig.z@
            &&& oc.spec_within(2048 * ONE_RAW)
            &&& a@ == mul_raw(r.dir.x@, r.dir.x@) + mul_raw(r.dir.y@, r.dir.y@) + mul_raw(
                r.dir.z@,
                r.dir.z@,
            )
            &&& magnitude(a@) <= 48 * ONE_RAW
            &&& h@ == mul_raw(r.dir.x@, oc.x@) + mul_raw(r.dir.y@, oc.y@) + mul_raw(
                r.dir.z@,
                oc.z@,
            )
            &&& magnitude(h@) <= 24576 * ONE_RAW
            &&& c@ == mul_raw(oc.x@, oc.x@) + mul_raw(oc.y@, oc.y@) + mul_raw(oc.z@, oc.z@)
                - mul_raw(sphere.radius@, sphere.radius@)
            &&& magnitude(c@) <= 13631488 * ONE_RAW
            &&& disc@ == mul_raw(h@, h@) - mul_raw(a@, c@)
            &&& magnitude(disc@) <= 1258291200 * ONE_RAW
        }),
{
    let s: int = 4294967296;
    lemma_sub_within(sphere.center, r.orig, 1024 * s, 1024 * s);
    let oc = sphere.center.spec_sub(r.orig);
    lemma_dot_within(r.dir, r.dir, 4 * s, 4 * s, 16 * s);
    lemma_dot_within(r.dir, oc, 4 * s, 2048 * s, 8192 * s);
    lemma_dot_within(oc, oc, 2048 * s, 2048 * s, 4194304 * s);
    let a = r.dir.spec_length_squared();
    let h = r.dir.spec_dot(oc);
    let big_c = oc.spec_length_squared();
    lemma_mul_raw_within(sphere.radius@, sphere.radius@, 1024 * s, 1024 * s, 1048576 * s);
    let big_r = mul_raw(sphere.radius@, sphere.radius@);
    Scalar::lemma_of_raw(big_r);
    Scalar::lemma_of_raw(big_c@ - big_r);
    let c = big_c.spec_sub(sphere.radius.spec_mul(sphere.radius));
    assert(c@ == big_c@ - big_r);
    lemma_mul_raw_within(h@, h@, 24576 * s, 24576 * s, 603979776 * s);
    lemma_mul_raw_within(a@, c@, 48 * s, 13631488 * s, 654311424 * s);
    let m1 = mul_raw(h@, h@);
    let m2 = mul_raw(a@, c@);
    Scalar::lemma_of_raw(m1);
    Scalar::lemma_of_raw(m2);
    Scalar::lemma_of_raw(m1 - m2);
}

/// The parameter of a hit of a sphere and a ray in range is the rounded
/// quotient of `h - sqrt(d)` or `h + sqrt(d)` by `a`, and is at most 59998
/// in magnitude.
proof fn lemma_root(sphere: Sphere, r: Ray, t: Scalar)
    requires
        in_range(sphere, r),
        sphere.spec_roots(r) matches Some((near, far)) && (t == near || t == far),
    ensures
        ({
            let oc = sphere.center.spec_sub(r.orig);
            let a = r.dir.spec_length_squared();
            let h = r.dir.spec_dot(oc);
            let disc = r.spec_discriminant(sphere.center, sphere.radius);
            let sq = disc.spec_sqrt();
            &&& disc@ >= 0
            &&& is_floor_sqrt(disc@ * ONE_RAW, sq@)
            &&& 0 <= sq@ <= 35474 * ONE_RAW
            &&& t@ == div_raw(h@ - sq@, a@) || t@ == div_raw(h@ + sq@, a@)
            &&& magnitude(t@) <= 60050 * ONE_RAW
        }),
{
    let s: int = 4294967296;
    lemma_coefficients(sphere, r);
    let oc = sphere.center.spec_sub(r.orig);
    let a = r.dir.spec_length_squared();
    let h = r.dir.spec_dot(oc);
    let disc = r.spec_discriminant(sphere.center, sphere.radius);
    assert((35474 * s) * (35474 * s) == 1258404676 * 18446744073709551616) by (nonlinear_arith)
        requires
            s == 4294967296,
    ;
    assert(disc@ * ONE_RAW <= (35474 * s) * (35474 * s)) by (nonlinear_arith)
        requires
            disc@ <= 1258291200 * 4294967296,
            (35474 * s) * (35474 * s) == 1258404676 * 18446744073709551616,
            ONE_RAW == 4294967296,
    ;
    lemma_sqrt_raw_within(disc@, 35474 * s);
    let sq = disc.spec_sqrt();
    Scalar::lemma_of_raw(crate::scalar::sqrt_raw(disc@));
    Scalar::lemma_of_raw(h@ - sq@);
    Scalar::lemma_of_raw(h@ + sq@);
    lemma_div_raw_within(h@ - sq@, a@, 1);
    lemma_div_raw_within(h@ + sq@, a@, 1);
    Scalar::lemma_of_raw(div_raw(h@ - sq@, a@));
    Scalar::lemma_of_raw(div_raw(h@ + sq@, a@));
}

/// The record of a hit of a sphere and a ray in range at a parameter of at
/// most 60050 in magnitude: the vector from the center to the point has the
/// rounded products of the direction and the parameter, less the vector from
/// the origin to the center, as its components, and the normal has the
/// squared length of the rounded quotient of that vector by the radius.
proof fn lemma_record(sphere: Sphere, r: Ray, t: Scalar)
    requires
        in_range(sphere, r),
        magnitude(t@) <= 60050 * ONE_RAW,
    ensures
        ({
            let rec = sphere.spec_record_at(r, t);
            let oc = sphere.center.spec_sub(r.orig);
            let u = rec.point.spec_sub(sphere.center);
            &&& u.x@ == mul_raw(r.dir.x@, t@) - oc.x@
            &&& u.y@ == mul_raw(r.dir.y@, t@) - oc.y@
            &&& u.z@ == mul_raw(r.dir.z@, t@) - oc.z@
            &&& rec.normal.spec_unit_defect() == div_raw(u.x@, sphere.radius@) * div_raw(
                u.x@,
                sphere.radius@,
            ) + div_raw(u.y@, sphere.radius@) * div_raw(u.y@, sphere.radius@) + div_raw(
                u.z@,
                sphere.radius@,
            ) * div_raw(u.z@, sphere.radius@) - ONE_RAW * ONE_RAW
        }),
{
    let s: int = 4294967296;
    lemma_coefficients(sphere, r);
    let rec = sphere.spec_record_at(r, t);
    let oc = sphere.center.spec_sub(r.orig);
    lemma_mul_raw_within(r.dir.x@, t@, 4 * s, 60050 * s, 240200 * s);
    lemma_mul_raw_within(r.dir.y@, t@, 4 * s, 60050 * s, 240200 * s);
    lemma_mul_raw_within(r.dir.z@, t@, 4 * s, 60050 * s, 240200 * s);
    let tx = mul_raw(r.dir.x@, t@);
    let ty = mul_raw(r.dir.y@, t@);
    let tz = mul_raw(r.dir.z@, t@);
    Scalar::lemma_of_raw(tx);
    Scalar::lemma_of_raw(ty);
    Scalar::lemma_of_raw(tz);
    Scalar::lemma_of_raw(r.orig.x@ + tx);
    Scalar::lemma_of_raw(r.orig.y@ + ty);
    Scalar::lemma_of_raw(r.orig.z@ + tz);
    let point = r.spec_at(t);
    assert(point.x@ == r.orig.x@ + tx && point.y@ == r.orig.y@ + ty && point.z@ == r.orig.z@
        + tz);
    lemma_sub_within(point, sphere.center, 241224 * s, 1024 * s);
    let u = point.spec_sub(sphere.center);
    lemma_div_raw_within(u.x@, sphere.radius@, 1024);
    lemma_div_raw_within(u.y@, sphere.radius@, 1024);
    lemma_div_raw_within(u.z@, sphere.radius@, 1024);
    let nx = div_raw(u.x@, sphere.radius@);
    let ny = div_raw(u.y@, sphere.radius@);
    let nz = div_raw(u.z@, sphere.radius@);
    Scalar::lemma_of_raw(nx);
    Scalar::lemma_of_raw(ny);
    Scalar::lemma_of_raw(nz);
    let outward = sphere.spec_outward_normal(point);
    assert(outward.x@ == nx && outward.y@ == ny && outward.z@ == nz);
    Vector::lemma_dot_opposite(r.dir, outward);
    assert((-nx) * (-nx) == nx * nx && (-ny) * (-ny) == ny * ny && (-nz) * (-nz) == nz * nz)
        by (nonlinear_arith);
}

/// A hit point lies on the sphere, and its normal has unit length, up to
/// rounding. For a sphere and a ray in range, and `t` either of the two
/// parameters at which the ray meets the sphere:
///
/// * the squared distance of the point from the center misses the squared
///   radius by at most the slack, divided by `S = 2^32`;
/// * the squared length of the normal misses one by at most `S` times the
///   slack, plus `2 S r (|ux| + |uy| + |uz|) + 3 r^2`, divided by `r^2`,
///
/// where `u` is the vector from the center to the point and `r` the
/// radius, in raw units.
pub proof fn lemma_hit_on_sphere(sphere: Sphere, r: Ray, t: Scalar)
    requires
        in_range(sphere, r),
        sphere.spec_roots(r) matches Some((near, far)) && (t == near || t == far),
    ensures
        ({
            let rec = sphere.spec_record_at(r, t);
            let u = rec.point.spec_sub(sphere.center);
            let slack = hit_slack(
                r.dir.spec_length_squared()@,
                r.spec_discriminant(sphere.center, sphere.radius).spec_sqrt()@,
                t@,
                u.x@,
                u.y@,
                u.z@,
            );
            let radius = sphere.radius@;
            &&& ONE_RAW * magnitude(distance_defect(u.x@, u.y@, u.z@, radius)) <= slack
            &&& (radius * radius) * magnitude(rec.normal.spec_unit_defect()) <= ONE_RAW * slack
                + 2 * (4294967296 * (radius * (magnitude(u.x@) + magnitude(u.y@) + magnitude(
                u.z@,
            )))) + 3 * (radius * radius)
        }),
{
    let s: int = 4294967296;
    lemma_coefficients(sphere, r);
    lemma_root(sphere, r, t);
    lemma_record(sphere, r, t);
    let rec = sphere.spec_record_at(r, t);
    let oc = sphere.center.spec_sub(r.orig);
    let u = rec.point.spec_sub(sphere.center);
    let a = r.dir.spec_length_squared();
    let h = r.dir.spec_dot(oc);
    let c = oc.spec_length_squared().spec_sub(sphere.radius.spec_mul(sphere.radius));
    let disc = r.spec_discriminant(sphere.center, sphere.radius);
    let sq = disc.spec_sqrt();
    let radius = sphere.radius@;
    // What the roundings of the products and quotients took away.
    lemma_mul_raw_within(r.dir.x@, r.dir.x@, 4 * s, 4 * s, 16 * s);
    lemma_mul_raw_within(r.dir.y@, r.dir.y@, 4 * s, 4 * s, 16 * s);
    lemma_mul_raw_within(r.dir.z@, r.dir.z@, 4 * s, 4 * s, 16 * s);
    lemma_product_sign(r.dir.x@, r.dir.x@);
    lemma_product_sign(r.dir.y@, r.dir.y@);
    lemma_product_sign(r.dir.z@, r.dir.z@);
    lemma_mul_raw_within(r.dir.x@, oc.x@, 4 * s, 2048 * s, 8192 * s);
    lemma_mul_raw_within(r.dir.y@, oc.y@, 4 * s, 2048 * s, 8192 * s);
    lemma_mul_raw_within(r.dir.z@, oc.z@, 4 * s, 2048 * s, 8192 * s);
    lemma_mul_raw_within(oc.x@, oc.x@, 2048 * s, 2048 * s, 4194304 * s);
    lemma_mul_raw_within(oc.y@, oc.y@, 2048 * s, 2048 * s, 4194304 * s);
    lemma_mul_raw_within(oc.z@, oc.z@, 2048 * s, 2048 * s, 4194304 * s);
    lemma_product_sign(oc.x@, oc.x@);
    lemma_product_sign(oc.y@, oc.y@);
    lemma_product_sign(oc.z@, oc.z@);
    lemma_mul_raw_within(r.dir.x@, t@, 4 * s, 60050 * s, 240200 * s);
    lemma_mul_raw_within(r.dir.y@, t@, 4 * s, 60050 * s, 240200 * s);
    lemma_mul_raw_within(r.dir.z@, t@, 4 * s, 60050 * s, 240200 * s);
    lemma_mul_raw_within(radius, radius, 1024 * s, 1024 * s, 1048576 * s);
    lemma_product_sign(radius, radius);
    lemma_mul_raw_within(h@, h@, 24576 * s, 24576 * s, 603979776 * s);
    lemma_mul_raw_within(a@, c@, 48 * s, 13631488 * s, 654311424 * s);
    let x = if t@ == div_raw(h@ - sq@, a@) {
        h@ - sq@
    } else {
        h@ + sq@
    };
    lemma_div_raw_within(x, a@, 1);
    lemma_hit_distance(
        r.dir.x@,
        r.dir.y@,
        r.dir.z@,
        oc.x@,
        oc.y@,
        oc.z@,
        mul_raw(r.dir.x@, r.dir.x@),
        mul_raw(r.dir.y@, r.dir.y@),
        mul_raw(r.dir.z@, r.dir.z@),
        mul_raw(r.dir.x@, oc.x@),
        mul_raw(r.dir.y@, oc.y@),
        mul_raw(r.dir.z@, oc.z@),
        mul_raw(oc.x@, oc.x@),
        mul_raw(oc.y@, oc.y@),
        mul_raw(oc.z@, oc.z@),
        mul_raw(r.dir.x@, t@),
        mul_raw(r.dir.y@, t@),
        mul_raw(r.dir.z@, t@),
        radius,
        mul_raw(radius, radius),
        mul_raw(h@, h@),
        mul_raw(a@, c@),
        sq@,
        x,
        t@,
    );
    lemma_div_raw_within(u.x@, radius, 1024);
    lemma_div_raw_within(u.y@, radius, 1024);
    lemma_div_raw_within(u.z@, radius, 1024);
    lemma_normal_defect(
        u.x@,
        u.y@,
        u.z@,
        div_raw(u.x@, radius),
        div_raw(u.y@, radius),
        div_raw(u.z@, radius),
        radius,
    );
    assert(ONE_RAW * ONE_RAW == 18446744073709551616);
}

/// Every hit that a sphere reports lies on the sphere, and its normal has
/// unit length, up to rounding, as [`lemma_hit_on_sphere`] says of the two
/// parameters at which the ray meets the sphere.
pub proof fn lemma_reported_hit_on_sphere(sphere: Sphere, r: Ray, ray_t: Interval)
    requires
        in_range(sphere, r),
        sphere.spec_hit(r, ray_t) is Some,
    ensures
        ({
            let rec = sphere.spec_hit(r, ray_t)->0;
            let u = rec.point.spec_sub(sphere.center);
            let slack = hit_slack(
                r.dir.spec_length_squared()@,
                r.spec_discriminant(sphere.center, sphere.radius).spec_sqrt()@,
                rec.t@,
                u.x@,
                u.y@,
                u.z@,
            );
            let radius = sphere.radius@;
            &&& rec.point == r.spec_at(rec.t)
            &&& ray_t.spec_surrounds(rec.t)
            &&& ONE_RAW * magnitude(distance_defect(u.x@, u.y@, u.z@, radius)) <= slack
            &&& (radius * radius) * magnitude(rec.normal.spec_unit_defect()) <= ONE_RAW * slack
                + 2 * (4294967296 * (radius * (magnitude(u.x@) + magnitude(u.y@) + magnitude(
                u.z@,
            )))) + 3 * (radius * radius)
        }),
{
    let rec = sphere.spec_hit(r, ray_t)->0;
    let (near, far) = sphere.spec_roots(r)->0;
    if ray_t.spec_surrounds(near) {
        lemma_hit_on_sphere(sphere, r, near);
    } else {
        lemma_hit_on_sphere(sphere, r, far);
    }
}

/// A direction of a ray in range has a length of at least one.
pub proof fn lemma_direction_length(sphere: Sphere, r: Ray)
    requires
        in_range(sphere, r),
    ensures
        r.dir.spec_length()@ >= ONE_RAW,
{
    let s: int = 4294967296;
    lemma_coefficients(sphere, r);
    let d = r.dir;
    lemma_mul_raw_within(d.x@, d.x@, 4 * s, 4 * s, 16 * s);
    lemma_mul_raw_within(d.y@, d.y@, 4 * s, 4 * s, 16 * s);
    lemma_mul_raw_within(d.z@, d.z@, 4 * s, 4 * s, 16 * s);
    lemma_product_sign(d.x@, d.x@);
    lemma_product_sign(d.y@, d.y@);
    lemma_product_sign(d.z@, d.z@);
    let sum = d.x@ * d.x@ + d.y@ * d.y@ + d.z@ * d.z@;
    assert(sum >= 18446744073709551616);
    crate::scalar::lemma_floor_sqrt_exists(sum);
    let root = crate::scalar::floor_sqrt(sum);
    if root < s {
        assert((root + 1) * (root + 1) <= 18446744073709551616) by (nonlinear_arith)
            requires
                0 <= root + 1 <= 4294967296,
        ;
    }
    lemma_product_magnitude(d.x@, d.x@, 4 * s, 4 * s);
    lemma_product_magnitude(d.y@, d.y@, 4 * s, 4 * s);
    lemma_product_magnitude(d.z@, d.z@, 4 * s, 4 * s);
    assert(root <= 8 * s) by (nonlinear_arith)
        requires
            0 <= root,
            root * root <= sum,
            sum <= 3 * ((4 * s) * (4 * s)),
            s == 4294967296,
    ;
    Scalar::lemma_of_raw(root);
}

} // verus!
