//! Three-component vectors of fixed-point scalars.

use crate::scalar::lemma_mul_raw_commutes;
use crate::scalar::lemma_mul_raw_small;
use crate::scalar::lemma_mul_raw_two;
use crate::scalar::lemma_product_magnitude;
use crate::scalar::lemma_product_sign;
use crate::scalar::magnitude;
use crate::scalar::mul_raw;
use crate::scalar::Scalar;
use crate::scalar::MAX_RAW;
use crate::scalar::NEAR_ZERO_RAW;
use crate::scalar::REFLECT_BOUND_RAW;
use crate::scalar::ONE_RAW;
use crate::utility;
use crate::utility::MAX_DRAWS;
use vstd::prelude::*;

verus! {

/// A point, a direction or a colour: three scalars.
#[derive(Clone, Copy, Debug, PartialEq, Eq, Structural)]
pub struct Vector {
    pub x: Scalar,
    pub y: Scalar,
    pub z: Scalar,
}

impl Vector {
    /// All three components are well-formed scalars.
    pub open spec fn wf(self) -> bool {
        self.x.wf() && self.y.wf() && self.z.wf()
    }

    /// The vector with the given components.
    pub fn new(x: Scalar, y: Scalar, z: Scalar) -> (v: Vector)
        ensures
            v == (Vector { x, y, z }),
    {
        Vector { x, y, z }
    }

    /// The vector with all components zero.
    pub open spec fn spec_zero() -> Vector {
        Vector { x: Scalar::of_raw(0), y: Scalar::of_raw(0), z: Scalar::of_raw(0) }
    }

    /// The vector with all components zero.
    pub fn zero() -> (v: Vector)
        ensures
            v == Vector::spec_zero(),
    {
        Vector { x: Scalar::zero(), y: Scalar::zero(), z: Scalar::zero() }
    }

    /// The vector with all components one.
    pub open spec fn spec_ones() -> Vector {
        Vector {
            x: Scalar::spec_from_int(1),
            y: Scalar::spec_from_int(1),
            z: Scalar::spec_from_int(1),
        }
    }

    /// The vector with all components one.
    pub fn ones() -> (v: Vector)
        ensures
            v == Vector::spec_ones(),
    {
        Vector { x: Scalar::from_int(1), y: Scalar::from_int(1), z: Scalar::from_int(1) }
    }

    /// The three components.
    pub fn get_vector(&self) -> (r: (Scalar, Scalar, Scalar))
        ensures
            r == (self.x, self.y, self.z),
    {
        (self.x, self.y, self.z)
    }

    /// Component-wise sum.
    pub open spec fn spec_add(self, v: Vector) -> Vector {
        Vector { x: self.x.spec_add(v.x), y: self.y.spec_add(v.y), z: self.z.spec_add(v.z) }
    }

    /// Component-wise difference.
    pub open spec fn spec_sub(self, v: Vector) -> Vector {
        Vector { x: self.x.spec_sub(v.x), y: self.y.spec_sub(v.y), z: self.z.spec_sub(v.z) }
    }

    /// The vector with every component multiplied by `i`.
    pub open spec fn spec_scale(self, i: Scalar) -> Vector {
        Vector { x: self.x.spec_mul(i), y: self.y.spec_mul(i), z: self.z.spec_mul(i) }
    }

    /// Component-wise product.
    pub open spec fn spec_mul(self, rhs: Vector) -> Vector {
        Vector { x: self.x.spec_mul(rhs.x), y: self.y.spec_mul(rhs.y), z: self.z.spec_mul(rhs.z) }
    }

    /// The vector with every component divided by `i`.
    pub open spec fn spec_div(self, i: Scalar) -> Vector {
        Vector { x: self.x.spec_div(i), y: self.y.spec_div(i), z: self.z.spec_div(i) }
    }

    /// The inner product: the sum of the products of the components, added
    /// up from the first.
    pub open spec fn spec_dot(self, v: Vector) -> Scalar {
        self.x.spec_mul(v.x).spec_add(self.y.spec_mul(v.y)).spec_add(self.z.spec_mul(v.z))
    }

    /// Inner product.
    pub fn dot(&self, v: &Vector) -> (r: Scalar)
        ensures
            r == self.spec_dot(*v),
    {
        self.x.mul(v.x).add(self.y.mul(v.y)).add(self.z.mul(v.z))
    }

    /// The inner product of the vector with itself.
    pub open spec fn spec_length_squared(self) -> Scalar {
        self.spec_dot(self)
    }

    /// Inner product of the vector with itself.
    pub fn length_squared(&self) -> (r: Scalar)
        ensures
            r == self.spec_length_squared(),
    {
        self.x.mul(self.x).add(self.y.mul(self.y)).add(self.z.mul(self.z))
    }

    /// The Euclidean length, from the exact sum of the squared components.
    pub open spec fn spec_length(self) -> Scalar {
        Scalar::spec_norm(self.x, self.y, self.z)
    }

    /// Euclidean length, from the exact sum of the squared components.
    pub fn length(&self) -> (r: Scalar)
        ensures
            r == self.spec_length(),
    {
        Scalar::norm(self.x, self.y, self.z)
    }

    /// The vector divided by its length.
    pub open spec fn spec_unit_vector(self) -> Vector {
        self.spec_div(self.spec_length())
    }

    /// The vector scaled to unit length. A vector of length zero has no
    /// direction and is left out.
    pub fn unit_vector(&self) -> (r: Vector)
        requires
            self.spec_length()@ != 0,
        ensures
            r == self.spec_unit_vector(),
    {
        self.div(self.length())
    }

    /// Whether every component is smaller in magnitude than the threshold
    /// `10^-8`.
    pub open spec fn spec_near_zero(self) -> bool {
        &&& magnitude(self.x@) < NEAR_ZERO_RAW
        &&& magnitude(self.y@) < NEAR_ZERO_RAW
        &&& magnitude(self.z@) < NEAR_ZERO_RAW
    }

    /// Whether the vector all but vanishes: every component is smaller in
    /// magnitude than the threshold `10^-8`.
    pub fn near_zero(&self) -> (r: bool)
        ensures
            r == self.spec_near_zero(),
    {
        let s = Scalar::from_raw(NEAR_ZERO_RAW);
        self.x.abs().lt(s) && self.y.abs().lt(s) && self.z.abs().lt(s)
    }

    /// The vector product.
    pub open spec fn spec_cross(self, v: Vector) -> Vector {
        Vector {
            x: self.y.spec_mul(v.z).spec_sub(self.z.spec_mul(v.y)),
            y: self.z.spec_mul(v.x).spec_sub(self.x.spec_mul(v.z)),
            z: self.x.spec_mul(v.y).spec_sub(self.y.spec_mul(v.x)),
        }
    }

    /// Vector product.
    pub fn cross(&self, v: &Vector) -> (r: Vector)
        ensures
            r == self.spec_cross(*v),
    {
        Vector::new(
            self.y.mul(v.z).sub(self.z.mul(v.y)),
            self.z.mul(v.x).sub(self.x.mul(v.z)),
            self.x.mul(v.y).sub(self.y.mul(v.x)),
        )
    }

    /// The opposite of a vector.
    pub open spec fn spec_opposite(self) -> Vector {
        self.spec_scale(Scalar::spec_from_int(-1))
    }

    /// The mirror image of the vector in the plane with normal `n`:
    /// `v - 2 (v . n) n`.
    pub open spec fn spec_reflect(self, n: Vector) -> Vector {
        self.spec_sub(n.spec_scale(self.spec_dot(n).spec_mul(Scalar::spec_from_int(2))))
    }

    /// The mirror image of the vector in the plane with normal `n`:
    /// `v - 2 (v . n) n`.
    pub fn reflect(&self, n: Vector) -> (r: Vector)
        ensures
            r == self.spec_reflect(n),
    {
        self.sub(n.mul(self.dot(&n).mul(Scalar::from_int(2))))
    }

    /// The refracted direction by Snell's law. With `cos` the inner product
    /// of the opposite vector and `n`, at most one, the part across the normal
    /// is `ratio (v + cos n)`, and the part along it is `-sqrt(|1 - p|) n` for
    /// the squared length `p` of the part across.
    pub open spec fn spec_refract(self, n: Vector, etai_over_etat: Scalar) -> Vector {
        let cos_theta = self.spec_opposite().spec_dot(n).spec_min(Scalar::spec_from_int(1));
        let r_out_perp = self.spec_add(n.spec_scale(cos_theta)).spec_scale(etai_over_etat);
        let r_out_parallel = n.spec_scale(
            Scalar::spec_from_int(1).spec_sub(
                r_out_perp.spec_length_squared(),
            ).spec_abs().spec_sqrt().spec_neg(),
        );
        r_out_perp.spec_add(r_out_parallel)
    }

    /// The direction of the vector after it crosses a surface with normal
    /// `n` between media whose refractive indices have the given ratio, by
    /// Snell's law: the part across the normal is scaled by the ratio, and the
    /// part along the normal makes the length up to one.
    pub fn refract(&self, n: Vector, etai_over_etat: Scalar) -> (r: Vector)
        ensures
            r == self.spec_refract(n, etai_over_etat),
    {
        let cos_theta = self.mul(Scalar::from_int(-1)).dot(&n).min(Scalar::from_int(1));
        let r_out_perp = self.add(n.mul(cos_theta)).mul(etai_over_etat);
        let r_out_parallel = n.mul(
            Scalar::from_int(1).sub(r_out_perp.length_squared()).abs().sqrt().neg(),
        );
        r_out_perp.add(r_out_parallel)
    }

    /// Whether every component lies in `[0, 1)`.
    pub open spec fn in_unit_cube(self) -> bool {
        &&& 0 <= self.x@ < ONE_RAW
        &&& 0 <= self.y@ < ONE_RAW
        &&& 0 <= self.z@ < ONE_RAW
    }

    /// Whether every component lies in `[-1, 1)`.
    pub open spec fn in_centered_cube(self) -> bool {
        &&& -ONE_RAW <= self.x@ < ONE_RAW
        &&& -ONE_RAW <= self.y@ < ONE_RAW
        &&& -ONE_RAW <= self.z@ < ONE_RAW
    }

    /// A vector with each component drawn from `[0, 1)`.
    pub fn random_df() -> (r: Vector)
        ensures
            r.in_unit_cube(),
    {
        Vector { x: utility::random_df(), y: utility::random_df(), z: utility::random_df() }
    }

    /// Whether every component lies in `[min, max)`.
    pub open spec fn in_cube(self, min: Scalar, max: Scalar) -> bool {
        &&& min@ <= self.x@ < max@
        &&& min@ <= self.y@ < max@
        &&& min@ <= self.z@ < max@
    }

    /// A vector with each component drawn from `[min, max)`, which must not
    /// be empty.
    pub fn random(min: Scalar, max: Scalar) -> (r: Vector)
        requires
            min@ < max@,
        ensures
            r.in_cube(min, max),
    {
        Vector {
            x: utility::random(min, max),
            y: utility::random(min, max),
            z: utility::random(min, max),
        }
    }

    /// What a candidate `p` for a unit vector becomes: it is taken, and
    /// scaled to unit length, when its squared length is positive and at
    /// most one.
    pub open spec fn spec_unit_from_candidate(p: Vector) -> Option<Vector> {
        let lensq = p.spec_length_squared();
        if 0 < lensq@ <= ONE_RAW {
            Some(p.spec_unit_vector())
        } else {
            None
        }
    }

    /// A vector whose squared length does not vanish has a length.
    pub proof fn lemma_length_positive(self)
        requires
            self.spec_length_squared()@ != 0,
        ensures
            self.spec_length()@ > 0,
    {
        broadcast use crate::scalar::group_scalar;

        lemma_product_sign(self.x@, self.x@);
        lemma_product_sign(self.y@, self.y@);
        lemma_product_sign(self.z@, self.z@);
        let sum = self.x@ * self.x@ + self.y@ * self.y@ + self.z@ * self.z@;
        if self.x@ == 0 && self.y@ == 0 && self.z@ == 0 {
            assert(self.spec_length_squared()@ == 0);
        }
        assert(sum >= 1) by (nonlinear_arith)
            requires
                sum == self.x@ * self.x@ + self.y@ * self.y@ + self.z@ * self.z@,
                self.x@ != 0 || self.y@ != 0 || self.z@ != 0,
        ;
        crate::scalar::lemma_floor_sqrt_exists(sum);
        let root = crate::scalar::floor_sqrt(sum);
        assert(crate::scalar::is_floor_sqrt(sum, root));
        assert(root >= 1);
        assert(self.spec_length()@ == crate::scalar::saturate(root));
    }

    /// Takes or rejects one candidate for a unit vector.
    pub fn unit_from_candidate(p: Vector) -> (r: Option<Vector>)
        ensures
            r == Vector::spec_unit_from_candidate(p),
    {
        broadcast use crate::scalar::group_scalar;

        let lensq = p.length_squared();
        if Scalar::zero().lt(lensq) && lensq.le(Scalar::one()) {
            proof {
                p.lemma_length_positive();
            }
            Some(p.unit_vector())
        } else {
            None
        }
    }

    /// Whether `u` is what some candidate from the cube `[-1, 1)^3` becomes.
    pub open spec fn is_unit_sample(u: Vector) -> bool {
        exists|p: Vector|
            p.wf() && p.in_centered_cube() && #[trigger] Vector::spec_unit_from_candidate(p)
                == Some(u)
    }

    /// Whether `r` is what the candidates `drawn`, taken one after another,
    /// give: there are between one and `MAX_DRAWS` of them, each from the
    /// cube `[-1, 1)^3`; all but the last were rejected; `r` is what the last
    /// one becomes; and `r` is `None` only where `MAX_DRAWS` were drawn.
    pub open spec fn is_unit_draw_of(drawn: Seq<Vector>, r: Option<Vector>) -> bool {
        &&& 1 <= drawn.len() <= MAX_DRAWS
        &&& forall|i: int|
            0 <= i < drawn.len() ==> (#[trigger] drawn[i]).wf() && drawn[i].in_centered_cube()
        &&& forall|i: int|
            0 <= i < drawn.len() - 1 ==> Vector::spec_unit_from_candidate(#[trigger] drawn[i])
                is None
        &&& r == Vector::spec_unit_from_candidate(drawn.last())
        &&& r is None ==> drawn.len() == MAX_DRAWS
    }

    /// Whether `r` is what drawing a unit vector may give: the first of up
    /// to `MAX_DRAWS` candidates from the cube `[-1, 1)^3` that is taken,
    /// scaled to unit length, or `None` where `MAX_DRAWS` candidates were
    /// rejected.
    pub open spec fn is_unit_draw(r: Option<Vector>) -> bool {
        exists|drawn: Seq<Vector>| Vector::is_unit_draw_of(drawn, r)
    }

    /// A vector of unit length in a random direction: candidates are drawn
    /// from the cube `[-1, 1)^3` until one is taken, which is one whose
    /// squared length is positive and at most one, and the one taken is
    /// scaled to unit length. `None` if `MAX_DRAWS` candidates in a row were
    /// rejected.
    pub fn random_unit_vector() -> (r: Option<Vector>)
        ensures
            Vector::is_unit_draw(r),
            r matches Some(u) ==> Vector::is_unit_sample(u),
    {
        broadcast use crate::scalar::group_scalar;

        let ghost mut drawn: Seq<Vector> = Seq::empty();
        let mut i: u32 = 0;
        while i < MAX_DRAWS
            invariant
                i <= MAX_DRAWS,
                drawn.len() == i,
                forall|k: int|
                    0 <= k < drawn.len() ==> (#[trigger] drawn[k]).wf()
                        && drawn[k].in_centered_cube(),
                forall|k: int|
                    0 <= k < drawn.len() ==> Vector::spec_unit_from_candidate(#[trigger] drawn[k])
                        is None,
            decreases MAX_DRAWS - i,
        {
            let p = Vector::random(Scalar::from_int(-1), Scalar::from_int(1));
            let taken = Vector::unit_from_candidate(p);
            proof {
                use_type_invariant(&p.x);
                use_type_invariant(&p.y);
                use_type_invariant(&p.z);
                drawn = drawn.push(p);
            }
            if taken.is_some() {
                assert(Vector::is_unit_draw_of(drawn, taken));
                return taken;
            }
            i = i + 1;
        }
        assert(Vector::is_unit_draw_of(drawn, None));
        None
    }

    /// Whether `u` is a unit sample or the opposite of one, whichever has a
    /// positive inner product with `normal`.
    pub open spec fn is_hemisphere_sample(normal: Vector, u: Vector) -> bool {
        exists|s: Vector| #[trigger]
            Vector::is_unit_sample(s) && u == s.spec_toward(normal)
    }

    /// The vector itself where it has a positive inner product with
    /// `normal`, else its opposite.
    pub open spec fn spec_toward(self, normal: Vector) -> Vector {
        if self.spec_dot(normal)@ > 0 {
            self
        } else {
            self.spec_opposite()
        }
    }

    /// What a drawn unit vector becomes on the side of the surface that
    /// `normal` points to: it is turned to that side, and `None` stays `None`.
    pub open spec fn spec_on_hemisphere(normal: Vector, unit: Option<Vector>) -> Option<Vector> {
        match unit {
            Some(u) => Some(u.spec_toward(normal)),
            None => None,
        }
    }

    /// A random unit vector on the side of the surface that the normal
    /// `self` points to: a unit vector is drawn and turned to that side.
    /// `None` where no unit vector could be drawn, and only there.
    pub fn random_on_hemisphere(&self) -> (r: Option<Vector>)
        ensures
            exists|unit: Option<Vector>|
                Vector::is_unit_draw(unit) && r == #[trigger] Vector::spec_on_hemisphere(
                    *self,
                    unit,
                ),
            r matches Some(u) ==> Vector::is_hemisphere_sample(*self, u),
    {
        let unit = Vector::random_unit_vector();
        let r = match unit {
            Some(on_unit_sphere) => {
                if on_unit_sphere.dot(self).gt(Scalar::zero()) {
                    Some(on_unit_sphere)
                } else {
                    Some(on_unit_sphere.mul(Scalar::from_int(-1)))
                }
            },
            None => None,
        };
        assert(r == Vector::spec_on_hemisphere(*self, unit));
        r
    }

    /// Whether `p` lies in the plane `z = 0`, with `x` and `y` in `[-1, 1)`.
    pub open spec fn in_unit_square(self) -> bool {
        &&& -ONE_RAW <= self.x@ < ONE_RAW
        &&& -ONE_RAW <= self.y@ < ONE_RAW
        &&& self.z@ == 0
    }

    /// Whether a candidate for a point of the unit disk is taken: its
    /// squared length is below one.
    pub open spec fn spec_in_unit_disk(self) -> bool {
        self.spec_length_squared()@ < ONE_RAW
    }

    /// Takes or rejects one candidate for a point of the unit disk.
    pub fn in_unit_disk(&self) -> (r: bool)
        ensures
            r == self.spec_in_unit_disk(),
    {
        self.length_squared().lt(Scalar::one())
    }

    /// What a candidate `p` for a point of the unit disk becomes: it is
    /// taken as it is when its squared length is below one.
    pub open spec fn spec_disk_from_candidate(p: Vector) -> Option<Vector> {
        if p.spec_in_unit_disk() {
            Some(p)
        } else {
            None
        }
    }

    /// Whether `r` is what the candidates `drawn`, taken one after another,
    /// give: there are between one and `MAX_DRAWS` of them, each from the
    /// square around the unit disk; all but the last were rejected; `r` is
    /// what the last one becomes; and `r` is `None` only where `MAX_DRAWS`
    /// were drawn.
    pub open spec fn is_disk_draw_of(drawn: Seq<Vector>, r: Option<Vector>) -> bool {
        &&& 1 <= drawn.len() <= MAX_DRAWS
        &&& forall|i: int| 0 <= i < drawn.len() ==> (#[trigger] drawn[i]).in_unit_square()
        &&& forall|i: int|
            0 <= i < drawn.len() - 1 ==> !(#[trigger] drawn[i]).spec_in_unit_disk()
        &&& r == Vector::spec_disk_from_candidate(drawn.last())
        &&& r is None ==> drawn.len() == MAX_DRAWS
    }

    /// Whether `r` is what drawing a point of the unit disk may give: the
    /// first of up to `MAX_DRAWS` candidates from the square around the disk
    /// that lies in it, or `None` where `MAX_DRAWS` candidates were rejected.
    pub open spec fn is_disk_draw(r: Option<Vector>) -> bool {
        exists|drawn: Seq<Vector>| Vector::is_disk_draw_of(drawn, r)
    }

    /// A random point of the unit disk in the plane `z = 0`: candidates are
    /// drawn from the square around it until one is taken. `None` if
    /// `MAX_DRAWS` candidates in a row were rejected.
    pub fn random_in_unit_disk() -> (r: Option<Vector>)
        ensures
            Vector::is_disk_draw(r),
            r matches Some(p) ==> p.in_unit_square() && p.spec_in_unit_disk(),
    {
        broadcast use crate::scalar::group_scalar;

        let ghost mut drawn: Seq<Vector> = Seq::empty();
        let mut i: u32 = 0;
        while i < MAX_DRAWS
            invariant
                i <= MAX_DRAWS,
                drawn.len() == i,
                forall|k: int| 0 <= k < drawn.len() ==> (#[trigger] drawn[k]).in_unit_square(),
                forall|k: int| 0 <= k < drawn.len() ==> !(#[trigger] drawn[k]).spec_in_unit_disk(),
            decreases MAX_DRAWS - i,
        {
            let p = Vector::new(
                utility::random(Scalar::from_int(-1), Scalar::from_int(1)),
                utility::random(Scalar::from_int(-1), Scalar::from_int(1)),
                Scalar::zero(),
            );
            proof {
                drawn = drawn.push(p);
            }
            if p.in_unit_disk() {
                assert(Vector::is_disk_draw_of(drawn, Some(p)));
                return Some(p);
            }
            i = i + 1;
        }
        assert(Vector::is_disk_draw_of(drawn, None));
        None
    }

    /// Scaling by minus one negates each component exactly, and the inner
    /// product with the opposite vector is the opposite inner product.
    pub proof fn lemma_dot_opposite(d: Vector, v: Vector)
        requires
            v.wf(),
        ensures
            v.spec_opposite().x@ == -v.x@,
            v.spec_opposite().y@ == -v.y@,
            v.spec_opposite().z@ == -v.z@,
            v.spec_opposite().wf(),
            d.spec_dot(v.spec_opposite())@ == -d.spec_dot(v)@,
    {
        broadcast use crate::scalar::group_scalar;

        crate::scalar::lemma_mul_minus_one(v.x@);
        crate::scalar::lemma_mul_minus_one(v.y@);
        crate::scalar::lemma_mul_minus_one(v.z@);
        crate::scalar::lemma_mul_odd(d.x@, v.x@);
        crate::scalar::lemma_mul_odd(d.y@, v.y@);
        crate::scalar::lemma_mul_odd(d.z@, v.z@);
    }

    /// How far the squared length of a vector is from one: the exact sum of
    /// the squares of its raw components, less the square of the raw one.
    pub open spec fn spec_unit_defect(self) -> int {
        self.x@ * self.x@ + self.y@ * self.y@ + self.z@ * self.z@ - ONE_RAW * ONE_RAW
    }

    /// Whether no component exceeds `bound` raw units in magnitude.
    pub open spec fn spec_within(self, bound: int) -> bool {
        &&& -bound <= self.x@ <= bound
        &&& -bound <= self.y@ <= bound
        &&& -bound <= self.z@ <= bound
    }

    /// The inner product with a vector whose components do not exceed one
    /// is the sum of the rounded products of the components, as long as
    /// three times the largest component of `self` can be held.
    pub proof fn lemma_dot_exact(self, n: Vector, bound: int)
        requires
            self.spec_within(bound),
            n.spec_within(ONE_RAW as int),
            0 <= 3 * bound <= MAX_RAW,
        ensures
            self.spec_dot(n)@ == mul_raw(self.x@, n.x@) + mul_raw(self.y@, n.y@) + mul_raw(
                self.z@,
                n.z@,
            ),
            magnitude(self.spec_dot(n)@) <= 3 * bound,
    {
        lemma_mul_raw_small(self.x@, n.x@);
        lemma_mul_raw_small(self.y@, n.y@);
        lemma_mul_raw_small(self.z@, n.z@);
        let qx = mul_raw(self.x@, n.x@);
        let qy = mul_raw(self.y@, n.y@);
        let qz = mul_raw(self.z@, n.z@);
        Scalar::lemma_of_raw(qx);
        Scalar::lemma_of_raw(qy);
        Scalar::lemma_of_raw(qz);
        Scalar::lemma_of_raw(qx + qy);
        Scalar::lemma_of_raw(qx + qy + qz);
    }

    /// The components of the mirror image of `v` in the plane with normal
    /// `n`, as long as nothing saturates: those of `v`, less the rounded
    /// products of those of `n` with twice the inner product.
    pub proof fn lemma_reflect_exact(v: Vector, n: Vector)
        requires
            n.spec_within(ONE_RAW as int),
            v.spec_within(REFLECT_BOUND_RAW as int),
        ensures
            v.spec_reflect(n).x@ == v.x@ - mul_raw(2 * v.spec_dot(n)@, n.x@),
            v.spec_reflect(n).y@ == v.y@ - mul_raw(2 * v.spec_dot(n)@, n.y@),
            v.spec_reflect(n).z@ == v.z@ - mul_raw(2 * v.spec_dot(n)@, n.z@),
            v.spec_reflect(n).spec_within(7 * REFLECT_BOUND_RAW),
    {
        v.lemma_dot_exact(n, REFLECT_BOUND_RAW as int);
        let d = v.spec_dot(n)@;
        lemma_mul_raw_two(d);
        let t = 2 * d;
        Scalar::lemma_of_raw(2 * ONE_RAW);
        Scalar::lemma_of_raw(t);
        assert(v.spec_dot(n).spec_mul(Scalar::spec_from_int(2))@ == t);
        lemma_mul_raw_commutes(n.x@, t);
        lemma_mul_raw_commutes(n.y@, t);
        lemma_mul_raw_commutes(n.z@, t);
        lemma_mul_raw_small(t, n.x@);
        lemma_mul_raw_small(t, n.y@);
        lemma_mul_raw_small(t, n.z@);
        Scalar::lemma_of_raw(mul_raw(t, n.x@));
        Scalar::lemma_of_raw(mul_raw(t, n.y@));
        Scalar::lemma_of_raw(mul_raw(t, n.z@));
        Scalar::lemma_of_raw(v.x@ - mul_raw(t, n.x@));
        Scalar::lemma_of_raw(v.y@ - mul_raw(t, n.y@));
        Scalar::lemma_of_raw(v.z@ - mul_raw(t, n.z@));
    }

    /// The law of reflection: the mirror image of `v` in the plane with unit
    /// normal `n` has the opposite inner product with `n`.
    ///
    /// With rounding, the two inner products are opposite up to nine raw
    /// units, and up to twice the inner product times the defect of `n`'s
    /// squared length from one. The components of `n` must not exceed one,
    /// and those of `v` must be small enough that nothing saturates.
    pub proof fn lemma_reflect_law(v: Vector, n: Vector)
        requires
            n.spec_within(ONE_RAW as int),
            v.spec_within(REFLECT_BOUND_RAW as int),
        ensures
            ONE_RAW * ONE_RAW * magnitude(v.spec_reflect(n).spec_dot(n)@ + v.spec_dot(n)@) <= 9
                * ONE_RAW * ONE_RAW + 2 * magnitude(v.spec_dot(n)@) * magnitude(
                n.spec_unit_defect(),
            ),
    {
        let r = v.spec_reflect(n);
        v.lemma_dot_exact(n, REFLECT_BOUND_RAW as int);
        Vector::lemma_reflect_exact(v, n);
        r.lemma_dot_exact(n, 7 * REFLECT_BOUND_RAW);
        let d = v.spec_dot(n)@;
        lemma_mul_raw_small(v.x@, n.x@);
        lemma_mul_raw_small(v.y@, n.y@);
        lemma_mul_raw_small(v.z@, n.z@);
        lemma_mul_raw_small(2 * d, n.x@);
        lemma_mul_raw_small(2 * d, n.y@);
        lemma_mul_raw_small(2 * d, n.z@);
        lemma_mul_raw_small(r.x@, n.x@);
        lemma_mul_raw_small(r.y@, n.y@);
        lemma_mul_raw_small(r.z@, n.z@);
        lemma_reflect_rounding(
            v.x@,
            v.y@,
            v.z@,
            n.x@,
            n.y@,
            n.z@,
            mul_raw(v.x@, n.x@),
            mul_raw(v.y@, n.y@),
            mul_raw(v.z@, n.z@),
            mul_raw(2 * d, n.x@),
            mul_raw(2 * d, n.y@),
            mul_raw(2 * d, n.z@),
            mul_raw(r.x@, n.x@),
            mul_raw(r.y@, n.y@),
            mul_raw(r.z@, n.z@),
        );
    }

    /// The exact sum of the squares of the raw components: the squared
    /// length, before it is rounded.
    pub open spec fn spec_square_sum(self) -> int {
        self.x@ * self.x@ + self.y@ * self.y@ + self.z@ * self.z@
    }

    /// A mirror image is as long as what is mirrored: the squared lengths
    /// of `v` and of its mirror image in the plane with unit normal `n` agree
    /// up to rounding.
    ///
    /// With `d` the inner product of `v` and `n`, the exact sums of squares
    /// differ by at most `24 |d| + 2 (|vx| + |vy| + |vz|) + 3` raw units, and
    /// by four times the square of `d` times the defect of `n`'s squared
    /// length from one. The components of `n` must not exceed one, and those
    /// of `v` must be small enough that nothing saturates.
    pub proof fn lemma_reflect_length(v: Vector, n: Vector)
        requires
            n.spec_within(ONE_RAW as int),
            v.spec_within(REFLECT_BOUND_RAW as int),
        ensures
            18446744073709551616 * magnitude(v.spec_reflect(n).spec_square_sum() - v.spec_square_sum())
                <= 18446744073709551616 * (24 * magnitude(v.spec_dot(n)@) + 2 * (magnitude(v.x@)
                + magnitude(v.y@) + magnitude(v.z@)) + 3) + 4 * ((v.spec_dot(n)@ * v.spec_dot(
                n,
            )@) * magnitude(n.spec_unit_defect())),
    {
        let r = v.spec_reflect(n);
        v.lemma_dot_exact(n, REFLECT_BOUND_RAW as int);
        Vector::lemma_reflect_exact(v, n);
        let d = v.spec_dot(n)@;
        lemma_mul_raw_small(v.x@, n.x@);
        lemma_mul_raw_small(v.y@, n.y@);
        lemma_mul_raw_small(v.z@, n.z@);
        lemma_mul_raw_small(2 * d, n.x@);
        lemma_mul_raw_small(2 * d, n.y@);
        lemma_mul_raw_small(2 * d, n.z@);
        lemma_reflect_length_rounding(
            v.x@,
            v.y@,
            v.z@,
            n.x@,
            n.y@,
            n.z@,
            mul_raw(v.x@, n.x@),
            mul_raw(v.y@, n.y@),
            mul_raw(v.z@, n.z@),
            mul_raw(2 * d, n.x@),
            mul_raw(2 * d, n.y@),
            mul_raw(2 * d, n.z@),
        );
    }

    /// Component-wise sum.
    pub fn add(self, v: Vector) -> (r: Vector)
        ensures
            r == self.spec_add(v),
    {
        Vector { x: self.x.add(v.x), y: self.y.add(v.y), z: self.z.add(v.z) }
    }

    /// Component-wise difference.
    pub fn sub(self, v: Vector) -> (r: Vector)
        ensures
            r == self.spec_sub(v),
    {
        Vector { x: self.x.sub(v.x), y: self.y.sub(v.y), z: self.z.sub(v.z) }
    }

    /// The vector with every component multiplied by `i`.
    pub fn mul(self, i: Scalar) -> (r: Vector)
        ensures
            r == self.spec_scale(i),
    {
        Vector { x: self.x.mul(i), y: self.y.mul(i), z: self.z.mul(i) }
    }

    /// Component-wise product.
    pub fn mul_vector(self, rhs: Vector) -> (r: Vector)
        ensures
            r == self.spec_mul(rhs),
    {
        Vector { x: self.x.mul(rhs.x), y: self.y.mul(rhs.y), z: self.z.mul(rhs.z) }
    }

    /// The vector with every component divided by `i`.
    pub fn div(self, i: Scalar) -> (r: Vector)
        ensures
            r == self.spec_div(i),
    {
        Vector { x: self.x.div(i), y: self.y.div(i), z: self.z.div(i) }
    }
}

/// How products with `n` spread over the differences in the law of
/// reflection.
proof fn lemma_distribute(v: int, m: int, t: int, s: int, d: int, n: int)
    requires
        t == 2 * d,
    ensures
        (v - m) * n == v * n - m * n,
        (t * n - s * m) * n == 2 * (d * (n * n)) - s * (m * n),
{
    assert((v - m) * n == v * n - m * n) by (nonlinear_arith);
    assert((t * n - s * m) * n == (t * n) * n - (s * m) * n) by (nonlinear_arith);
    assert((t * n) * n == 2 * (d * (n * n))) by (nonlinear_arith)
        requires
            t == 2 * d,
    ;
    assert((s * m) * n == s * (m * n)) by (nonlinear_arith);
}

/// The law of reflection over the integers: where `q`, `m` and `p` are the
/// products that make up the inner product of `v` and `n`, the scaled normal
/// and the inner product of the mirror image and `n`, each rounded by less
/// than one, the two inner products are opposite up to nine, and up to
/// twice the first times the defect of `n`'s squared length from one.
proof fn lemma_reflect_rounding(
    vx: int,
    vy: int,
    vz: int,
    nx: int,
    ny: int,
    nz: int,
    qx: int,
    qy: int,
    qz: int,
    mx: int,
    my: int,
    mz: int,
    px: int,
    py: int,
    pz: int,
)
    requires
        -ONE_RAW <= nx <= ONE_RAW,
        -ONE_RAW <= ny <= ONE_RAW,
        -ONE_RAW <= nz <= ONE_RAW,
        -ONE_RAW < vx * nx - ONE_RAW * qx < ONE_RAW,
        -ONE_RAW < vy * ny - ONE_RAW * qy < ONE_RAW,
        -ONE_RAW < vz * nz - ONE_RAW * qz < ONE_RAW,
        -ONE_RAW < (2 * (qx + qy + qz)) * nx - ONE_RAW * mx < ONE_RAW,
        -ONE_RAW < (2 * (qx + qy + qz)) * ny - ONE_RAW * my < ONE_RAW,
        -ONE_RAW < (2 * (qx + qy + qz)) * nz - ONE_RAW * mz < ONE_RAW,
        -ONE_RAW < (vx - mx) * nx - ONE_RAW * px < ONE_RAW,
        -ONE_RAW < (vy - my) * ny - ONE_RAW * py < ONE_RAW,
        -ONE_RAW < (vz - mz) * nz - ONE_RAW * pz < ONE_RAW,
    ensures
        ONE_RAW * ONE_RAW * magnitude((px + py + pz) + (qx + qy + qz)) <= 9 * ONE_RAW * ONE_RAW + 2
            * magnitude(qx + qy + qz) * magnitude(nx * nx + ny * ny + nz * nz - ONE_RAW * ONE_RAW),
{
    let s: int = 4294967296;
    let d = qx + qy + qz;
    let t = 2 * d;
    let e = px + py + pz;
    let defect = nx * nx + ny * ny + nz * nz - ONE_RAW * ONE_RAW;
    lemma_distribute(vx, mx, t, s, d, nx);
    lemma_distribute(vy, my, t, s, d, ny);
    lemma_distribute(vz, mz, t, s, d, nz);
    assert(ONE_RAW * ONE_RAW == 18446744073709551616);
    assert(d * defect == d * (nx * nx) + d * (ny * ny) + d * (nz * nz) - d
        * 18446744073709551616) by (nonlinear_arith)
        requires
            defect == nx * nx + ny * ny + nz * nz - 18446744073709551616,
    ;
    let rho = (vx * nx - s * qx) + (vy * ny - s * qy) + (vz * nz - s * qz);
    let tau = ((vx - mx) * nx - s * px) + ((vy - my) * ny - s * py) + ((vz - mz) * nz - s * pz);
    let sigma_x = (t * nx - s * mx) * nx;
    let sigma_y = (t * ny - s * my) * ny;
    let sigma_z = (t * nz - s * mz) * nz;
    let err = s * rho - 2 * (d * defect) + (sigma_x + sigma_y + sigma_z) - s * tau;
    assert(18446744073709551616 * (e + d) == err);
    lemma_product_magnitude(t * nx - s * mx, nx, s, s);
    lemma_product_magnitude(t * ny - s * my, ny, s, s);
    lemma_product_magnitude(t * nz - s * mz, nz, s, s);
    lemma_product_sign(d, defect);
    assert(s * s == 18446744073709551616);
    assert(magnitude(err) <= 9 * 18446744073709551616 + 2 * (magnitude(d) * magnitude(defect)));
    assert(ONE_RAW * ONE_RAW * magnitude(e + d) == magnitude(err)) by (nonlinear_arith)
        requires
            ONE_RAW * ONE_RAW == 18446744073709551616,
            18446744073709551616 * (e + d) == err,
    ;
    assert(9 * ONE_RAW * ONE_RAW == 9 * 18446744073709551616) by (nonlinear_arith)
        requires
            ONE_RAW * ONE_RAW == 18446744073709551616,
    ;
    assert(2 * magnitude(d) * magnitude(defect) == 2 * (magnitude(d) * magnitude(defect)))
        by (nonlinear_arith);
}

/// One component's share in the length of a mirror image: with `m` the
/// rounded product of `t` and `n` and `k = t n - S m`,
/// `S (v m) = t (v n) - v k` and `S^2 m^2 = t^2 n^2 - 2 (t n) k + k^2`.
proof fn lemma_reflect_length_terms(v: int, n: int, m: int, t: int)
    ensures
        ({
            let k = t * n - 4294967296 * m;
            &&& 4294967296 * (v * m) == t * (v * n) - v * k
            &&& 18446744073709551616 * (m * m) == (t * t) * (n * n) - 2 * ((t * n) * k) + k * k
            &&& (v - m) * (v - m) == v * v - 2 * (v * m) + m * m
        }),
{
    let s: int = 4294967296;
    let k = t * n - s * m;
    assert(s * (v * m) == t * (v * n) - v * k) by (nonlinear_arith)
        requires
            k == t * n - s * m,
    ;
    assert((s * m) * (s * m) == 18446744073709551616 * (m * m)) by (nonlinear_arith)
        requires
            s == 4294967296,
    ;
    let u = t * n;
    assert((u - k) * (u - k) == u * u - 2 * (u * k) + k * k) by (nonlinear_arith);
    assert(u * u == (t * t) * (n * n)) by (nonlinear_arith)
        requires
            u == t * n,
    ;
    assert((v - m) * (v - m) == v * v - 2 * (v * m) + m * m) by (nonlinear_arith);
}

/// How large the terms are that rounding adds to the length of a mirror
/// image, by component.
proof fn lemma_reflect_length_bounds(v: int, n: int, m: int, t: int)
    requires
        -ONE_RAW <= n <= ONE_RAW,
        -ONE_RAW < t * n - ONE_RAW * m < ONE_RAW,
    ensures
        ({
            let k = t * n - 4294967296 * m;
            &&& magnitude(v * k) <= 4294967296 * magnitude(v)
            &&& magnitude((t * n) * k) <= 18446744073709551616 * magnitude(t)
            &&& 0 <= k * k <= 18446744073709551616
        }),
{
    let s: int = 4294967296;
    let k = t * n - s * m;
    let u = t * n;
    lemma_product_magnitude(v, k, magnitude(v), s);
    lemma_product_magnitude(t, n, magnitude(t), s);
    lemma_product_magnitude(u, k, magnitude(t) * s, s);
    assert((magnitude(t) * s) * s == 18446744073709551616 * magnitude(t)) by (nonlinear_arith)
        requires
            s == 4294967296,
    ;
    lemma_product_magnitude(k, k, s, s);
    lemma_product_sign(k, k);
}

/// What the squares of `v - m` miss of adding up to those of `v`, times
/// `S^2`, in terms of what the roundings took away.
proof fn lemma_reflect_length_identity(
    vx: int,
    vy: int,
    vz: int,
    nx: int,
    ny: int,
    nz: int,
    qx: int,
    qy: int,
    qz: int,
    mx: int,
    my: int,
    mz: int,
)
    ensures
        ({
            let s: int = 4294967296;
            let d = qx + qy + qz;
            let t = 2 * d;
            let after = (vx - mx) * (vx - mx) + (vy - my) * (vy - my) + (vz - mz) * (vz - mz);
            let before = vx * vx + vy * vy + vz * vz;
            let defect = nx * nx + ny * ny + nz * nz - 18446744073709551616;
            let rho = (vx * nx - s * qx) + (vy * ny - s * qy) + (vz * nz - s * qz);
            let kx = t * nx - s * mx;
            let ky = t * ny - s * my;
            let kz = t * nz - s * mz;
            18446744073709551616 * (after - before) == 4 * ((d * d) * defect) - 2 * ((t * nx)
                * kx + (t * ny) * ky + (t * nz) * kz) + (kx * kx + ky * ky + kz * kz) - 2 * (s * (t
                * rho)) + 2 * (s * (vx * kx + vy * ky + vz * kz))
        }),
{
    let s: int = 4294967296;
    let d = qx + qy + qz;
    let t = 2 * d;
    lemma_reflect_length_terms(vx, nx, mx, t);
    lemma_reflect_length_terms(vy, ny, my, t);
    lemma_reflect_length_terms(vz, nz, mz, t);
    let defect = nx * nx + ny * ny + nz * nz - 18446744073709551616;
    let rho = (vx * nx - s * qx) + (vy * ny - s * qy) + (vz * nz - s * qz);
    let inner = vx * nx + vy * ny + vz * nz;
    assert(inner == s * d + rho);
    assert(t * inner == t * (vx * nx) + t * (vy * ny) + t * (vz * nz)) by (nonlinear_arith)
        requires
            inner == vx * nx + vy * ny + vz * nz,
    ;
    assert(t * inner == 2 * (s * (d * d)) + t * rho) by (nonlinear_arith)
        requires
            inner == s * d + rho,
            t == 2 * d,
    ;
    let tt = t * t;
    assert(tt == 4 * (d * d)) by (nonlinear_arith)
        requires
            tt == t * t,
            t == 2 * d,
    ;
    assert(tt * (nx * nx) + tt * (ny * ny) + tt * (nz * nz) == tt * (defect
        + 18446744073709551616)) by (nonlinear_arith)
        requires
            defect + 18446744073709551616 == nx * nx + ny * ny + nz * nz,
    ;
    assert(tt * (defect + 18446744073709551616) == 4 * ((d * d) * defect) + 4 * (
    18446744073709551616 * (d * d))) by (nonlinear_arith)
        requires
            tt == 4 * (d * d),
    ;
    let kx = t * nx - s * mx;
    let ky = t * ny - s * my;
    let kz = t * nz - s * mz;
    let cross = vx * mx + vy * my + vz * mz;
    let squares = mx * mx + my * my + mz * mz;
    assert(s * cross == 2 * (s * (d * d)) + t * rho - (vx * kx + vy * ky + vz * kz));
    assert(18446744073709551616 * squares == 4 * ((d * d) * defect) + 4 * (18446744073709551616
        * (d * d)) - 2 * ((t * nx) * kx + (t * ny) * ky + (t * nz) * kz) + (kx * kx + ky * ky + kz
        * kz));
}

/// The length of a mirror image over the integers: where `q` and `m` are
/// the products that make up the inner product of `v` and `n` and the
/// normal scaled by twice the inner product, each rounded by less than one,
/// the squares of `v - m` add up to those of `v`, up to what the roundings
/// took away and to the defect of `n`'s squared length from one.
proof fn lemma_reflect_length_rounding(
    vx: int,
    vy: int,
    vz: int,
    nx: int,
    ny: int,
    nz: int,
    qx: int,
    qy: int,
    qz: int,
    mx: int,
    my: int,
    mz: int,
)
    requires
        -ONE_RAW <= nx <= ONE_RAW,
        -ONE_RAW <= ny <= ONE_RAW,
        -ONE_RAW <= nz <= ONE_RAW,
        -ONE_RAW < vx * nx - ONE_RAW * qx < ONE_RAW,
        -ONE_RAW < vy * ny - ONE_RAW * qy < ONE_RAW,
        -ONE_RAW < vz * nz - ONE_RAW * qz < ONE_RAW,
        -ONE_RAW < (2 * (qx + qy + qz)) * nx - ONE_RAW * mx < ONE_RAW,
        -ONE_RAW < (2 * (qx + qy + qz)) * ny - ONE_RAW * my < ONE_RAW,
        -ONE_RAW < (2 * (qx + qy + qz)) * nz - ONE_RAW * mz < ONE_RAW,
    ensures
        ({
            let d = qx + qy + qz;
            let after = (vx - mx) * (vx - mx) + (vy - my) * (vy - my) + (vz - mz) * (vz - mz);
            let before = vx * vx + vy * vy + vz * vz;
            18446744073709551616 * magnitude(after - before) <= 18446744073709551616 * (24
                * magnitude(d) + 2 * (magnitude(vx) + magnitude(vy) + magnitude(vz)) + 3) + 4 * ((d
                * d) * magnitude(nx * nx + ny * ny + nz * nz - ONE_RAW * ONE_RAW))
        }),
{
    let s: int = 4294967296;
    let d = qx + qy + qz;
    let t = 2 * d;
    lemma_reflect_length_identity(vx, vy, vz, nx, ny, nz, qx, qy, qz, mx, my, mz);
    lemma_reflect_length_bounds(vx, nx, mx, t);
    lemma_reflect_length_bounds(vy, ny, my, t);
    lemma_reflect_length_bounds(vz, nz, mz, t);
    assert(ONE_RAW * ONE_RAW == 18446744073709551616);
    let defect = nx * nx + ny * ny + nz * nz - 18446744073709551616;
    let rho = (vx * nx - s * qx) + (vy * ny - s * qy) + (vz * nz - s * qz);
    lemma_product_magnitude(t, rho, 2 * magnitude(d), 3 * s);
    assert((2 * magnitude(d)) * (3 * s) == 6 * (s * magnitude(d))) by (nonlinear_arith);
    lemma_product_sign(d, d);
    lemma_product_sign(d * d, defect);
    assert(magnitude(t) == 2 * magnitude(d));
}

} // verus!
