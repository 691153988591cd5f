//! What a ray can hit, and the record of a hit.

use crate::interval::Interval;
use crate::material::Lambertian;
use crate::material::MaterialKind;
use crate::ray::Ray;
use crate::scalar::Scalar;
use crate::vector::Vector;
use std::rc::Rc;
use vstd::prelude::*;

verus! {

/// Where and how a ray met a surface.
pub struct HitRecord {
    /// The point of the surface that was hit.
    pub point: Vector,
    /// The surface normal at that point, on the side the ray came from.
    pub normal: Vector,
    /// The ray's parameter at that point.
    pub t: Scalar,
    /// The material of the surface, shared with the surface.
    pub mat: Rc<MaterialKind>,
    /// Whether the ray came from outside the surface.
    pub front_face: bool,
}

/// Another handle to a shared material, by `Rc::clone`: it points to the
/// same material, which is not copied.
#[verifier::external_body]
pub(crate) fn share(mat: &Rc<MaterialKind>) -> (r: Rc<MaterialKind>)
    ensures
        r == *mat,
{
    Rc::clone(mat)
}

impl HitRecord {
    /// The record with the given entries.
    pub fn new(
        point: Vector,
        normal: Vector,
        mat: Rc<MaterialKind>,
        t: Scalar,
        front_face: bool,
    ) -> (r: HitRecord)
        ensures
            r == (HitRecord { point, normal, t, mat, front_face }),
    {
        HitRecord { point, normal, t, mat, front_face }
    }

    /// The record that is all zero, with a black diffuse material.
    pub open spec fn spec_empty() -> HitRecord {
        HitRecord {
            point: Vector::spec_zero(),
            normal: Vector::spec_zero(),
            mat: Rc::new(MaterialKind::Lambertian(Lambertian { albedo: Vector::spec_zero() })),
            t: Scalar::of_raw(0),
            front_face: false,
        }
    }

    /// A record to be overwritten by a hit: all zero, with a black diffuse
    /// material.
    pub fn new_empty() -> (r: HitRecord)
        ensures
            r == HitRecord::spec_empty(),
    {
        HitRecord {
            point: Vector::zero(),
            normal: Vector::zero(),
            mat: Rc::new(MaterialKind::Lambertian(Lambertian { albedo: Vector::zero() })),
            t: Scalar::zero(),
            front_face: false,
        }
    }

    /// Whether a ray meets a surface with outward normal `v` from outside:
    /// its direction and the normal have a negative inner product.
    pub open spec fn spec_front_face(r: Ray, v: Vector) -> bool {
        r.dir.spec_dot(v)@ < 0
    }

    /// The normal on the side that the ray `r` comes from, of a surface with
    /// outward normal `v`.
    pub open spec fn spec_face_normal(r: Ray, v: Vector) -> Vector {
        if HitRecord::spec_front_face(r, v) {
            v
        } else {
            v.spec_scale(Scalar::spec_from_int(-1))
        }
    }

    /// Records on which side the ray `r` met the surface whose outward
    /// normal at the point is `v`, and stores the normal on that side. The
    /// stored normal never has a positive inner product with the ray's
    /// direction.
    pub fn set_face_normal(&mut self, r: &Ray, v: Vector)
        ensures
            final(self).front_face == HitRecord::spec_front_face(*r, v),
            final(self).normal == HitRecord::spec_face_normal(*r, v),
            r.dir.spec_dot(final(self).normal)@ <= 0,
            final(self).point == old(self).point,
            final(self).t == old(self).t,
            final(self).mat == old(self).mat,
    {
        self.front_face = r.dir.dot(&v).lt(Scalar::zero());
        self.normal = if self.front_face {
            v
        } else {
            v.mul(Scalar::from_int(-1))
        };
        proof {
            use_type_invariant(&v.x);
            use_type_invariant(&v.y);
            use_type_invariant(&v.z);
            Vector::lemma_dot_opposite(r.dir, v);
        }
    }
}

/// A surface that rays can hit.
pub trait Hittable {
    /// The hit that the surface reports for the ray `r` with its parameter
    /// strictly inside `ray_t`, if there is one.
    spec fn spec_hit(&self, r: Ray, ray_t: Interval) -> Option<HitRecord>;

    /// The parameter of a reported hit lies strictly inside the interval
    /// that was asked for.
    proof fn lemma_hit_surrounded(&self, r: Ray, ray_t: Interval)
        ensures
            self.spec_hit(r, ray_t) matches Some(rec) ==> ray_t.spec_surrounds(rec.t),
    ;

    /// The normal of a reported hit faces the ray: it never has a positive
    /// inner product with the ray's direction.
    proof fn lemma_hit_faces_ray(&self, r: Ray, ray_t: Interval)
        ensures
            self.spec_hit(r, ray_t) matches Some(rec) ==> r.dir.spec_dot(rec.normal)@ <= 0,
    ;

    /// The reported hit is the nearest one: with a lower upper end of the
    /// interval, the same hit is reported as long as it lies below that end,
    /// and none otherwise.
    proof fn lemma_hit_nearest(&self, r: Ray, ray_t: Interval, bound: Scalar)
        requires
            bound@ <= ray_t.max@,
        ensures
            self.spec_hit(r, Interval { min: ray_t.min, max: bound }) == (match self.spec_hit(
                r,
                ray_t,
            ) {
                Some(rec) => if rec.t@ < bound@ {
                    Some(rec)
                } else {
                    None
                },
                None => None,
            }),
    ;

    /// Looks for a hit of the ray `r` with its parameter strictly inside
    /// `ray_t`. Writes it to `hit_rec` and returns `true` if there is one;
    /// leaves `hit_rec` as it was and returns `false` if there is none.
    fn hit(&self, r: &Ray, ray_t: Interval, hit_rec: &mut HitRecord) -> (res: bool)
        ensures
            res == self.spec_hit(*r, ray_t).is_some(),
            res ==> Some(*final(hit_rec)) == self.spec_hit(*r, ray_t),
            res ==> ray_t.spec_surrounds(final(hit_rec).t),
            res ==> r.dir.spec_dot(final(hit_rec).normal)@ <= 0,
            !res ==> *final(hit_rec) == *old(hit_rec),
    ;
}

} // verus!
