//! Spheres.

use crate::hittable::share;
use crate::hittable::HitRecord;
use crate::hittable::Hittable;
use crate::interval::Interval;
use crate::material::MaterialKind;
use crate::ray::Ray;
use crate::scalar::Scalar;
use crate::vector::Vector;
use std::rc::Rc;
use vstd::prelude::*;

verus! {

/// A sphere of one material. A sphere whose radius is not positive is
/// never hit.
pub struct Sphere {
    pub center: Vector,
    pub radius: Scalar,
    pub mat: Rc<MaterialKind>,
}

impl Sphere {
    /// The sphere around `center` with the given radius, or with radius zero
    /// where a negative one is given, made of `mat`.
    pub fn new(center: Vector, radius: Scalar, mat: Rc<MaterialKind>) -> (s: Sphere)
        ensures
            s.center == center,
            s.radius == radius.spec_max(Scalar::of_raw(0)),
            s.mat == mat,
    {
        Sphere { center, radius: radius.max(Scalar::zero()), mat }
    }

    /// The two parameters at which the line through the ray `r` meets the
    /// sphere, the smaller first. By the quadratic formula in its half-b
    /// form they are `(h - sqrt(d)) / a` and `(h + sqrt(d)) / a`, where
    /// `a = |dir|^2`, `h = dir . (center - orig)` and `d` is the
    /// discriminant. There are none where `d` is negative, the ray has no
    /// direction or the sphere has no positive radius.
    pub open spec fn spec_roots(self, r: Ray) -> Option<(Scalar, Scalar)> {
        let oc = self.center.spec_sub(r.orig);
        let a = r.dir.spec_length_squared();
        let h = r.dir.spec_dot(oc);
        let discriminant = r.spec_discriminant(self.center, self.radius);
        if self.radius@ <= 0 || a@ <= 0 || discriminant@ < 0 {
            None
        } else {
            let sqrtd = discriminant.spec_sqrt();
            Some((h.spec_sub(sqrtd).spec_div(a), h.spec_add(sqrtd).spec_div(a)))
        }
    }

    /// The outward normal of the sphere at `point`: the vector from the
    /// center to the point, divided by the radius.
    pub open spec fn spec_outward_normal(self, point: Vector) -> Vector {
        point.spec_sub(self.center).spec_div(self.radius)
    }

    /// The record of the ray `r` hitting the sphere at parameter `t`.
    pub open spec fn spec_record_at(self, r: Ray, t: Scalar) -> HitRecord {
        let point = r.spec_at(t);
        let outward_normal = self.spec_outward_normal(point);
        HitRecord {
            point,
            normal: HitRecord::spec_face_normal(r, outward_normal),
            t,
            mat: self.mat,
            front_face: HitRecord::spec_front_face(r, outward_normal),
        }
    }

    /// The smaller of the two parameters is the smaller.
    pub proof fn lemma_roots_ordered(self, r: Ray)
        ensures
            self.spec_roots(r) matches Some((near, far)) ==> near@ <= far@,
    {
        broadcast use crate::scalar::group_scalar;

        if self.spec_roots(r) is Some {
            let oc = self.center.spec_sub(r.orig);
            let a = r.dir.spec_length_squared();
            let h = r.dir.spec_dot(oc);
            let discriminant = r.spec_discriminant(self.center, self.radius);
            crate::scalar::lemma_sqrt_nonnegative(discriminant@);
            let sqrtd = discriminant.spec_sqrt();
            assert(h.spec_sub(sqrtd)@ <= h.spec_add(sqrtd)@);
            crate::scalar::lemma_div_monotone(h.spec_sub(sqrtd)@, h.spec_add(sqrtd)@, a@);
        }
    }
}

impl Hittable for Sphere {
    /// The hit at the smaller of the two parameters if it lies strictly
    /// inside `ray_t`, else at the larger one if that does.
    open spec fn spec_hit(&self, r: Ray, ray_t: Interval) -> Option<HitRecord> {
        match self.spec_roots(r) {
            None => None,
            Some((near, far)) => if ray_t.spec_surrounds(near) {
                Some(self.spec_record_at(r, near))
            } else if ray_t.spec_surrounds(far) {
                Some(self.spec_record_at(r, far))
            } else {
                None
            },
        }
    }

    proof fn lemma_hit_surrounded(&self, r: Ray, ray_t: Interval) {
    }

    proof fn lemma_hit_faces_ray(&self, r: Ray, ray_t: Interval) {
        broadcast use crate::scalar::group_scalar;

        match self.spec_hit(r, ray_t) {
            Some(rec) => {
                let outward = self.spec_outward_normal(rec.point);
                Vector::lemma_dot_opposite(r.dir, outward);
            },
            None => {},
        }
    }

    proof fn lemma_hit_nearest(&self, r: Ray, ray_t: Interval, bound: Scalar) {
        self.lemma_roots_ordered(r);
    }

    fn hit(&self, r: &Ray, ray_t: Interval, hit: &mut HitRecord) -> (res: bool)
        ensures
            res ==> final(hit).point == r.spec_at(final(hit).t),
            res ==> final(hit).front_face == HitRecord::spec_front_face(
                *r,
                self.spec_outward_normal(final(hit).point),
            ),
            res ==> final(hit).mat == self.mat,
    {
        let oc = self.center.sub(r.orig);
        let a = r.dir.length_squared();
        let h = r.dir.dot(&oc);
        let c = oc.length_squared().sub(self.radius.mul(self.radius));
        let discriminant = h.mul(h).sub(a.mul(c));
        if self.radius.le(Scalar::zero()) || a.le(Scalar::zero()) || discriminant.lt(Scalar::zero()) {
            return false;
        }
        let sqrtd = discriminant.sqrt();

        let mut root = h.sub(sqrtd).div(a);
        if !ray_t.surrounds(root) {
            root = h.add(sqrtd).div(a);
            if !ray_t.surrounds(root) {
                return false;
            }
        }
        hit.t = root;
        hit.point = r.at(hit.t);
        let outward_normal: Vector = hit.point.sub(self.center).div(self.radius);
        hit.set_face_normal(r, outward_normal);
        hit.mat = share(&self.mat);

        true
    }
}

} // verus!
