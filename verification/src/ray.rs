//! Rays: half-lines given by an origin and a direction.

use crate::camera::spec_background;
use crate::camera::Camera;
use crate::colour::get_colour;
use crate::colour::spec_channel;
use crate::scalar::Scalar;
use crate::vector::Vector;
use vstd::prelude::*;

verus! {

/// The points `orig + t * dir`. The direction need not have unit length.
#[derive(Clone, Copy, Debug, PartialEq, Eq, Structural)]
pub struct Ray {
    pub orig: Vector,
    pub dir: Vector,
}

impl Ray {
    /// The ray from `orig` in the direction `dir`.
    pub fn new(orig: Vector, dir: Vector) -> (r: Ray)
        ensures
            r == (Ray { orig, dir }),
    {
        Ray { orig, dir }
    }

    /// The point of the ray at parameter `t`: `orig + t dir`.
    pub open spec fn spec_at(self, t: Scalar) -> Vector {
        self.orig.spec_add(self.dir.spec_scale(t))
    }

    /// The point of the ray at parameter `t`.
    pub fn at(&self, t: Scalar) -> (p: Vector)
        ensures
            p == self.spec_at(t),
    {
        self.orig.add(self.dir.mul(t))
    }

    /// Whether the ray's direction has length zero, so that the ray is a
    /// single point.
    pub open spec fn spec_is_degenerate(self) -> bool {
        self.dir.spec_length()@ == 0
    }

    /// The discriminant of the quadratic equation for the parameters at
    /// which the ray meets the sphere around `center` with the given radius,
    /// in the half-b form: `h^2 - a c`, with `a = |dir|^2`,
    /// `h = dir . (center - orig)` and `c = |center - orig|^2 - radius^2`.
    pub open spec fn spec_discriminant(self, center: Vector, radius: Scalar) -> Scalar {
        let oc = center.spec_sub(self.orig);
        let a = self.dir.spec_length_squared();
        let h = self.dir.spec_dot(oc);
        let c = oc.spec_length_squared().spec_sub(radius.spec_mul(radius));
        h.spec_mul(h).spec_sub(a.spec_mul(c))
    }

    /// The smaller solution `(h - sqrt(d)) / a` of the quadratic equation for
    /// the sphere around `center`, or minus one where the discriminant `d` is
    /// negative or `a` vanishes.
    pub open spec fn spec_hit_sphere(self, center: Vector, radius: Scalar) -> Scalar {
        let oc = center.spec_sub(self.orig);
        let a = self.dir.spec_length_squared();
        let h = self.dir.spec_dot(oc);
        let discriminant = self.spec_discriminant(center, radius);
        if a@ == 0 || discriminant@ < 0 {
            Scalar::spec_from_int(-1)
        } else {
            h.spec_sub(discriminant.spec_sqrt()).spec_div(a)
        }
    }

    /// The smaller parameter at which the line through the ray meets the
    /// sphere around `center` with the given radius, or minus one where it
    /// does not meet it or the ray has no direction.
    pub fn hit_sphere(&self, center: Vector, radius: Scalar) -> (t: Scalar)
        ensures
            t == self.spec_hit_sphere(center, radius),
    {
        let oc = center.sub(self.orig);
        let a = self.dir.length_squared();
        let h = self.dir.dot(&oc);
        let c = oc.length_squared().sub(radius.mul(radius));
        let discriminant = h.mul(h).sub(a.mul(c));
        if a.is_zero() || discriminant.lt(Scalar::zero()) {
            Scalar::from_int(-1)
        } else {
            h.sub(discriminant.sqrt()).div(a)
        }
    }

    /// The center of the sphere that [`Ray::ray_colour`] shows.
    pub open spec fn spec_shown_center() -> Vector {
        Vector { x: Scalar::of_raw(0), y: Scalar::of_raw(0), z: Scalar::spec_from_int(-1) }
    }

    /// The colour of a point of the shown sphere whose outward normal is
    /// `n`: half of the normal plus one, in each component.
    pub open spec fn spec_normal_colour(n: Vector) -> Vector {
        let one = Scalar::spec_from_int(1);
        Vector { x: n.x.spec_add(one), y: n.y.spec_add(one), z: n.z.spec_add(one) }.spec_scale(
            Scalar::spec_from_ratio(1, 2),
        )
    }

    /// The colour that [`Ray::ray_colour`] turns into bytes.
    pub open spec fn spec_ray_colour(self) -> Vector {
        let center = Ray::spec_shown_center();
        let t = self.spec_hit_sphere(center, Scalar::spec_from_ratio(1, 2));
        if t@ > 0 {
            let outward = self.spec_at(t).spec_sub(center);
            if outward.spec_length()@ == 0 {
                Vector::spec_zero()
            } else {
                Ray::spec_normal_colour(outward.spec_unit_vector())
            }
        } else if self.spec_is_degenerate() {
            Vector::spec_zero()
        } else {
            spec_background(self)
        }
    }

    /// The colour that the ray shows of the sphere of radius one half
    /// around `(0, 0, -1)` before the sky: a colour that tells the normal of
    /// the sphere where the ray hits it, and the colour of the sky where it
    /// does not. Black where the normal or the ray has no direction.
    pub fn ray_colour(&self) -> (rgb: (u8, u8, u8))
        ensures
            rgb.0 == spec_channel(self.spec_ray_colour().x),
            rgb.1 == spec_channel(self.spec_ray_colour().y),
            rgb.2 == spec_channel(self.spec_ray_colour().z),
    {
        let center = Vector::new(Scalar::zero(), Scalar::zero(), Scalar::from_int(-1));
        let t = self.hit_sphere(center, Scalar::from_ratio(1, 2));
        if t.gt(Scalar::zero()) {
            let outward = self.at(t).sub(center);
            if outward.length().is_zero() {
                return get_colour(&Vector::zero());
            }
            let n = outward.unit_vector();
            let one = Scalar::from_int(1);
            get_colour(
                &Vector::new(n.x.add(one), n.y.add(one), n.z.add(one)).mul(Scalar::from_ratio(1, 2)),
            )
        } else if self.dir.length().is_zero() {
            get_colour(&Vector::zero())
        } else {
            get_colour(&Camera::background(self))
        }
    }
}

} // verus!
