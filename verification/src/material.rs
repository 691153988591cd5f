//! Materials: how a surface scatters the rays that hit it.

use crate::contact::hit_slack;
use crate::contact::in_range;
use crate::contact::lemma_direction_length;
use crate::contact::lemma_reported_hit_on_sphere;
use crate::hittable::HitRecord;
use crate::hittable::Hittable;
use crate::interval::Interval;
use crate::ray::Ray;
use crate::refraction::is_nearly_unit;
use crate::refraction::lemma_refract_unit_ratio;
use crate::refraction::lemma_refract_unit_ratio_within;
use crate::refraction::lemma_unit_vector_nearly_unit;
use crate::refraction::UNIT_DEFECT_RAW;
use crate::refraction::REFRACT_TOLERANCE_RAW;
use crate::scalar::lemma_mul_raw_commutes;
use crate::scalar::lemma_mul_raw_one;
use crate::scalar::lemma_mul_raw_small;
use crate::scalar::lemma_product_sign;
use crate::scalar::magnitude;
use crate::scalar::Scalar;
use crate::scalar::ONE_RAW;
use crate::sphere::Sphere;
use crate::utility;
use crate::vector::Vector;
use vstd::prelude::*;

verus! {

/// The random numbers that one scattering may use.
#[derive(Clone, Copy, Debug)]
pub struct Draw {
    /// A random unit vector, or `None` where none could be drawn.
    pub unit: Option<Vector>,
    /// A random scalar of `[0, 1)`.
    pub chance: Scalar,
}

impl Draw {
    /// Whether the numbers are such as the samplers give.
    pub open spec fn wf(self) -> bool {
        &&& self.unit matches Some(u) ==> Vector::is_unit_sample(u)
        &&& 0 <= self.chance@ < ONE_RAW
    }
}

/// Whether a scattering that returned `res` and left `attenuation` and
/// `scattered` behind is the `outcome`: with `Some`, the ray was scattered
/// with that attenuation and as that ray; with `None`, it was absorbed.
pub open spec fn is_outcome(
    outcome: Option<(Vector, Ray)>,
    res: bool,
    attenuation: Vector,
    scattered: Ray,
) -> bool {
    match outcome {
        Some((a, s)) => res && attenuation == a && scattered == s,
        None => !res,
    }
}

/// A material decides what becomes of a ray that hits a surface.
pub trait Material {
    /// What becomes of the ray `r_in` that hit as `rec` says, for the random
    /// numbers `draw`: the attenuation and the scattered ray, or `None` where
    /// the ray is absorbed.
    spec fn spec_scatter(&self, r_in: Ray, rec: HitRecord, draw: Draw) -> Option<(Vector, Ray)>;

    /// Scatters the ray `r_in` with the random numbers `draw`. Returns
    /// whether the ray is scattered, and if so writes the attenuation and the
    /// scattered ray.
    fn scatter_with(
        &self,
        r_in: &Ray,
        rec: &HitRecord,
        draw: &Draw,
        attenuation: &mut Vector,
        scattered: &mut Ray,
    ) -> (res: bool)
        requires
            !r_in.spec_is_degenerate(),
        ensures
            is_outcome(
                self.spec_scatter(*r_in, *rec, *draw),
                res,
                *final(attenuation),
                *final(scattered),
            ),
    ;

    /// Scatters the ray `r_in` with random numbers of its own drawing.
    fn scatter(
        &self,
        r_in: &Ray,
        rec: &HitRecord,
        attenuation: &mut Vector,
        scattered: &mut Ray,
    ) -> (res: bool)
        requires
            !r_in.spec_is_degenerate(),
        ensures
            exists|draw: Draw|
                draw.wf() && is_outcome(
                    #[trigger] self.spec_scatter(*r_in, *rec, draw),
                    res,
                    *final(attenuation),
                    *final(scattered),
                ),
    ;
}

/// A diffuse material.
#[derive(Clone, Copy, Debug, PartialEq, Eq, Structural)]
pub struct Lambertian {
    /// The share of the incoming light that is scattered, by colour channel.
    pub albedo: Vector,
}

impl Lambertian {
    /// The direction in which a ray is scattered from a surface with the
    /// given normal: the normal plus the random unit vector, or the normal
    /// alone where there is no such vector or the sum all but vanishes.
    pub open spec fn spec_direction(normal: Vector, unit: Option<Vector>) -> Vector {
        let scatter_direction = match unit {
            Some(u) => normal.spec_add(u),
            None => normal,
        };
        if scatter_direction.spec_near_zero() {
            normal
        } else {
            scatter_direction
        }
    }
}

impl Material for Lambertian {
    /// Always scatters, from the point that was hit, with the albedo as
    /// attenuation.
    open spec fn spec_scatter(&self, r_in: Ray, rec: HitRecord, draw: Draw) -> Option<
        (Vector, Ray),
    > {
        Some(
            (
                self.albedo,
                Ray { orig: rec.point, dir: Lambertian::spec_direction(rec.normal, draw.unit) },
            ),
        )
    }

    fn scatter_with(
        &self,
        _r_in: &Ray,
        rec: &HitRecord,
        draw: &Draw,
        attenuation: &mut Vector,
        scattered: &mut Ray,
    ) -> (res: bool)
        ensures
            res,
    {
        let mut scatter_direction = match draw.unit {
            Some(u) => rec.normal.add(u),
            None => rec.normal,
        };

        if scatter_direction.near_zero() {
            scatter_direction = rec.normal;
        }
        *scattered = Ray::new(rec.point, scatter_direction);
        *attenuation = self.albedo;
        true
    }

    fn scatter(
        &self,
        r_in: &Ray,
        rec: &HitRecord,
        attenuation: &mut Vector,
        scattered: &mut Ray,
    ) -> (res: bool)
        ensures
            res,
            *final(attenuation) == self.albedo,
            final(scattered).orig == rec.point,
    {
        let draw = Draw { unit: Vector::random_unit_vector(), chance: Scalar::zero() };
        self.scatter_with(r_in, rec, &draw, attenuation, scattered)
    }
}

/// A mirror, which may be blurred.
#[derive(Clone, Copy, Debug, PartialEq, Eq, Structural)]
pub struct Metal {
    /// The share of the incoming light that is reflected, by colour channel.
    pub albedo: Vector,
    /// How far a reflected ray may stray from the mirror direction.
    pub fuzz: Scalar,
}

impl Metal {
    /// The direction in which a ray with direction `dir` leaves a surface
    /// with the given normal: its mirror image, plus the random unit vector
    /// scaled by the fuzz where there is such a vector.
    pub open spec fn spec_direction(self, dir: Vector, normal: Vector, unit: Option<Vector>) -> Vector {
        match unit {
            Some(u) => dir.spec_reflect(normal).spec_add(u.spec_scale(self.fuzz)),
            None => dir.spec_reflect(normal),
        }
    }

    /// The ray that leaves the surface, whether it is kept or absorbed: from
    /// the point that was hit, in the direction that `spec_direction` gives.
    pub open spec fn spec_scattered(self, r_in: Ray, rec: HitRecord, draw: Draw) -> Ray {
        Ray { orig: rec.point, dir: self.spec_direction(r_in.dir, rec.normal, draw.unit) }
    }
}

impl Metal {
    /// A mirror without fuzz reflects by the law of reflection, whatever the
    /// random numbers are: the scattered ray has the mirror image of the
    /// incoming direction as its direction, and the outcome is the same for
    /// all random numbers.
    pub proof fn lemma_mirror_is_deterministic(
        self,
        r_in: Ray,
        rec: HitRecord,
        draw: Draw,
        other: Draw,
    )
        requires
            self.fuzz@ == 0,
        ensures
            self.spec_direction(r_in.dir, rec.normal, draw.unit) == r_in.dir.spec_reflect(
                rec.normal,
            ),
            self.spec_scatter(r_in, rec, draw) == self.spec_scatter(r_in, rec, other),
            self.spec_scatter(r_in, rec, draw) matches Some((attenuation, scattered)) ==> {
                &&& attenuation == self.albedo
                &&& scattered.orig == rec.point
                &&& scattered.dir == r_in.dir.spec_reflect(rec.normal)
            },
    {
        self.lemma_no_fuzz(r_in.dir, rec.normal, draw.unit);
        self.lemma_no_fuzz(r_in.dir, rec.normal, other.unit);
    }

    /// Without fuzz the random unit vector adds nothing to the mirror image.
    proof fn lemma_no_fuzz(self, dir: Vector, normal: Vector, unit: Option<Vector>)
        requires
            self.fuzz@ == 0,
        ensures
            self.spec_direction(dir, normal, unit) == dir.spec_reflect(normal),
    {
        broadcast use crate::scalar::group_scalar;

        let reflected = dir.spec_reflect(normal);
        match unit {
            Some(u) => {
                lemma_product_sign(u.x@, 0);
                lemma_product_sign(u.y@, 0);
                lemma_product_sign(u.z@, 0);
                let blur = u.spec_scale(self.fuzz);
                assert(blur.x@ == 0 && blur.y@ == 0 && blur.z@ == 0);
                let sum = reflected.spec_add(blur);
                Scalar::lemma_view_injective(sum.x, reflected.x);
                Scalar::lemma_view_injective(sum.y, reflected.y);
                Scalar::lemma_view_injective(sum.z, reflected.z);
            },
            None => {},
        }
    }
}

impl Material for Metal {
    /// Scatters, from the point that was hit and with the albedo as
    /// attenuation, where the new direction points away from the surface;
    /// absorbs the ray where it does not.
    open spec fn spec_scatter(&self, r_in: Ray, rec: HitRecord, draw: Draw) -> Option<
        (Vector, Ray),
    > {
        let scattered = self.spec_scattered(r_in, rec, draw);
        if scattered.dir.spec_dot(rec.normal)@ > 0 {
            Some((self.albedo, scattered))
        } else {
            None
        }
    }

    fn scatter_with(
        &self,
        r_in: &Ray,
        rec: &HitRecord,
        draw: &Draw,
        attenuation: &mut Vector,
        scattered: &mut Ray,
    ) -> (res: bool)
        ensures
            *final(attenuation) == self.albedo,
            *final(scattered) == self.spec_scattered(*r_in, *rec, *draw),
            res == (final(scattered).dir.spec_dot(rec.normal)@ > 0),
            self.fuzz@ == 0 ==> final(scattered).dir == r_in.dir.spec_reflect(rec.normal),
    {
        let reflected = match draw.unit {
            Some(u) => r_in.dir.reflect(rec.normal).add(u.mul(self.fuzz)),
            None => r_in.dir.reflect(rec.normal),
        };
        *scattered = Ray::new(rec.point, reflected);
        *attenuation = self.albedo;
        proof {
            if self.fuzz@ == 0 {
                self.lemma_no_fuzz(r_in.dir, rec.normal, draw.unit);
            }
        }
        scattered.dir.dot(&rec.normal).gt(Scalar::zero())
    }

    /// Whether the ray is kept or absorbed, the attenuation is the albedo and
    /// the ray that is written starts at the point that was hit, in the
    /// mirror direction plus the fuzz times the unit vector that was drawn.
    /// The ray is kept exactly where that direction points away from the
    /// surface. Without fuzz the direction is the mirror direction whatever
    /// was drawn.
    fn scatter(
        &self,
        r_in: &Ray,
        rec: &HitRecord,
        attenuation: &mut Vector,
        scattered: &mut Ray,
    ) -> (res: bool)
        ensures
            *final(attenuation) == self.albedo,
            final(scattered).orig == rec.point,
            exists|draw: Draw|
                draw.wf() && *final(scattered) == #[trigger] self.spec_scattered(
                    *r_in,
                    *rec,
                    draw,
                ),
            res == (final(scattered).dir.spec_dot(rec.normal)@ > 0),
            self.fuzz@ == 0 ==> final(scattered).dir == r_in.dir.spec_reflect(rec.normal),
    {
        let draw = Draw { unit: Vector::random_unit_vector(), chance: Scalar::zero() };
        let res = self.scatter_with(r_in, rec, &draw, attenuation, scattered);
        assert(*scattered == self.spec_scattered(*r_in, *rec, draw));
        res
    }
}

/// A clear material such as glass or water.
#[derive(Clone, Copy, Debug, PartialEq, Eq, Structural)]
pub struct Dialetric {
    /// The material's refractive index, relative to that of its
    /// surroundings.
    pub refraction_index: Scalar,
}

impl Dialetric {
    /// Schlick's approximation of the reflectance:
    /// `r0 + (1 - r0) (1 - cosine)^5` with `r0 = ((1 - ri) / (1 + ri))^2`.
    pub open spec fn spec_reflectance(cosine: Scalar, refraction_index: Scalar) -> Scalar {
        let one = Scalar::spec_from_int(1);
        let ratio = one.spec_sub(refraction_index).spec_div(one.spec_add(refraction_index));
        let r0 = ratio.spec_mul(ratio);
        r0.spec_add(one.spec_sub(r0).spec_mul(one.spec_sub(cosine).spec_powi(5)))
    }

    /// The share of the light that a surface reflects, by Schlick's
    /// approximation: `r0 + (1 - r0) (1 - cosine)^5` with
    /// `r0 = ((1 - ri) / (1 + ri))^2`.
    pub fn reflectance(cosine: Scalar, refraction_index: Scalar) -> (r: Scalar)
        ensures
            r == Dialetric::spec_reflectance(cosine, refraction_index),
    {
        let one = Scalar::from_int(1);
        let mut r0 = one.sub(refraction_index).div(one.add(refraction_index));
        r0 = r0.mul(r0);
        r0.add(one.sub(r0).mul(one.sub(cosine).powi(5)))
    }

    /// The ratio of the refractive indices on the two sides of the surface,
    /// the side that the ray comes from first.
    pub open spec fn spec_index_ratio(self, front_face: bool) -> Scalar {
        if front_face {
            Scalar::spec_from_int(1).spec_div(self.refraction_index)
        } else {
            self.refraction_index
        }
    }

    /// The cosine of the angle between the ray and the normal, at most one.
    pub open spec fn spec_cos_theta(unit_direction: Vector, normal: Vector) -> Scalar {
        unit_direction.spec_opposite().spec_dot(normal).spec_min(Scalar::spec_from_int(1))
    }

    /// The sine of the angle whose cosine is given: the square root of
    /// `1 - cos^2`, or zero where that is negative.
    pub open spec fn spec_sin_theta(cos_theta: Scalar) -> Scalar {
        let square = Scalar::spec_from_int(1).spec_sub(cos_theta.spec_mul(cos_theta));
        if square@ > 0 {
            square.spec_sqrt()
        } else {
            Scalar::of_raw(0)
        }
    }

    /// Whether the ray is reflected rather than refracted: Snell's law has
    /// no solution, or the reflectance exceeds the random number `chance`.
    pub open spec fn spec_reflects(ri: Scalar, cos_theta: Scalar, chance: Scalar) -> bool {
        let cannot_refract = ri.spec_mul(Dialetric::spec_sin_theta(cos_theta))@ > ONE_RAW;
        cannot_refract || Dialetric::spec_reflectance(cos_theta, ri)@ > chance@
    }

    /// The direction in which a ray leaves the surface.
    pub open spec fn spec_direction(self, r_in: Ray, rec: HitRecord, chance: Scalar) -> Vector {
        let ri = self.spec_index_ratio(rec.front_face);
        let unit_direction = r_in.dir.spec_unit_vector();
        let cos_theta = Dialetric::spec_cos_theta(unit_direction, rec.normal);
        if Dialetric::spec_reflects(ri, cos_theta, chance) {
            unit_direction.spec_reflect(rec.normal)
        } else {
            unit_direction.spec_refract(rec.normal, ri)
        }
    }
}

impl Dialetric {
    /// A surface between media of the same refractive index reflects no
    /// light by itself and always admits a refracted ray: with a refraction
    /// index of one the ratio of the indices is one from either side, the
    /// reflectance is `(1 - cos)^5`, and a ray whose random number is not
    /// below it leaves in the direction that Snell's law gives for the ratio
    /// one.
    pub proof fn lemma_unit_index(self, r_in: Ray, rec: HitRecord, chance: Scalar)
        requires
            self.refraction_index@ == ONE_RAW,
        ensures
            self.spec_index_ratio(rec.front_face)@ == ONE_RAW,
            forall|cosine: Scalar|
                #[trigger] Dialetric::spec_reflectance(cosine, self.spec_index_ratio(rec.front_face))
                    == Scalar::spec_from_int(1).spec_sub(cosine).spec_powi(5),
            ({
                let unit_direction = r_in.dir.spec_unit_vector();
                let cos_theta = Dialetric::spec_cos_theta(unit_direction, rec.normal);
                Scalar::spec_from_int(1).spec_sub(cos_theta).spec_powi(5)@ <= chance@
                    ==> self.spec_direction(r_in, rec, chance) == unit_direction.spec_refract(
                    rec.normal,
                    self.spec_index_ratio(rec.front_face),
                )
            }),
    {
        broadcast use crate::scalar::group_scalar;

        let one = Scalar::spec_from_int(1);
        let ri = self.spec_index_ratio(rec.front_face);
        assert(one@ == ONE_RAW);
        assert(ONE_RAW * ONE_RAW == 18446744073709551616);
        assert(18446744073709551616int / 4294967296 == 4294967296);
        assert(ri@ == ONE_RAW);
        Scalar::lemma_view_injective(ri, one);
        assert forall|cosine: Scalar|
            #[trigger] Dialetric::spec_reflectance(cosine, ri) == one.spec_sub(cosine).spec_powi(
                5,
            ) by {
            Dialetric::lemma_reflectance_unit_index(cosine);
        }
        let unit_direction = r_in.dir.spec_unit_vector();
        let cos_theta = Dialetric::spec_cos_theta(unit_direction, rec.normal);
        Dialetric::lemma_sine_at_most_one(cos_theta);
        let sin_theta = Dialetric::spec_sin_theta(cos_theta);
        lemma_mul_raw_small(ri@, sin_theta@);
    }

    /// A surface between media of the same refractive index lets a ray pass
    /// undeviated, unless it reflects it.
    ///
    /// With a refraction index of one, a ray whose random number is not
    /// below the reflectance `(1 - cos)^5` is scattered from the point that
    /// was hit, without attenuation, in a direction of which every component
    /// lies within `REFRACT_TOLERANCE_RAW` of that of the ray's unit direction.
    /// The unit direction and the normal must be unit vectors up to
    /// rounding, and the normal must face the ray.
    pub proof fn lemma_unit_index_passes(self, r_in: Ray, rec: HitRecord, draw: Draw)
        requires
            self.refraction_index@ == ONE_RAW,
            is_nearly_unit(r_in.dir.spec_unit_vector()),
            is_nearly_unit(rec.normal),
            -ONE_RAW <= r_in.dir.spec_unit_vector().spec_dot(rec.normal)@ <= 0,
            Scalar::spec_from_int(1).spec_sub(
                Dialetric::spec_cos_theta(r_in.dir.spec_unit_vector(), rec.normal),
            ).spec_powi(5)@ <= draw.chance@,
        ensures
            self.spec_scatter(r_in, rec, draw) matches Some((attenuation, scattered)) && {
                &&& attenuation == Vector::spec_ones()
                &&& scattered.orig == rec.point
                &&& magnitude(scattered.dir.x@ - r_in.dir.spec_unit_vector().x@)
                    <= REFRACT_TOLERANCE_RAW
                &&& magnitude(scattered.dir.y@ - r_in.dir.spec_unit_vector().y@)
                    <= REFRACT_TOLERANCE_RAW
                &&& magnitude(scattered.dir.z@ - r_in.dir.spec_unit_vector().z@)
                    <= REFRACT_TOLERANCE_RAW
            },
    {
        let unit_direction = r_in.dir.spec_unit_vector();
        let ri = self.spec_index_ratio(rec.front_face);
        self.lemma_unit_index(r_in, rec, draw.chance);
        Scalar::lemma_of_raw(ONE_RAW as int);
        Scalar::lemma_view_injective(ri, Scalar::spec_from_int(1));
        lemma_refract_unit_ratio(unit_direction, rec.normal);
    }

    /// A surface between media of the same refractive index lets a ray pass
    /// as nearly undeviated as its unit direction and the normal are unit
    /// vectors, unless it reflects it.
    ///
    /// This is [`Dialetric::lemma_unit_index_passes`] for a unit direction
    /// and a normal whose squared lengths lie within `defect_v` and `defect_n`
    /// of one: every component of the scattered direction lies within `g + 3`
    /// raw units of that of the unit direction, for any `g` whose square is at
    /// least `defect_v + defect_n + 21 S + 3`. What `defect_n` is for the
    /// normal of a hit on a sphere, `lemma_reported_hit_on_sphere` says.
    pub proof fn lemma_unit_index_passes_within(
        self,
        r_in: Ray,
        rec: HitRecord,
        draw: Draw,
        defect_v: int,
        defect_n: int,
        g: int,
    )
        requires
            self.refraction_index@ == ONE_RAW,
            r_in.dir.spec_unit_vector().spec_within(ONE_RAW as int),
            rec.normal.spec_within(ONE_RAW as int),
            magnitude(r_in.dir.spec_unit_vector().spec_unit_defect()) <= defect_v,
            magnitude(rec.normal.spec_unit_defect()) <= defect_n,
            0 <= g,
            defect_v + defect_n + 21 * ONE_RAW + 3 <= g * g,
            -ONE_RAW <= r_in.dir.spec_unit_vector().spec_dot(rec.normal)@ <= 0,
            Scalar::spec_from_int(1).spec_sub(
                Dialetric::spec_cos_theta(r_in.dir.spec_unit_vector(), rec.normal),
            ).spec_powi(5)@ <= draw.chance@,
        ensures
            self.spec_scatter(r_in, rec, draw) matches Some((attenuation, scattered)) && {
                &&& attenuation == Vector::spec_ones()
                &&& scattered.orig == rec.point
                &&& magnitude(scattered.dir.x@ - r_in.dir.spec_unit_vector().x@) <= g + 3
                &&& magnitude(scattered.dir.y@ - r_in.dir.spec_unit_vector().y@) <= g + 3
                &&& magnitude(scattered.dir.z@ - r_in.dir.spec_unit_vector().z@) <= g + 3
            },
    {
        let unit_direction = r_in.dir.spec_unit_vector();
        let ri = self.spec_index_ratio(rec.front_face);
        self.lemma_unit_index(r_in, rec, draw.chance);
        Scalar::lemma_of_raw(ONE_RAW as int);
        Scalar::lemma_view_injective(ri, Scalar::spec_from_int(1));
        lemma_refract_unit_ratio_within(unit_direction, rec.normal, defect_v, defect_n, g);
    }

    /// A sphere of the refractive index of its surroundings lets a ray pass
    /// as nearly undeviated as the hit is exact, unless it reflects it.
    ///
    /// For a sphere and a ray in range and the hit that the sphere reports,
    /// let `defect_n` bound what the squared length of the normal may miss of
    /// one, as `lemma_reported_hit_on_sphere` gives it from the slack of the
    /// hit. Where no component of the normal exceeds one, the normal faces
    /// the unit direction of the ray, and the random number is not below the
    /// reflectance, every component of the scattered direction lies within
    /// `g + 3` raw units of that of the unit direction, for any `g` whose
    /// square is at least `UNIT_DEFECT_RAW + defect_n + 21 S + 3`.
    pub proof fn lemma_unit_index_passes_sphere(
        self,
        sphere: Sphere,
        r_in: Ray,
        ray_t: Interval,
        draw: Draw,
        defect_n: int,
        g: int,
    )
        requires
            self.refraction_index@ == ONE_RAW,
            in_range(sphere, r_in),
            sphere.spec_hit(r_in, ray_t) is Some,
            ({
                let rec = sphere.spec_hit(r_in, ray_t)->0;
                let u = rec.point.spec_sub(sphere.center);
                let slack = hit_slack(
                    r_in.dir.spec_length_squared()@,
                    r_in.spec_discriminant(sphere.center, sphere.radius).spec_sqrt()@,
                    rec.t@,
                    u.x@,
                    u.y@,
                    u.z@,
                );
                let radius = sphere.radius@;
                &&& rec.normal.spec_within(ONE_RAW as int)
                &&& ONE_RAW * slack + 2 * (4294967296 * (radius * (magnitude(u.x@) + magnitude(
                    u.y@,
                ) + magnitude(u.z@)))) + 3 * (radius * radius) <= (radius * radius) * defect_n
                &&& -ONE_RAW <= r_in.dir.spec_unit_vector().spec_dot(rec.normal)@ <= 0
                &&& Scalar::spec_from_int(1).spec_sub(
                    Dialetric::spec_cos_theta(r_in.dir.spec_unit_vector(), rec.normal),
                ).spec_powi(5)@ <= draw.chance@
            }),
            0 <= g,
            UNIT_DEFECT_RAW + defect_n + 21 * ONE_RAW + 3 <= g * g,
        ensures
            ({
                let rec = sphere.spec_hit(r_in, ray_t)->0;
                self.spec_scatter(r_in, rec, draw) matches Some((attenuation, scattered)) && {
                    &&& attenuation == Vector::spec_ones()
                    &&& scattered.orig == rec.point
                    &&& magnitude(scattered.dir.x@ - r_in.dir.spec_unit_vector().x@) <= g + 3
                    &&& magnitude(scattered.dir.y@ - r_in.dir.spec_unit_vector().y@) <= g + 3
                    &&& magnitude(scattered.dir.z@ - r_in.dir.spec_unit_vector().z@) <= g + 3
                }
            }),
    {
        let rec = sphere.spec_hit(r_in, ray_t)->0;
        lemma_reported_hit_on_sphere(sphere, r_in, ray_t);
        lemma_direction_length(sphere, r_in);
        lemma_unit_vector_nearly_unit(r_in.dir);
        let radius = sphere.radius@;
        let rr = radius * radius;
        let defect = magnitude(rec.normal.spec_unit_defect());
        assert(defect <= defect_n) by (nonlinear_arith)
            requires
                rr * defect <= rr * defect_n,
                rr == radius * radius,
                radius > 0,
        ;
        self.lemma_unit_index_passes_within(
            r_in,
            rec,
            draw,
            UNIT_DEFECT_RAW as int,
            defect_n,
            g,
        );
    }

    /// With a ratio of indices of one the reflectance is `(1 - cos)^5`.
    proof fn lemma_reflectance_unit_index(cosine: Scalar)
        ensures
            Dialetric::spec_reflectance(cosine, Scalar::spec_from_int(1)) == Scalar::spec_from_int(
                1,
            ).spec_sub(cosine).spec_powi(5),
    {
        broadcast use crate::scalar::group_scalar;

        let one = Scalar::spec_from_int(1);
        let ratio = one.spec_sub(one).spec_div(one.spec_add(one));
        assert(one@ == ONE_RAW);
        assert(one.spec_sub(one)@ == 0);
        assert(one.spec_add(one)@ == 2 * ONE_RAW);
        assert(ratio@ == 0);
        lemma_product_sign(0, 0);
        let r0 = ratio.spec_mul(ratio);
        assert(r0@ == 0);
        let tail = one.spec_sub(cosine).spec_powi(5);
        assert(one.spec_sub(r0)@ == ONE_RAW);
        Dialetric::lemma_powi_wf(one.spec_sub(cosine), 5);
        lemma_mul_raw_commutes(ONE_RAW as int, tail@);
        lemma_mul_raw_one(tail@);
        let scaled = one.spec_sub(r0).spec_mul(tail);
        assert(scaled@ == tail@);
        assert(r0.spec_add(scaled)@ == tail@);
        Scalar::lemma_view_injective(r0.spec_add(scaled), tail);
    }

    /// A power of a scalar is a well-formed scalar.
    proof fn lemma_powi_wf(base: Scalar, n: nat)
        ensures
            base.spec_powi(n).wf(),
    {
        broadcast use crate::scalar::group_scalar;

    }

    /// The sine of an angle is at most one and not negative.
    proof fn lemma_sine_at_most_one(cos_theta: Scalar)
        ensures
            0 <= Dialetric::spec_sin_theta(cos_theta)@ <= ONE_RAW,
    {
        broadcast use crate::scalar::group_scalar;

        let one = Scalar::spec_from_int(1);
        assert(one@ == ONE_RAW);
        let squared = cos_theta.spec_mul(cos_theta);
        lemma_product_sign(cos_theta@, cos_theta@);
        assert(squared@ >= 0);
        let square = one.spec_sub(squared);
        assert(square@ <= ONE_RAW);
        if square@ > 0 {
            crate::scalar::lemma_sqrt_nonnegative(square@);
            let root = crate::scalar::sqrt_raw(square@);
            assert(root <= ONE_RAW) by (nonlinear_arith)
                requires
                    0 <= root,
                    root * root <= square@ * ONE_RAW,
                    0 < square@ <= ONE_RAW,
                    ONE_RAW == 4294967296,
            ;
        }
    }
}

impl Material for Dialetric {
    /// Always scatters, from the point that was hit and without
    /// attenuation.
    open spec fn spec_scatter(&self, r_in: Ray, rec: HitRecord, draw: Draw) -> Option<
        (Vector, Ray),
    > {
        Some(
            (
                Vector::spec_ones(),
                Ray { orig: rec.point, dir: self.spec_direction(r_in, rec, draw.chance) },
            ),
        )
    }

    fn scatter_with(
        &self,
        r_in: &Ray,
        rec: &HitRecord,
        draw: &Draw,
        attenuation: &mut Vector,
        scattered: &mut Ray,
    ) -> (res: bool)
        ensures
            res,
    {
        *attenuation = Vector::ones();
        let one = Scalar::from_int(1);
        let ri = if rec.front_face {
            one.div(self.refraction_index)
        } else {
            self.refraction_index
        };

        let unit_direction = r_in.dir.unit_vector();
        let cos_theta = unit_direction.mul(Scalar::from_int(-1)).dot(&rec.normal).min(one);
        let square = one.sub(cos_theta.mul(cos_theta));
        let sin_theta = if square.gt(Scalar::zero()) {
            square.sqrt()
        } else {
            Scalar::zero()
        };

        let cannot_refract = ri.mul(sin_theta).gt(one);
        let direction = if cannot_refract || Dialetric::reflectance(cos_theta, ri).gt(draw.chance) {
            unit_direction.reflect(rec.normal)
        } else {
            unit_direction.refract(rec.normal, ri)
        };

        *scattered = Ray::new(rec.point, direction);
        true
    }

    fn scatter(
        &self,
        r_in: &Ray,
        rec: &HitRecord,
        attenuation: &mut Vector,
        scattered: &mut Ray,
    ) -> (res: bool)
        ensures
            res,
            *final(attenuation) == Vector::spec_ones(),
            final(scattered).orig == rec.point,
    {
        let draw = Draw { unit: None, chance: utility::random_df() };
        self.scatter_with(r_in, rec, &draw, attenuation, scattered)
    }
}

impl Material for Sphere {
    /// A sphere, taken as a material, absorbs every ray.
    open spec fn spec_scatter(&self, r_in: Ray, rec: HitRecord, draw: Draw) -> Option<
        (Vector, Ray),
    > {
        None
    }

    fn scatter_with(
        &self,
        _r_in: &Ray,
        _rec: &HitRecord,
        _draw: &Draw,
        _attenuation: &mut Vector,
        _scattered: &mut Ray,
    ) -> (res: bool)
        ensures
            *final(_attenuation) == *old(_attenuation),
            *final(_scattered) == *old(_scattered),
    {
        false
    }

    fn scatter(
        &self,
        _r_in: &Ray,
        _rec: &HitRecord,
        _attenuation: &mut Vector,
        _scattered: &mut Ray,
    ) -> (res: bool)
        ensures
            !res,
            *final(_attenuation) == *old(_attenuation),
            *final(_scattered) == *old(_scattered),
    {
        proof {
            let draw = Draw { unit: None, chance: Scalar::of_raw(0) };
            broadcast use crate::scalar::group_scalar;

            assert(draw.wf());
            assert(is_outcome(
                self.spec_scatter(*_r_in, *_rec, draw),
                false,
                *_attenuation,
                *_scattered,
            ));
        }
        false
    }
}

/// Any of the materials.
#[derive(Clone, Copy, Debug, PartialEq, Eq, Structural)]
pub enum MaterialKind {
    Lambertian(Lambertian),
    Metal(Metal),
    Dialetric(Dialetric),
}

impl Material for MaterialKind {
    /// What the material that it holds does.
    open spec fn spec_scatter(&self, r_in: Ray, rec: HitRecord, draw: Draw) -> Option<
        (Vector, Ray),
    > {
        match *self {
            MaterialKind::Lambertian(m) => m.spec_scatter(r_in, rec, draw),
            MaterialKind::Metal(m) => m.spec_scatter(r_in, rec, draw),
            MaterialKind::Dialetric(m) => m.spec_scatter(r_in, rec, draw),
        }
    }

    fn scatter_with(
        &self,
        r_in: &Ray,
        rec: &HitRecord,
        draw: &Draw,
        attenuation: &mut Vector,
        scattered: &mut Ray,
    ) -> (res: bool) {
        match self {
            MaterialKind::Lambertian(m) => m.scatter_with(r_in, rec, draw, attenuation, scattered),
            MaterialKind::Metal(m) => m.scatter_with(r_in, rec, draw, attenuation, scattered),
            MaterialKind::Dialetric(m) => m.scatter_with(r_in, rec, draw, attenuation, scattered),
        }
    }

    fn scatter(
        &self,
        r_in: &Ray,
        rec: &HitRecord,
        attenuation: &mut Vector,
        scattered: &mut Ray,
    ) -> (res: bool) {
        match self {
            MaterialKind::Lambertian(m) => {
                let res = m.scatter(r_in, rec, attenuation, scattered);
                proof {
                    self.lemma_outcome_of_held(*m, *r_in, *rec, res, *attenuation, *scattered);
                }
                res
            },
            MaterialKind::Metal(m) => {
                let res = m.scatter(r_in, rec, attenuation, scattered);
                proof {
                    self.lemma_outcome_of_held(*m, *r_in, *rec, res, *attenuation, *scattered);
                }
                res
            },
            MaterialKind::Dialetric(m) => {
                let res = m.scatter(r_in, rec, attenuation, scattered);
                proof {
                    self.lemma_outcome_of_held(*m, *r_in, *rec, res, *attenuation, *scattered);
                }
                res
            },
        }
    }
}

impl MaterialKind {
    /// An outcome of the material that is held, for random numbers such as
    /// the samplers give, is an outcome of the material that holds it.
    proof fn lemma_outcome_of_held<M: Material>(
        self,
        held: M,
        r_in: Ray,
        rec: HitRecord,
        res: bool,
        attenuation: Vector,
        scattered: Ray,
    )
        requires
            forall|draw: Draw| #[trigger]
                self.spec_scatter(r_in, rec, draw) == held.spec_scatter(r_in, rec, draw),
            exists|draw: Draw|
                draw.wf() && is_outcome(
                    #[trigger] held.spec_scatter(r_in, rec, draw),
                    res,
                    attenuation,
                    scattered,
                ),
        ensures
            exists|draw: Draw|
                draw.wf() && is_outcome(
                    #[trigger] self.spec_scatter(r_in, rec, draw),
                    res,
                    attenuation,
                    scattered,
                ),
    {
        let draw = choose|draw: Draw|
            draw.wf() && is_outcome(
                #[trigger] held.spec_scatter(r_in, rec, draw),
                res,
                attenuation,
                scattered,
            );
        assert(self.spec_scatter(r_in, rec, draw) == held.spec_scatter(r_in, rec, draw));
    }
}

} // verus!
