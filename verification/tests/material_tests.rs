use raytracer::hittable::HitRecord;
use raytracer::hittable::Hittable;
use raytracer::interval::Interval;
use raytracer::material::Dialetric;
use raytracer::material::Draw;
use raytracer::material::Lambertian;
use raytracer::material::Material;
use raytracer::material::MaterialKind;
use raytracer::material::Metal;
use raytracer::ray::Ray;
use raytracer::refraction::REFRACT_TOLERANCE_RAW;
use raytracer::scalar::Scalar;
use raytracer::sphere::Sphere;
use raytracer::vector::Vector;
use std::rc::Rc;

const ONE: i64 = 4294967296;

fn s(x: f64) -> Scalar {
    Scalar::from_raw((x * ONE as f64).round() as i64)
}

fn f(x: Scalar) -> f64 {
    x.raw() as f64 / ONE as f64
}

fn v(x: f64, y: f64, z: f64) -> Vector {
    Vector::new(s(x), s(y), s(z))
}

fn close(a: Vector, b: (f64, f64, f64), tolerance: f64) -> bool {
    (f(a.x) - b.0).abs() <= tolerance
        && (f(a.y) - b.1).abs() <= tolerance
        && (f(a.z) - b.2).abs() <= tolerance
}

fn record(point: Vector, normal: Vector, front_face: bool) -> HitRecord {
    let placeholder = Rc::new(MaterialKind::Lambertian(Lambertian { albedo: v(0.0, 0.0, 0.0) }));
    HitRecord::new(point, normal, placeholder, s(1.0), front_face)
}

fn blank() -> (Vector, Ray) {
    (v(9.0, 9.0, 9.0), Ray::new(v(9.0, 9.0, 9.0), v(9.0, 9.0, 9.0)))
}

#[test]
fn lambertian_scatters_along_the_normal_plus_the_unit_vector() {
    let m = Lambertian { albedo: v(0.8, 0.6, 0.2) };
    let rec = record(v(1.0, 2.0, 3.0), v(0.0, 0.0, 1.0), true);
    let r_in = Ray::new(v(1.0, 2.0, 5.0), v(0.0, 0.0, -1.0));
    let (mut attenuation, mut scattered) = blank();
    let draw = Draw { unit: Some(v(0.6, 0.0, 0.8)), chance: s(0.0) };
    assert!(m.scatter_with(&r_in, &rec, &draw, &mut attenuation, &mut scattered));
    assert_eq!(attenuation, v(0.8, 0.6, 0.2));
    assert_eq!(scattered.orig, v(1.0, 2.0, 3.0));
    assert_eq!(scattered.dir, v(0.6, 0.0, 1.8));
}

#[test]
fn lambertian_falls_back_to_the_normal() {
    let m = Lambertian { albedo: v(0.8, 0.6, 0.2) };
    let rec = record(v(1.0, 2.0, 3.0), v(0.0, 0.0, 1.0), true);
    let r_in = Ray::new(v(1.0, 2.0, 5.0), v(0.0, 0.0, -1.0));
    // The sum vanishes.
    let (mut attenuation, mut scattered) = blank();
    let draw = Draw { unit: Some(v(0.0, 0.0, -1.0)), chance: s(0.0) };
    assert!(m.scatter_with(&r_in, &rec, &draw, &mut attenuation, &mut scattered));
    assert_eq!(scattered.dir, v(0.0, 0.0, 1.0));
    assert_eq!(scattered.orig, v(1.0, 2.0, 3.0));
    assert_eq!(attenuation, v(0.8, 0.6, 0.2));
    // No unit vector was drawn.
    let (mut attenuation, mut scattered) = blank();
    let draw = Draw { unit: None, chance: s(0.0) };
    assert!(m.scatter_with(&r_in, &rec, &draw, &mut attenuation, &mut scattered));
    assert_eq!(scattered.dir, v(0.0, 0.0, 1.0));
    // The sum all but vanishes.
    let almost = Vector::new(Scalar::from_raw(41), Scalar::from_raw(-41), s(-1.0));
    let draw = Draw { unit: Some(almost), chance: s(0.0) };
    assert!(m.scatter_with(&r_in, &rec, &draw, &mut attenuation, &mut scattered));
    assert_eq!(scattered.dir, v(0.0, 0.0, 1.0));
    // A sum that points into the negative octant is a direction like any
    // other.
    let rec = record(v(1.0, 2.0, 3.0), v(0.0, 0.0, -1.0), true);
    let draw = Draw { unit: Some(v(0.0, 0.0, 0.5)), chance: s(0.0) };
    assert!(m.scatter_with(&r_in, &rec, &draw, &mut attenuation, &mut scattered));
    assert_eq!(scattered.dir, v(0.0, 0.0, -0.5));
    let draw = Draw { unit: Some(v(-0.6, -0.8, 0.0)), chance: s(0.0) };
    assert!(m.scatter_with(&r_in, &rec, &draw, &mut attenuation, &mut scattered));
    assert_eq!(scattered.dir, v(-0.6, -0.8, -1.0));
}

#[test]
fn lambertian_with_its_own_draw_scatters_near_the_normal() {
    let m = Lambertian { albedo: v(0.8, 0.6, 0.2) };
    let rec = record(v(1.0, 2.0, 3.0), v(0.0, 0.0, 1.0), true);
    let r_in = Ray::new(v(1.0, 2.0, 5.0), v(0.0, 0.0, -1.0));
    for _ in 0..200 {
        let (mut attenuation, mut scattered) = blank();
        assert!(m.scatter(&r_in, &rec, &mut attenuation, &mut scattered));
        assert_eq!(attenuation, v(0.8, 0.6, 0.2));
        assert_eq!(scattered.orig, v(1.0, 2.0, 3.0));
        let offset = scattered.dir.sub(rec.normal);
        assert!((f(offset.length()) - 1.0).abs() <= 1e-6);
    }
}

#[test]
fn metal_reflects_and_blurs() {
    let rec = record(v(1.0, 2.0, 3.0), v(0.0, 1.0, 0.0), true);
    let r_in = Ray::new(v(0.0, 3.0, 3.0), v(1.0, -1.0, 0.0));
    let mirror = Metal { albedo: v(0.7, 0.6, 0.5), fuzz: s(0.0) };
    let (mut attenuation, mut scattered) = blank();
    let draw = Draw { unit: Some(v(0.0, 0.0, 1.0)), chance: s(0.0) };
    assert!(mirror.scatter_with(&r_in, &rec, &draw, &mut attenuation, &mut scattered));
    assert_eq!(attenuation, v(0.7, 0.6, 0.5));
    assert_eq!(scattered.orig, v(1.0, 2.0, 3.0));
    assert_eq!(scattered.dir, v(1.0, 1.0, 0.0));

    let blurred = Metal { albedo: v(0.7, 0.6, 0.5), fuzz: s(0.5) };
    let (mut attenuation, mut scattered) = blank();
    assert!(blurred.scatter_with(&r_in, &rec, &draw, &mut attenuation, &mut scattered));
    assert_eq!(scattered.dir, v(1.0, 1.0, 0.5));
    let draw = Draw { unit: None, chance: s(0.0) };
    assert!(blurred.scatter_with(&r_in, &rec, &draw, &mut attenuation, &mut scattered));
    assert_eq!(scattered.dir, v(1.0, 1.0, 0.0));
}

#[test]
fn metal_absorbs_what_would_leave_into_the_surface() {
    let rec = record(v(1.0, 2.0, 3.0), v(0.0, 1.0, 0.0), true);
    let mirror = Metal { albedo: v(0.7, 0.6, 0.5), fuzz: s(0.0) };
    let draw = Draw { unit: None, chance: s(0.0) };
    // The ray comes from below the surface: its mirror image points down.
    let r_in = Ray::new(v(0.0, 0.0, 3.0), v(1.0, 1.0, 0.0));
    let (mut attenuation, mut scattered) = blank();
    assert!(!mirror.scatter_with(&r_in, &rec, &draw, &mut attenuation, &mut scattered));
    assert_eq!(attenuation, v(0.7, 0.6, 0.5));
    assert_eq!(scattered.dir, v(1.0, -1.0, 0.0));
    // The blur pushes the direction into the surface.
    let blurred = Metal { albedo: v(0.7, 0.6, 0.5), fuzz: s(2.0) };
    let r_in = Ray::new(v(0.0, 3.0, 3.0), v(1.0, -1.0, 0.0));
    let draw = Draw { unit: Some(v(0.0, -1.0, 0.0)), chance: s(0.0) };
    assert!(!blurred.scatter_with(&r_in, &rec, &draw, &mut attenuation, &mut scattered));
    assert_eq!(scattered.dir, v(1.0, -1.0, 0.0));
    // Along the surface is not away from it.
    let r_in = Ray::new(v(0.0, 2.0, 3.0), v(1.0, 0.0, 0.0));
    let draw = Draw { unit: None, chance: s(0.0) };
    assert!(!mirror.scatter_with(&r_in, &rec, &draw, &mut attenuation, &mut scattered));
}

#[test]
fn metal_with_its_own_draw_writes_the_ray_whether_it_keeps_it_or_not() {
    let rec = record(v(1.0, 2.0, 3.0), v(0.0, 1.0, 0.0), true);
    // A mirror keeps a ray from above and absorbs one from below, and
    // writes the mirror image either way.
    let mirror = Metal { albedo: v(0.7, 0.6, 0.5), fuzz: s(0.0) };
    for (direction, kept) in [(v(1.0, -1.0, 0.0), true), (v(1.0, 1.0, 0.0), false), (v(1.0, 0.0, 0.0), false)] {
        let r_in = Ray::new(v(0.0, 3.0, 3.0), direction);
        for _ in 0..20 {
            let (mut attenuation, mut scattered) = blank();
            assert_eq!(mirror.scatter(&r_in, &rec, &mut attenuation, &mut scattered), kept);
            assert_eq!(attenuation, v(0.7, 0.6, 0.5));
            assert_eq!(scattered.orig, v(1.0, 2.0, 3.0));
            assert_eq!(scattered.dir, direction.reflect(rec.normal));
        }
    }
    // With fuzz the ray is kept exactly where its direction points away
    // from the surface, and the direction strays from the mirror image by
    // the fuzz.
    let blurred = Metal { albedo: v(0.7, 0.6, 0.5), fuzz: s(0.5) };
    let r_in = Ray::new(v(0.0, 3.0, 3.0), v(1.0, -0.25, 0.0));
    let mut kept = 0;
    let mut absorbed = 0;
    for _ in 0..500 {
        let (mut attenuation, mut scattered) = blank();
        let did = blurred.scatter(&r_in, &rec, &mut attenuation, &mut scattered);
        assert_eq!(did, scattered.dir.dot(&rec.normal).gt(Scalar::zero()));
        assert_eq!(attenuation, v(0.7, 0.6, 0.5));
        assert_eq!(scattered.orig, v(1.0, 2.0, 3.0));
        let strayed = scattered.dir.sub(r_in.dir.reflect(rec.normal));
        assert!((f(strayed.length()) - 0.5).abs() <= 1e-6);
        if did {
            kept += 1;
        } else {
            absorbed += 1;
        }
    }
    assert!(kept > 0 && absorbed > 0);
}

#[test]
fn two_spheres_sharing_a_mirror_reflect_by_the_law() {
    let mirror = Rc::new(MaterialKind::Metal(Metal { albedo: v(0.7, 0.6, 0.5), fuzz: s(0.0) }));
    let left = Sphere::new(v(-2.0, 0.0, -5.0), s(1.0), mirror.clone());
    let right = Sphere::new(v(2.0, 0.0, -5.0), s(1.0), mirror.clone());
    assert_eq!(Rc::strong_count(&mirror), 3);
    let visible = Interval::new(Scalar::from_ratio(1, 1000), Scalar::max_value());
    for (sphere, direction) in [(&left, v(-0.4, 0.1, -1.0)), (&right, v(0.5, -0.1, -1.25))] {
        let r_in = Ray::new(v(0.0, 0.0, 0.0), direction);
        let mut rec = HitRecord::new_empty();
        assert!(sphere.hit(&r_in, visible, &mut rec));
        assert!(Rc::ptr_eq(&rec.mat, &mirror));
        let expected = r_in.dir.reflect(rec.normal);
        for _ in 0..20 {
            let (mut attenuation, mut scattered) = blank();
            assert!(rec.mat.scatter(&r_in, &rec, &mut attenuation, &mut scattered));
            assert_eq!(attenuation, v(0.7, 0.6, 0.5));
            assert_eq!(scattered.orig, rec.point);
            assert_eq!(scattered.dir, expected);
        }
        // The law of reflection, up to rounding.
        let along_in = f(r_in.dir.dot(&rec.normal));
        let along_out = f(expected.dot(&rec.normal));
        assert!((along_in + along_out).abs() <= 1e-8);
        let across_in = r_in.dir.sub(rec.normal.mul(r_in.dir.dot(&rec.normal)));
        let across_out = expected.sub(rec.normal.mul(expected.dot(&rec.normal)));
        assert!(close(across_out, (f(across_in.x), f(across_in.y), f(across_in.z)), 1e-8));
    }
}

#[test]
fn reflectance_by_schlick() {
    // With a ratio of one the reflectance is (1 - cos)^5.
    assert_eq!(Dialetric::reflectance(s(0.5), s(1.0)), s(0.03125));
    assert_eq!(Dialetric::reflectance(s(1.0), s(1.0)), s(0.0));
    assert_eq!(Dialetric::reflectance(s(0.0), s(1.0)), s(1.0));
    // r0 = ((1 - 1.5) / (1 + 1.5))^2 = 0.04
    assert!((f(Dialetric::reflectance(s(1.0), s(1.5))) - 0.04).abs() <= 1e-9);
    assert!((f(Dialetric::reflectance(s(0.5), s(1.5))) - 0.07).abs() <= 1e-9);
    assert!((f(Dialetric::reflectance(s(0.0), s(1.5))) - 1.0).abs() <= 1e-9);
}

#[test]
fn glass_refracts_or_reflects_by_the_random_number() {
    let glass = Dialetric { refraction_index: s(1.5) };
    let rec = record(v(1.0, 2.0, 3.0), v(0.0, 0.0, 1.0), true);
    let r_in = Ray::new(v(1.0, 2.0, 5.0), v(0.0, 0.0, -2.0));
    // At normal incidence the reflectance is 0.04.
    let (mut attenuation, mut scattered) = blank();
    let draw = Draw { unit: None, chance: s(0.5) };
    assert!(glass.scatter_with(&r_in, &rec, &draw, &mut attenuation, &mut scattered));
    assert_eq!(attenuation, v(1.0, 1.0, 1.0));
    assert_eq!(scattered.orig, v(1.0, 2.0, 3.0));
    assert_eq!(scattered.dir, v(0.0, 0.0, -1.0));
    let (mut attenuation, mut scattered) = blank();
    let draw = Draw { unit: None, chance: s(0.01) };
    assert!(glass.scatter_with(&r_in, &rec, &draw, &mut attenuation, &mut scattered));
    assert_eq!(attenuation, v(1.0, 1.0, 1.0));
    assert_eq!(scattered.dir, v(0.0, 0.0, 1.0));
}

#[test]
fn glass_bends_an_oblique_ray_toward_the_normal() {
    let glass = Dialetric { refraction_index: s(1.5) };
    let rec = record(v(0.0, 0.0, 0.0), v(0.0, 0.0, 1.0), true);
    let r_in = Ray::new(v(-0.6, 0.0, 0.8), v(1.2, 0.0, -1.6));
    let (mut attenuation, mut scattered) = blank();
    let draw = Draw { unit: None, chance: s(0.999) };
    assert!(glass.scatter_with(&r_in, &rec, &draw, &mut attenuation, &mut scattered));
    // sin(out) = 0.6 / 1.5 = 0.4
    assert!(close(scattered.dir, (0.4, 0.0, -(0.84f64.sqrt())), 1e-8));
}

#[test]
fn glass_reflects_all_light_beyond_the_critical_angle() {
    let glass = Dialetric { refraction_index: s(1.5) };
    // From inside, with sin = 0.8: 1.5 * 0.8 > 1.
    let rec = record(v(0.0, 0.0, 0.0), v(0.0, 0.0, -1.0), false);
    let r_in = Ray::new(v(-0.8, 0.0, -0.6), v(0.8, 0.0, 0.6));
    for chance in [0.0, 0.5, 0.999] {
        let (mut attenuation, mut scattered) = blank();
        let draw = Draw { unit: None, chance: s(chance) };
        assert!(glass.scatter_with(&r_in, &rec, &draw, &mut attenuation, &mut scattered));
        assert_eq!(attenuation, v(1.0, 1.0, 1.0));
        assert!(close(scattered.dir, (0.8, 0.0, -0.6), 1e-8));
    }
    // From outside the same ray is refracted.
    let rec = record(v(0.0, 0.0, 0.0), v(0.0, 0.0, -1.0), true);
    let (mut attenuation, mut scattered) = blank();
    let draw = Draw { unit: None, chance: s(0.999) };
    assert!(glass.scatter_with(&r_in, &rec, &draw, &mut attenuation, &mut scattered));
    assert!(f(scattered.dir.z) > 0.0);
}

#[test]
fn a_refraction_index_of_one_lets_the_ray_pass_undeviated() {
    let air = Dialetric { refraction_index: s(1.0) };
    // At normal incidence nothing is reflected and the ray goes straight
    // on, exactly.
    for front_face in [true, false] {
        let rec = record(v(0.0, 0.0, 0.0), v(0.0, 0.0, 1.0), front_face);
        let r_in = Ray::new(v(0.0, 0.0, 3.0), v(0.0, 0.0, -3.0));
        for chance in [0.0, 0.5, 0.999] {
            let (mut attenuation, mut scattered) = blank();
            let draw = Draw { unit: None, chance: s(chance) };
            assert!(air.scatter_with(&r_in, &rec, &draw, &mut attenuation, &mut scattered));
            assert_eq!(attenuation, v(1.0, 1.0, 1.0));
            assert_eq!(scattered.orig, v(0.0, 0.0, 0.0));
            assert_eq!(scattered.dir, v(0.0, 0.0, -1.0));
        }
    }
    // An oblique ray that is not reflected keeps its direction up to
    // rounding.
    for (direction, expected) in [
        (v(0.6, 0.0, -0.8), (0.6, 0.0, -0.8)),
        (v(3.0, 0.0, -4.0), (0.6, 0.0, -0.8)),
        (v(0.0, 0.28, -0.96), (0.0, 0.28, -0.96)),
        (v(0.96, 0.0, -0.28), (0.96, 0.0, -0.28)),
    ] {
        for front_face in [true, false] {
            let rec = record(v(0.0, 0.0, 0.0), v(0.0, 0.0, 1.0), front_face);
            let r_in = Ray::new(v(0.0, 0.0, 0.0), direction);
            let (mut attenuation, mut scattered) = blank();
            let draw = Draw { unit: None, chance: s(0.999) };
            assert!(air.scatter_with(&r_in, &rec, &draw, &mut attenuation, &mut scattered));
            assert!(close(scattered.dir, expected, 1e-8), "{:?}", scattered.dir);
        }
    }
}

#[test]
fn a_refraction_index_of_one_deviates_random_rays_by_less_than_the_tolerance() {
    let air = Dialetric { refraction_index: s(1.0) };
    let normal = v(0.0, 0.0, 1.0);
    let mut checked = 0;
    for _ in 0..2000 {
        // A direction against the normal, of a length between one and three.
        let toward = match Vector::random_unit_vector() {
            Some(u) => Vector::new(u.x, u.y, u.z.abs().neg()),
            None => continue,
        };
        let direction = toward.mul(s(1.0).add(raytracer::utility::random_df().mul(s(2.0))));
        if direction.length().lt(s(1.0)) {
            continue;
        }
        let unit = direction.unit_vector();
        let rec = record(v(0.0, 0.0, 0.0), normal, true);
        let r_in = Ray::new(v(0.0, 0.0, 1.0), direction);
        let (mut attenuation, mut scattered) = blank();
        let draw = Draw { unit: None, chance: Scalar::from_raw(ONE - 1) };
        assert!(air.scatter_with(&r_in, &rec, &draw, &mut attenuation, &mut scattered));
        // Nearly grazing rays may be reflected even by the largest random
        // number.
        if scattered.dir.z.raw() > 0 {
            continue;
        }
        for (out, into) in [(scattered.dir.x, unit.x), (scattered.dir.y, unit.y), (scattered.dir.z, unit.z)] {
            let miss = out.sub(into).abs().raw();
            assert!(miss <= REFRACT_TOLERANCE_RAW, "missed by {} raw units", miss);
        }
        checked += 1;
    }
    assert!(checked > 1000, "{} rays checked", checked);
}

#[test]
fn a_refraction_index_of_one_still_reflects_a_grazing_ray_now_and_then() {
    let air = Dialetric { refraction_index: s(1.0) };
    let rec = record(v(0.0, 0.0, 0.0), v(0.0, 0.0, 1.0), true);
    let r_in = Ray::new(v(0.0, 0.0, 0.0), v(0.6, 0.0, -0.8));
    // The reflectance is (1 - 0.8)^5 = 0.00032.
    let (mut attenuation, mut scattered) = blank();
    let draw = Draw { unit: None, chance: s(0.0001) };
    assert!(air.scatter_with(&r_in, &rec, &draw, &mut attenuation, &mut scattered));
    assert!(close(scattered.dir, (0.6, 0.0, 0.8), 1e-8));
}

#[test]
fn glass_with_its_own_draw_always_scatters_without_attenuation() {
    let glass = Dialetric { refraction_index: s(1.5) };
    let rec = record(v(1.0, 2.0, 3.0), v(0.0, 0.0, 1.0), true);
    let r_in = Ray::new(v(1.0, 2.0, 5.0), v(0.3, 0.0, -2.0));
    let mut reflected = 0;
    for _ in 0..2000 {
        let (mut attenuation, mut scattered) = blank();
        assert!(glass.scatter(&r_in, &rec, &mut attenuation, &mut scattered));
        assert_eq!(attenuation, v(1.0, 1.0, 1.0));
        assert_eq!(scattered.orig, v(1.0, 2.0, 3.0));
        assert!((f(scattered.dir.length()) - 1.0).abs() <= 1e-7);
        if f(scattered.dir.z) > 0.0 {
            reflected += 1;
        }
    }
    // About four in a hundred rays are reflected.
    assert!(reflected > 20 && reflected < 200, "{} reflected", reflected);
}

#[test]
fn any_material_does_what_the_material_it_holds_does() {
    let rec = record(v(1.0, 2.0, 3.0), v(0.0, 1.0, 0.0), true);
    let r_in = Ray::new(v(0.0, 3.0, 3.0), v(1.0, -1.0, 0.0));
    let draw = Draw { unit: Some(v(0.0, 0.0, 1.0)), chance: s(0.999) };

    let kinds = [
        MaterialKind::Lambertian(Lambertian { albedo: v(0.8, 0.6, 0.2) }),
        MaterialKind::Metal(Metal { albedo: v(0.7, 0.6, 0.5), fuzz: s(0.5) }),
        MaterialKind::Dialetric(Dialetric { refraction_index: s(1.5) }),
    ];
    for kind in kinds {
        let (mut attenuation, mut scattered) = blank();
        let did = kind.scatter_with(&r_in, &rec, &draw, &mut attenuation, &mut scattered);
        let (mut expected_attenuation, mut expected_scattered) = blank();
        let expected = match kind {
            MaterialKind::Lambertian(m) => {
                m.scatter_with(&r_in, &rec, &draw, &mut expected_attenuation, &mut expected_scattered)
            }
            MaterialKind::Metal(m) => {
                m.scatter_with(&r_in, &rec, &draw, &mut expected_attenuation, &mut expected_scattered)
            }
            MaterialKind::Dialetric(m) => {
                m.scatter_with(&r_in, &rec, &draw, &mut expected_attenuation, &mut expected_scattered)
            }
        };
        assert_eq!(did, expected);
        assert_eq!(attenuation, expected_attenuation);
        assert_eq!(scattered, expected_scattered);
    }
    let (mut attenuation, mut scattered) = blank();
    let kind = MaterialKind::Metal(Metal { albedo: v(0.7, 0.6, 0.5), fuzz: s(0.0) });
    assert!(kind.scatter(&r_in, &rec, &mut attenuation, &mut scattered));
    assert_eq!(scattered.dir, v(1.0, 1.0, 0.0));
}
