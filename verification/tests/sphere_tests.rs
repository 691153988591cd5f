use raytracer::hittable::HitRecord;
use raytracer::hittable::Hittable;
use raytracer::interval::Interval;
use raytracer::material::Draw;
use raytracer::material::Lambertian;
use raytracer::material::Material;
use raytracer::material::MaterialKind;
use raytracer::ray::Ray;
use raytracer::scalar::Scalar;
use raytracer::sphere::Sphere;
use raytracer::vector::Vector;
use std::rc::Rc;

const ONE: i64 = 4294967296;

fn s(x: f64) -> Scalar {
    Scalar::from_raw((x * ONE as f64).round() as i64)
}

fn f(x: Scalar) -> f64 {
    x.raw() as f64 / ONE as f64
}

fn v(x: f64, y: f64, z: f64) -> Vector {
    Vector::new(s(x), s(y), s(z))
}

fn grey() -> Rc<MaterialKind> {
    Rc::new(MaterialKind::Lambertian(Lambertian { albedo: v(0.5, 0.5, 0.5) }))
}

fn visible() -> Interval {
    Interval::new(Scalar::from_ratio(1, 1000), Scalar::max_value())
}

#[test]
fn new_keeps_center_and_material_and_clamps_the_radius() {
    let material = grey();
    let sphere = Sphere::new(v(1.0, 2.0, 3.0), s(2.5), material.clone());
    assert_eq!(sphere.center, v(1.0, 2.0, 3.0));
    assert_eq!(sphere.radius, s(2.5));
    assert!(Rc::ptr_eq(&sphere.mat, &material));
    let sphere = Sphere::new(v(1.0, 2.0, 3.0), s(-2.5), material.clone());
    assert_eq!(sphere.radius, s(0.0));
    let sphere = Sphere::new(v(1.0, 2.0, 3.0), s(0.0), material);
    assert_eq!(sphere.radius, s(0.0));
}

#[test]
fn a_ray_from_outside_hits_the_front_at_the_smaller_root() {
    let material = grey();
    let sphere = Sphere::new(v(0.0, 0.0, -5.0), s(1.0), material.clone());
    let r = Ray::new(v(0.0, 0.0, 0.0), v(0.0, 0.0, -1.0));
    let mut rec = HitRecord::new_empty();
    assert!(sphere.hit(&r, visible(), &mut rec));
    assert_eq!(rec.t, s(4.0));
    assert_eq!(rec.point, v(0.0, 0.0, -4.0));
    assert_eq!(rec.normal, v(0.0, 0.0, 1.0));
    assert!(rec.front_face);
    assert!(Rc::ptr_eq(&rec.mat, &material));
}

#[test]
fn a_hit_shares_the_material_with_the_sphere() {
    let material = grey();
    let sphere = Sphere::new(v(0.0, 0.0, -5.0), s(1.0), material.clone());
    assert_eq!(Rc::strong_count(&material), 2);
    let r = Ray::new(v(0.0, 0.0, 0.0), v(0.0, 0.0, -1.0));
    let mut rec = HitRecord::new_empty();
    assert!(sphere.hit(&r, visible(), &mut rec));
    assert_eq!(Rc::strong_count(&material), 3);
    assert!(Rc::ptr_eq(&rec.mat, &sphere.mat));
    assert_eq!(*rec.mat, MaterialKind::Lambertian(Lambertian { albedo: v(0.5, 0.5, 0.5) }));
}

#[test]
fn a_ray_from_inside_hits_the_back_at_the_larger_root() {
    let sphere = Sphere::new(v(0.0, 0.0, -5.0), s(1.0), grey());
    let r = Ray::new(v(0.0, 0.0, -5.0), v(0.0, 0.0, -1.0));
    let mut rec = HitRecord::new_empty();
    assert!(sphere.hit(&r, visible(), &mut rec));
    assert_eq!(rec.t, s(1.0));
    assert_eq!(rec.point, v(0.0, 0.0, -6.0));
    assert!(!rec.front_face);
    // The outward normal is (0, 0, -1); the stored one faces the ray.
    assert_eq!(rec.normal, v(0.0, 0.0, 1.0));
    assert!(r.dir.dot(&rec.normal).le(Scalar::zero()));
}

#[test]
fn a_miss_leaves_the_record_as_it_was() {
    let sphere = Sphere::new(v(0.0, 0.0, -5.0), s(1.0), grey());
    let r = Ray::new(v(0.0, 0.0, 0.0), v(0.0, 1.0, 0.0));
    let marker = Rc::new(MaterialKind::Lambertian(Lambertian { albedo: v(0.1, 0.2, 0.3) }));
    let mut rec = HitRecord::new(v(1.0, 2.0, 3.0), v(0.0, 1.0, 0.0), marker.clone(), s(7.0), true);
    assert!(!sphere.hit(&r, visible(), &mut rec));
    assert_eq!(rec.point, v(1.0, 2.0, 3.0));
    assert_eq!(rec.normal, v(0.0, 1.0, 0.0));
    assert_eq!(rec.t, s(7.0));
    assert!(rec.front_face);
    assert!(Rc::ptr_eq(&rec.mat, &marker));
}

#[test]
fn the_ends_of_the_interval_do_not_count() {
    let sphere = Sphere::new(v(0.0, 0.0, -5.0), s(1.0), grey());
    let r = Ray::new(v(0.0, 0.0, 0.0), v(0.0, 0.0, -1.0));
    // The roots are 4 and 6.
    let mut rec = HitRecord::new_empty();
    assert!(!sphere.hit(&r, Interval::new(s(4.0), s(6.0)), &mut rec));
    assert!(sphere.hit(&r, Interval::new(Scalar::from_raw(4 * ONE - 1), s(6.0)), &mut rec));
    assert_eq!(rec.t, s(4.0));
    let mut rec = HitRecord::new_empty();
    assert!(sphere.hit(&r, Interval::new(s(4.0), Scalar::from_raw(6 * ONE + 1)), &mut rec));
    assert_eq!(rec.t, s(6.0));
    let mut rec = HitRecord::new_empty();
    assert!(!sphere.hit(&r, Interval::new(s(0.0), s(4.0)), &mut rec));
    assert!(!sphere.hit(&r, Interval::new(s(6.0), s(100.0)), &mut rec));
    assert!(!sphere.hit(&r, Interval::new(s(4.5), s(5.5)), &mut rec));
}

#[test]
fn the_sphere_behind_the_ray_is_not_hit() {
    let sphere = Sphere::new(v(0.0, 0.0, 5.0), s(1.0), grey());
    let r = Ray::new(v(0.0, 0.0, 0.0), v(0.0, 0.0, -1.0));
    let mut rec = HitRecord::new_empty();
    assert!(!sphere.hit(&r, visible(), &mut rec));
}

#[test]
fn a_tangent_ray_touches_the_sphere_in_one_point() {
    let sphere = Sphere::new(v(0.0, 0.0, -5.0), s(1.0), grey());
    let r = Ray::new(v(1.0, 0.0, 0.0), v(0.0, 0.0, -1.0));
    let mut rec = HitRecord::new_empty();
    assert!(sphere.hit(&r, visible(), &mut rec));
    assert_eq!(rec.t, s(5.0));
    assert_eq!(rec.point, v(1.0, 0.0, -5.0));
    // The ray runs across the outward normal (1, 0, 0): not a front face.
    assert!(!rec.front_face);
    assert_eq!(rec.normal, v(-1.0, 0.0, 0.0));
}

#[test]
fn a_sphere_without_radius_is_never_hit() {
    let r = Ray::new(v(0.0, 0.0, 0.0), v(0.0, 0.0, -1.0));
    let mut rec = HitRecord::new_empty();
    let point = Sphere::new(v(0.0, 0.0, -5.0), s(0.0), grey());
    assert!(!point.hit(&r, visible(), &mut rec));
    let negative = Sphere::new(v(0.0, 0.0, -5.0), s(-1.0), grey());
    assert!(!negative.hit(&r, visible(), &mut rec));
    // Nor is one whose radius was set below zero after it was made.
    let mut forced = Sphere::new(v(0.0, 0.0, -5.0), s(1.0), grey());
    forced.radius = s(-1.0);
    assert!(!forced.hit(&r, visible(), &mut rec));
}

#[test]
fn a_ray_without_direction_hits_nothing() {
    let sphere = Sphere::new(v(0.0, 0.0, -5.0), s(1.0), grey());
    let mut rec = HitRecord::new_empty();
    let r = Ray::new(v(0.0, 0.0, 0.0), v(0.0, 0.0, 0.0));
    assert!(!sphere.hit(&r, visible(), &mut rec));
    // Not even from within the sphere.
    let r = Ray::new(v(0.0, 0.0, -5.0), v(0.0, 0.0, 0.0));
    assert!(!sphere.hit(&r, visible(), &mut rec));
}

#[test]
fn the_direction_need_not_have_unit_length() {
    let sphere = Sphere::new(v(0.0, 0.0, -5.0), s(1.0), grey());
    let r = Ray::new(v(0.0, 0.0, 0.0), v(0.0, 0.0, -2.0));
    let mut rec = HitRecord::new_empty();
    assert!(sphere.hit(&r, visible(), &mut rec));
    assert_eq!(rec.t, s(2.0));
    assert_eq!(rec.point, v(0.0, 0.0, -4.0));
    assert_eq!(rec.normal, v(0.0, 0.0, 1.0));
}

#[test]
fn an_oblique_hit_lies_in_the_interval_and_on_the_sphere() {
    let sphere = Sphere::new(v(0.5, -0.25, -4.0), s(2.0), grey());
    let r = Ray::new(v(0.0, 0.0, 0.0), v(0.3, 0.2, -1.7));
    let interval = visible();
    let mut rec = HitRecord::new_empty();
    assert!(sphere.hit(&r, interval, &mut rec));
    assert!(interval.surrounds(rec.t));
    assert_eq!(rec.point, r.at(rec.t));
    let distance = f(rec.point.sub(sphere.center).length());
    assert!((distance - 2.0).abs() <= 1e-7, "distance {}", distance);
    assert!((f(rec.normal.length()) - 1.0).abs() <= 1e-7);
    assert!(rec.front_face);
    assert!(r.dir.dot(&rec.normal).le(Scalar::zero()));
    // The same hit in floating point.
    let (ox, oy, oz) = (0.5f64, -0.25f64, -4.0f64);
    let (dx, dy, dz) = (0.3f64, 0.2f64, -1.7f64);
    let a = dx * dx + dy * dy + dz * dz;
    let h = dx * ox + dy * oy + dz * oz;
    let c = ox * ox + oy * oy + oz * oz - 4.0;
    let expected = (h - (h * h - a * c).sqrt()) / a;
    assert!((f(rec.t) - expected).abs() <= 1e-7);
}

#[test]
fn set_face_normal_tells_the_side_and_turns_the_normal() {
    let mut rec = HitRecord::new_empty();
    let r = Ray::new(v(0.0, 0.0, 0.0), v(1.0, -1.0, 0.0));
    rec.set_face_normal(&r, v(0.0, 1.0, 0.0));
    assert!(rec.front_face);
    assert_eq!(rec.normal, v(0.0, 1.0, 0.0));
    rec.set_face_normal(&r, v(0.0, -1.0, 0.0));
    assert!(!rec.front_face);
    assert_eq!(rec.normal, v(0.0, 1.0, 0.0));
    // Across the normal: not a front face.
    rec.set_face_normal(&r, v(0.0, 0.0, 1.0));
    assert!(!rec.front_face);
    assert_eq!(rec.normal, v(0.0, 0.0, -1.0));
    assert!(r.dir.dot(&rec.normal).le(Scalar::zero()));
}

#[test]
fn set_face_normal_leaves_the_rest_of_the_record() {
    let material = grey();
    let mut rec = HitRecord::new(v(1.0, 2.0, 3.0), v(0.0, 0.0, 0.0), material.clone(), s(7.0), false);
    let r = Ray::new(v(0.0, 0.0, 0.0), v(0.0, -1.0, 0.0));
    rec.set_face_normal(&r, v(0.0, 1.0, 0.0));
    assert_eq!(rec.point, v(1.0, 2.0, 3.0));
    assert_eq!(rec.t, s(7.0));
    assert!(Rc::ptr_eq(&rec.mat, &material));
}

#[test]
fn an_empty_record_is_all_zero_with_a_black_material() {
    let rec = HitRecord::new_empty();
    assert_eq!(rec.point, v(0.0, 0.0, 0.0));
    assert_eq!(rec.normal, v(0.0, 0.0, 0.0));
    assert_eq!(rec.t, s(0.0));
    assert!(!rec.front_face);
    assert_eq!(*rec.mat, MaterialKind::Lambertian(Lambertian { albedo: v(0.0, 0.0, 0.0) }));
}

#[test]
fn a_sphere_taken_as_a_material_absorbs() {
    let sphere = Sphere::new(v(0.0, 0.0, -5.0), s(1.0), grey());
    let r = Ray::new(v(0.0, 0.0, 0.0), v(0.0, 0.0, -1.0));
    let rec = HitRecord::new_empty();
    let mut attenuation = v(0.1, 0.2, 0.3);
    let mut scattered = Ray::new(v(1.0, 1.0, 1.0), v(2.0, 2.0, 2.0));
    assert!(!sphere.scatter(&r, &rec, &mut attenuation, &mut scattered));
    let draw = Draw { unit: Some(v(0.0, 0.0, 1.0)), chance: s(0.5) };
    assert!(!sphere.scatter_with(&r, &rec, &draw, &mut attenuation, &mut scattered));
    assert_eq!(attenuation, v(0.1, 0.2, 0.3));
    assert_eq!(scattered.orig, v(1.0, 1.0, 1.0));
    assert_eq!(scattered.dir, v(2.0, 2.0, 2.0));
}
