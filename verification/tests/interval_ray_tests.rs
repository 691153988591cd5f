use raytracer::interval::Interval;
use raytracer::ray::Ray;
use raytracer::scalar::Scalar;
use raytracer::vector::Vector;

const ONE: i64 = 4294967296;

fn s(x: f64) -> Scalar {
    Scalar::from_raw((x * ONE as f64).round() as i64)
}

fn v(x: f64, y: f64, z: f64) -> Vector {
    Vector::new(s(x), s(y), s(z))
}

#[test]
fn interval_keeps_its_ends() {
    let i = Interval::new(s(-1.0), s(2.0));
    assert_eq!(i.min, s(-1.0));
    assert_eq!(i.max, s(2.0));
}

#[test]
fn contains_includes_the_ends() {
    let i = Interval::new(s(1.0), s(2.0));
    assert!(i.contains(s(1.0)));
    assert!(i.contains(s(1.5)));
    assert!(i.contains(s(2.0)));
    assert!(!i.contains(Scalar::from_raw(ONE - 1)));
    assert!(!i.contains(Scalar::from_raw(2 * ONE + 1)));
}

#[test]
fn surrounds_excludes_the_ends() {
    let i = Interval::new(s(1.0), s(2.0));
    assert!(!i.surrounds(s(1.0)));
    assert!(i.surrounds(Scalar::from_raw(ONE + 1)));
    assert!(i.surrounds(s(1.5)));
    assert!(i.surrounds(Scalar::from_raw(2 * ONE - 1)));
    assert!(!i.surrounds(s(2.0)));
    assert!(!i.surrounds(s(0.0)));
    assert!(!i.surrounds(s(3.0)));
}

#[test]
fn clamp_brings_a_scalar_into_the_interval() {
    let i = Interval::new(s(0.0), s(0.999));
    assert_eq!(i.clamp(s(-0.5)), s(0.0));
    assert_eq!(i.clamp(s(0.25)), s(0.25));
    assert_eq!(i.clamp(s(1.0)), s(0.999));
    assert_eq!(i.clamp(s(0.0)), s(0.0));
    assert_eq!(i.clamp(s(0.999)), s(0.999));
}

#[test]
fn an_interval_with_its_ends_swapped_holds_nothing_and_clamps_to_its_lower_end() {
    let i = Interval::new(s(2.0), s(1.0));
    assert!(!i.contains(s(1.5)));
    assert!(!i.surrounds(s(1.5)));
    assert_eq!(i.clamp(s(0.0)), s(2.0));
    assert_eq!(i.clamp(s(1.5)), s(2.0));
    assert_eq!(i.clamp(s(3.0)), s(2.0));
}

#[test]
fn ray_at_walks_along_the_direction() {
    let r = Ray::new(v(1.0, 2.0, 3.0), v(0.5, 0.0, -2.0));
    assert_eq!(r.orig, v(1.0, 2.0, 3.0));
    assert_eq!(r.dir, v(0.5, 0.0, -2.0));
    assert_eq!(r.at(s(0.0)), v(1.0, 2.0, 3.0));
    assert_eq!(r.at(s(1.0)), v(1.5, 2.0, 1.0));
    assert_eq!(r.at(s(2.5)), v(2.25, 2.0, -2.0));
    assert_eq!(r.at(s(-2.0)), v(0.0, 2.0, 7.0));
}

#[test]
fn hit_sphere_gives_the_smaller_root() {
    let r = Ray::new(v(0.0, 0.0, 0.0), v(0.0, 0.0, -1.0));
    assert_eq!(r.hit_sphere(v(0.0, 0.0, -5.0), s(1.0)), s(4.0));
    assert_eq!(r.hit_sphere(v(0.0, 0.0, -2.0), s(0.5)), s(1.5));
    // The direction need not have unit length.
    let r = Ray::new(v(0.0, 0.0, 0.0), v(0.0, 0.0, -2.0));
    assert_eq!(r.hit_sphere(v(0.0, 0.0, -5.0), s(1.0)), s(2.0));
    // From inside the sphere the smaller root lies behind the ray.
    let r = Ray::new(v(0.0, 0.0, -5.0), v(0.0, 0.0, -1.0));
    assert_eq!(r.hit_sphere(v(0.0, 0.0, -5.0), s(1.0)), s(-1.0));
}

#[test]
fn hit_sphere_gives_minus_one_for_a_miss() {
    let r = Ray::new(v(0.0, 0.0, 0.0), v(0.0, 0.0, -1.0));
    assert_eq!(r.hit_sphere(v(0.0, 5.0, -5.0), s(1.0)), s(-1.0));
    let r = Ray::new(v(0.0, 0.0, 0.0), v(0.0, 0.0, 0.0));
    assert_eq!(r.hit_sphere(v(0.0, 0.0, -5.0), s(1.0)), s(-1.0));
}

#[test]
fn a_ray_shows_the_normal_of_the_sphere_in_front() {
    // Straight at the sphere: the normal is (0, 0, 1), whose colour is
    // (0.5, 0.5, 1).
    let r = Ray::new(v(0.0, 0.0, 0.0), v(0.0, 0.0, -1.0));
    assert_eq!(r.ray_colour(), (181, 181, 255));
}

#[test]
fn a_ray_shows_the_sky_beside_the_sphere() {
    // Straight up: the top of the sky, (0.5, 0.7, 1).
    let r = Ray::new(v(0.0, 0.0, 0.0), v(0.0, 2.0, 0.0));
    assert_eq!(r.ray_colour(), (181, 214, 255));
    // Straight down: the bottom of the sky, white.
    let r = Ray::new(v(0.0, 0.0, 0.0), v(0.0, -2.0, 0.0));
    assert_eq!(r.ray_colour(), (255, 255, 255));
    // A ray without a direction shows nothing.
    let r = Ray::new(v(0.0, 0.0, 0.0), v(0.0, 0.0, 0.0));
    assert_eq!(r.ray_colour(), (0, 0, 0));
}
