use raytracer::scalar::Scalar;
use raytracer::utility::deg_to_rad;
use raytracer::utility::random;
use raytracer::utility::random_df;
use raytracer::vector::Vector;

const ONE: i64 = 4294967296;

fn s(x: f64) -> Scalar {
    Scalar::from_raw((x * ONE as f64).round() as i64)
}

fn f(x: Scalar) -> f64 {
    x.raw() as f64 / ONE as f64
}

fn v(x: f64, y: f64, z: f64) -> Vector {
    Vector::new(s(x), s(y), s(z))
}

fn close(a: Vector, b: (f64, f64, f64), tolerance: f64) -> bool {
    (f(a.x) - b.0).abs() <= tolerance
        && (f(a.y) - b.1).abs() <= tolerance
        && (f(a.z) - b.2).abs() <= tolerance
}

#[test]
fn new_and_get_vector_keep_the_components() {
    let a = Vector::new(s(1.0), s(-2.0), s(3.5));
    assert_eq!(a.x, s(1.0));
    assert_eq!(a.y, s(-2.0));
    assert_eq!(a.z, s(3.5));
    assert_eq!(a.get_vector(), (s(1.0), s(-2.0), s(3.5)));
    assert_eq!(Vector::zero(), v(0.0, 0.0, 0.0));
    assert_eq!(Vector::ones(), v(1.0, 1.0, 1.0));
}

#[test]
fn sums_differences_and_products_go_by_component() {
    let a = v(1.0, 2.0, 3.0);
    let b = v(4.0, -5.0, 0.5);
    assert_eq!(a.add(b), v(5.0, -3.0, 3.5));
    assert_eq!(a.sub(b), v(-3.0, 7.0, 2.5));
    assert_eq!(a.mul(s(2.5)), v(2.5, 5.0, 7.5));
    assert_eq!(a.mul(s(-1.0)), v(-1.0, -2.0, -3.0));
    assert_eq!(a.mul_vector(b), v(4.0, -10.0, 1.5));
    assert_eq!(a.div(s(2.0)), v(0.5, 1.0, 1.5));
}

#[test]
fn inner_product_of_known_vectors() {
    assert_eq!(v(1.0, 2.0, 3.0).dot(&v(4.0, 5.0, 6.0)), s(32.0));
    assert_eq!(v(1.0, 0.0, 0.0).dot(&v(0.0, 1.0, 0.0)), s(0.0));
    assert_eq!(v(1.0, 2.0, 3.0).dot(&v(-1.0, -2.0, -3.0)), s(-14.0));
}

#[test]
fn vector_product_of_known_vectors() {
    assert_eq!(v(1.0, 0.0, 0.0).cross(&v(0.0, 1.0, 0.0)), v(0.0, 0.0, 1.0));
    assert_eq!(v(0.0, 1.0, 0.0).cross(&v(1.0, 0.0, 0.0)), v(0.0, 0.0, -1.0));
    assert_eq!(v(1.0, 2.0, 3.0).cross(&v(4.0, 5.0, 6.0)), v(-3.0, 6.0, -3.0));
    assert_eq!(v(1.0, 2.0, 3.0).cross(&v(1.0, 2.0, 3.0)), v(0.0, 0.0, 0.0));
}

#[test]
fn length_and_squared_length() {
    assert_eq!(v(3.0, 4.0, 0.0).length_squared(), s(25.0));
    assert_eq!(v(3.0, 4.0, 0.0).length(), s(5.0));
    assert_eq!(v(-2.0, 3.0, 6.0).length(), s(7.0));
    assert_eq!(v(0.0, 0.0, 0.0).length(), s(0.0));
}

#[test]
fn a_tiny_vector_has_a_length_though_its_squared_length_vanishes() {
    let tiny = Vector::new(Scalar::from_raw(3), Scalar::from_raw(0), Scalar::from_raw(4));
    assert_eq!(tiny.length_squared(), Scalar::zero());
    assert_eq!(tiny.length(), Scalar::from_raw(5));
    assert!(!tiny.length().is_zero());
}

#[test]
fn unit_vector_divides_by_the_length() {
    assert_eq!(v(0.0, 0.0, 5.0).unit_vector(), v(0.0, 0.0, 1.0));
    let u = v(0.0, 3.0, 4.0).unit_vector();
    assert_eq!(u.x, Scalar::zero());
    assert_eq!(u.y, Scalar::from_ratio(3, 5));
    assert_eq!(u.z, Scalar::from_ratio(4, 5));
    assert_eq!(v(-7.0, 0.0, 0.0).unit_vector(), v(-1.0, 0.0, 0.0));
}

#[test]
fn near_zero_asks_every_component_to_be_small_in_magnitude() {
    assert!(v(0.0, 0.0, 0.0).near_zero());
    assert!(v(1e-9, 1e-9, 1e-9).near_zero());
    assert!(v(-1e-9, 1e-9, -1e-9).near_zero());
    assert!(!v(1.0, 0.0, 0.0).near_zero());
    assert!(!v(0.0, 1e-7, 0.0).near_zero());
    assert!(!v(0.0, 0.0, 0.5).near_zero());
    // The threshold itself is 42 raw units, the scalar next below 10^-8.
    let below = Scalar::from_raw(41);
    let at = Scalar::from_raw(42);
    assert!(Vector::new(below, below, below).near_zero());
    assert!(Vector::new(below.neg(), below, below.neg()).near_zero());
    assert!(!Vector::new(below, at, below).near_zero());
    assert!(!Vector::new(below, at.neg(), below).near_zero());
    // Components far below zero are not small.
    assert!(!v(-1.0, -1.0, -1.0).near_zero());
    assert!(!v(0.0, -1.0, 0.0).near_zero());
    assert!(!v(0.0, 0.0, -1e-7).near_zero());
}

#[test]
fn reflect_mirrors_in_the_plane_of_the_normal() {
    assert_eq!(v(1.0, -1.0, 0.0).reflect(v(0.0, 1.0, 0.0)), v(1.0, 1.0, 0.0));
    assert_eq!(v(0.0, 0.0, -2.0).reflect(v(0.0, 0.0, 1.0)), v(0.0, 0.0, 2.0));
    assert_eq!(v(3.0, 0.0, 0.0).reflect(v(0.0, 1.0, 0.0)), v(3.0, 0.0, 0.0));
}

#[test]
fn reflection_law_on_known_vectors() {
    let n = v(0.0, 1.0, 0.0);
    let incoming = v(1.5, -2.25, 0.75);
    let reflected = incoming.reflect(n);
    assert_eq!(reflected.dot(&n), incoming.dot(&n).neg());
    // A normal that is a unit vector only up to rounding.
    let n = v(0.6, 0.0, 0.8);
    let incoming = v(1.0, 2.0, -3.0);
    let reflected = incoming.reflect(n);
    let miss = reflected.dot(&n).add(incoming.dot(&n)).abs().raw();
    assert!(miss <= 9 + 2 * 2 * 3, "missed by {} raw units", miss);
}

#[test]
fn refract_at_normal_incidence_goes_straight_on() {
    let down = v(0.0, -1.0, 0.0);
    let up = v(0.0, 1.0, 0.0);
    assert_eq!(down.refract(up, s(1.0)), down);
    assert_eq!(down.refract(up, s(1.5)), down);
    assert_eq!(down.refract(up, s(0.5)), down);
}

#[test]
fn refract_follows_snells_law() {
    // sin(in) = 0.6; with a ratio of one half, sin(out) = 0.3 and
    // cos(out) = sqrt(0.91).
    let incoming = v(0.6, -0.8, 0.0);
    let refracted = incoming.refract(v(0.0, 1.0, 0.0), s(0.5));
    assert!(close(refracted, (0.3, -(0.91f64.sqrt()), 0.0), 1e-8));
    let length = f(refracted.length());
    assert!((length - 1.0).abs() <= 1e-8);
}

#[test]
fn refract_with_ratio_one_leaves_an_oblique_unit_vector_as_it_is() {
    let incoming = v(0.6, -0.8, 0.0);
    let refracted = incoming.refract(v(0.0, 1.0, 0.0), s(1.0));
    assert!(close(refracted, (0.6, -0.8, 0.0), 1e-8));
}

#[test]
fn degrees_to_radians() {
    let half_turn = deg_to_rad(Scalar::from_int(180));
    assert!((f(half_turn) - std::f64::consts::PI).abs() <= 1e-9);
    assert_eq!(deg_to_rad(Scalar::zero()), Scalar::zero());
    let right = deg_to_rad(Scalar::from_int(-90));
    assert!((f(right) + std::f64::consts::FRAC_PI_2).abs() <= 1e-9);
    // 180 degrees give the scalar nearest to pi exactly.
    assert_eq!(half_turn.raw(), 13493037705);
}

#[test]
fn random_scalars_lie_in_their_range_and_differ() {
    let mut seen_low = false;
    let mut seen_high = false;
    for _ in 0..2000 {
        let x = random_df();
        assert!(x.raw() >= 0 && x.raw() < ONE);
        if x.raw() < ONE / 2 {
            seen_low = true;
        } else {
            seen_high = true;
        }
        let y = random(s(5.0), s(6.5));
        assert!(y.ge(s(5.0)) && y.lt(s(6.5)));
        let z = random(s(-1.0), s(1.0));
        assert!(z.ge(s(-1.0)) && z.lt(s(1.0)));
    }
    assert!(seen_low && seen_high);
}

#[test]
fn random_with_one_value_in_range_gives_it() {
    let low = Scalar::from_raw(7);
    let high = Scalar::from_raw(8);
    for _ in 0..10 {
        assert_eq!(random(low, high), low);
    }
}

#[test]
fn random_vectors_lie_in_their_cube() {
    for _ in 0..500 {
        let a = Vector::random_df();
        for c in [a.x, a.y, a.z] {
            assert!(c.raw() >= 0 && c.raw() < ONE);
        }
        let b = Vector::random(s(0.5), s(1.0));
        for c in [b.x, b.y, b.z] {
            assert!(c.ge(s(0.5)) && c.lt(s(1.0)));
        }
    }
}

#[test]
fn candidates_for_unit_vectors_are_taken_by_their_squared_length() {
    assert_eq!(Vector::unit_from_candidate(v(0.0, 0.0, 0.0)), None);
    assert_eq!(Vector::unit_from_candidate(v(0.9, 0.9, 0.9)), None);
    assert_eq!(Vector::unit_from_candidate(v(1.0, 0.0, 0.0)), Some(v(1.0, 0.0, 0.0)));
    assert_eq!(Vector::unit_from_candidate(v(0.0, 0.5, 0.0)), Some(v(0.0, 1.0, 0.0)));
    assert_eq!(Vector::unit_from_candidate(v(0.0, 0.0, -0.25)), Some(v(0.0, 0.0, -1.0)));
    assert_eq!(Vector::unit_from_candidate(v(-0.9, -0.9, 0.9)), None);
    // A candidate whose squared length rounds to zero is rejected.
    let tiny = Vector::new(Scalar::from_raw(10), Scalar::from_raw(10), Scalar::from_raw(10));
    assert_eq!(Vector::unit_from_candidate(tiny), None);
    let taken = Vector::unit_from_candidate(v(0.3, 0.0, 0.4)).unwrap();
    assert!(close(taken, (0.6, 0.0, 0.8), 1e-8));
    // A candidate is scaled by its exact length.
    let small = Vector::new(Scalar::from_raw(3 << 16), Scalar::from_raw(0), Scalar::from_raw(4 << 16));
    assert_eq!(
        Vector::unit_from_candidate(small),
        Some(Vector::new(Scalar::from_ratio(3, 5), Scalar::zero(), Scalar::from_ratio(4, 5)))
    );
}

#[test]
fn random_unit_vectors_have_unit_length_and_reach_every_octant() {
    let mut octants = [false; 8];
    for _ in 0..2000 {
        let u = Vector::random_unit_vector().unwrap();
        assert!((f(u.length()) - 1.0).abs() <= 1e-6);
        let octant = (u.x.raw() < 0) as usize
            + 2 * (u.y.raw() < 0) as usize
            + 4 * (u.z.raw() < 0) as usize;
        octants[octant] = true;
    }
    assert_eq!(octants, [true; 8]);
}

#[test]
fn random_hemisphere_vectors_point_along_the_normal() {
    let against = v(0.0, 0.0, -1.0);
    let along = v(0.0, 0.0, 1.0);
    for _ in 0..200 {
        let u = against.random_on_hemisphere().unwrap();
        assert!((f(u.length()) - 1.0).abs() <= 1e-6);
        assert!(u.z.raw() <= 0);
        assert!(u.dot(&against).ge(Scalar::zero()));
        let w = along.random_on_hemisphere().unwrap();
        assert!((f(w.length()) - 1.0).abs() <= 1e-6);
        assert!(w.z.raw() >= 0);
    }
}

#[test]
fn candidates_for_the_unit_disk_are_taken_by_their_squared_length() {
    assert!(v(0.5, 0.5, 0.0).in_unit_disk());
    assert!(v(0.0, 0.0, 0.0).in_unit_disk());
    assert!(!v(0.8, 0.8, 0.0).in_unit_disk());
    assert!(!v(1.0, 0.0, 0.0).in_unit_disk());
    assert!(v(-0.6, 0.7, 0.0).in_unit_disk());
}

#[test]
fn random_disk_points_lie_in_the_unit_disk() {
    let mut negative = false;
    for _ in 0..500 {
        let p = Vector::random_in_unit_disk().unwrap();
        assert_eq!(p.z, Scalar::zero());
        assert!(f(p.x) * f(p.x) + f(p.y) * f(p.y) < 1.0 + 1e-9);
        assert!(p.x.ge(s(-1.0)) && p.x.lt(s(1.0)));
        assert!(p.y.ge(s(-1.0)) && p.y.lt(s(1.0)));
        if p.x.raw() < 0 {
            negative = true;
        }
    }
    assert!(negative);
}
