use raytracer::hittable::HitRecord;
use raytracer::hittable::Hittable;
use raytracer::hittable_list::HittableList;
use raytracer::interval::Interval;
use raytracer::material::Lambertian;
use raytracer::material::MaterialKind;
use raytracer::ray::Ray;
use raytracer::scalar::Scalar;
use raytracer::sphere::Sphere;
use raytracer::vector::Vector;
use std::rc::Rc;

const ONE: i64 = 4294967296;

fn s(x: f64) -> Scalar {
    Scalar::from_raw((x * ONE as f64).round() as i64)
}

fn v(x: f64, y: f64, z: f64) -> Vector {
    Vector::new(s(x), s(y), s(z))
}

fn material(shade: f64) -> Rc<MaterialKind> {
    Rc::new(MaterialKind::Lambertian(Lambertian { albedo: v(shade, shade, shade) }))
}

fn visible() -> Interval {
    Interval::new(Scalar::from_ratio(1, 1000), Scalar::max_value())
}

fn down_the_axis() -> Ray {
    Ray::new(v(0.0, 0.0, 0.0), v(0.0, 0.0, -1.0))
}

#[test]
fn an_empty_scene_is_never_hit() {
    let world: HittableList<Sphere> = HittableList::new_empty();
    assert!(world.objects.is_empty());
    let mut rec = HitRecord::new_empty();
    assert!(!world.hit(&down_the_axis(), visible(), &mut rec));
}

#[test]
fn add_appends_and_clear_empties() {
    let mut world: HittableList<Sphere> = HittableList::new_empty();
    let first = Rc::new(Sphere::new(v(0.0, 0.0, -5.0), s(1.0), material(0.5)));
    let second = Rc::new(Sphere::new(v(0.0, 0.0, -2.0), s(0.5), material(0.25)));
    world.add(first.clone());
    world.add(second.clone());
    assert_eq!(world.objects.len(), 2);
    assert!(Rc::ptr_eq(&world.objects[0], &first));
    assert!(Rc::ptr_eq(&world.objects[1], &second));
    world.clear();
    assert!(world.objects.is_empty());
    let mut rec = HitRecord::new_empty();
    assert!(!world.hit(&down_the_axis(), visible(), &mut rec));
}

#[test]
fn new_makes_a_scene_of_one_surface_and_leaves_the_receiver() {
    let mut world: HittableList<Sphere> = HittableList::new_empty();
    let first = Rc::new(Sphere::new(v(0.0, 0.0, -5.0), s(1.0), material(0.5)));
    world.add(first.clone());
    let second = Rc::new(Sphere::new(v(0.0, 0.0, -2.0), s(0.5), material(0.25)));
    let other = world.new(second.clone());
    assert_eq!(other.objects.len(), 1);
    assert!(Rc::ptr_eq(&other.objects[0], &second));
    assert_eq!(world.objects.len(), 1);
    assert!(Rc::ptr_eq(&world.objects[0], &first));
}

#[test]
fn the_nearest_of_two_spheres_is_hit_in_either_order() {
    // Along the ray the far sphere has the roots 4 and 6, the near one 1.5
    // and 2.5.
    let far_material = material(0.5);
    let near_material = material(0.25);
    let far = Rc::new(Sphere::new(v(0.0, 0.0, -5.0), s(1.0), far_material.clone()));
    let near = Rc::new(Sphere::new(v(0.0, 0.0, -2.0), s(0.5), near_material.clone()));

    let mut world = HittableList::new_empty();
    world.add(far.clone());
    world.add(near.clone());
    let mut rec = HitRecord::new_empty();
    assert!(world.hit(&down_the_axis(), visible(), &mut rec));
    assert_eq!(rec.t, s(1.5));
    assert_eq!(rec.point, v(0.0, 0.0, -1.5));
    assert!(Rc::ptr_eq(&rec.mat, &near_material));

    let mut world = HittableList::new_empty();
    world.add(near);
    world.add(far);
    let mut rec = HitRecord::new_empty();
    assert!(world.hit(&down_the_axis(), visible(), &mut rec));
    assert_eq!(rec.t, s(1.5));
    assert!(Rc::ptr_eq(&rec.mat, &near_material));
}

#[test]
fn the_interval_decides_which_sphere_is_seen() {
    let far_material = material(0.5);
    let near_material = material(0.25);
    let mut world = HittableList::new_empty();
    world.add(Rc::new(Sphere::new(v(0.0, 0.0, -2.0), s(0.5), near_material.clone())));
    world.add(Rc::new(Sphere::new(v(0.0, 0.0, -5.0), s(1.0), far_material.clone())));
    // Behind the near sphere only the far one is left.
    let mut rec = HitRecord::new_empty();
    assert!(world.hit(&down_the_axis(), Interval::new(s(3.0), s(100.0)), &mut rec));
    assert_eq!(rec.t, s(4.0));
    assert!(Rc::ptr_eq(&rec.mat, &far_material));
    // Inside the near sphere its back is nearest.
    let mut rec = HitRecord::new_empty();
    assert!(world.hit(&down_the_axis(), Interval::new(s(2.0), s(100.0)), &mut rec));
    assert_eq!(rec.t, s(2.5));
    assert!(Rc::ptr_eq(&rec.mat, &near_material));
    assert!(!rec.front_face);
    // Between the spheres there is nothing.
    let mut rec = HitRecord::new_empty();
    assert!(!world.hit(&down_the_axis(), Interval::new(s(2.5), s(4.0)), &mut rec));
}

#[test]
fn the_first_of_two_equal_hits_wins() {
    let first_material = material(0.5);
    let second_material = material(0.25);
    let mut world = HittableList::new_empty();
    world.add(Rc::new(Sphere::new(v(0.0, 0.0, -5.0), s(1.0), first_material.clone())));
    world.add(Rc::new(Sphere::new(v(0.0, 0.0, -5.0), s(1.0), second_material.clone())));
    let mut rec = HitRecord::new_empty();
    assert!(world.hit(&down_the_axis(), visible(), &mut rec));
    assert_eq!(rec.t, s(4.0));
    assert!(Rc::ptr_eq(&rec.mat, &first_material));
}

#[test]
fn a_miss_of_the_scene_leaves_the_record_as_it_was() {
    let mut world = HittableList::new_empty();
    world.add(Rc::new(Sphere::new(v(0.0, 0.0, -5.0), s(1.0), material(0.5))));
    world.add(Rc::new(Sphere::new(v(0.0, 0.0, -2.0), s(0.5), material(0.25))));
    let marker = material(0.75);
    let mut rec = HitRecord::new(v(1.0, 2.0, 3.0), v(0.0, 1.0, 0.0), marker.clone(), s(7.0), true);
    let r = Ray::new(v(0.0, 0.0, 0.0), v(0.0, 1.0, 0.0));
    assert!(!world.hit(&r, visible(), &mut rec));
    assert_eq!(rec.point, v(1.0, 2.0, 3.0));
    assert_eq!(rec.normal, v(0.0, 1.0, 0.0));
    assert_eq!(rec.t, s(7.0));
    assert!(rec.front_face);
    assert!(Rc::ptr_eq(&rec.mat, &marker));
}

#[test]
fn a_surface_may_stand_in_several_scenes() {
    let shared = Rc::new(Sphere::new(v(0.0, 0.0, -5.0), s(1.0), material(0.5)));
    let mut one = HittableList::new_empty();
    one.add(shared.clone());
    let mut other = HittableList::new_empty();
    other.add(shared.clone());
    other.add(Rc::new(Sphere::new(v(0.0, 0.0, -2.0), s(0.5), material(0.25))));
    assert_eq!(Rc::strong_count(&shared), 3);
    let mut rec = HitRecord::new_empty();
    assert!(one.hit(&down_the_axis(), visible(), &mut rec));
    assert_eq!(rec.t, s(4.0));
    assert!(other.hit(&down_the_axis(), visible(), &mut rec));
    assert_eq!(rec.t, s(1.5));
}

#[test]
fn a_scene_of_scenes_finds_the_nearest_hit_of_all() {
    let near_material = material(0.25);
    let mut back = HittableList::new_empty();
    back.add(Rc::new(Sphere::new(v(0.0, 0.0, -9.0), s(1.0), material(0.5))));
    back.add(Rc::new(Sphere::new(v(0.0, 0.0, -5.0), s(1.0), material(0.5))));
    let mut front = HittableList::new_empty();
    front.add(Rc::new(Sphere::new(v(0.0, 0.0, -2.0), s(0.5), near_material.clone())));
    let mut world: HittableList<HittableList<Sphere>> = HittableList::new_empty();
    world.add(Rc::new(back));
    world.add(Rc::new(front));
    let mut rec = HitRecord::new_empty();
    assert!(world.hit(&down_the_axis(), visible(), &mut rec));
    assert_eq!(rec.t, s(1.5));
    assert!(Rc::ptr_eq(&rec.mat, &near_material));
    let mut rec = HitRecord::new_empty();
    assert!(world.hit(&down_the_axis(), Interval::new(s(3.0), s(100.0)), &mut rec));
    assert_eq!(rec.t, s(4.0));
}
