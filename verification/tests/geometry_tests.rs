use raytrace::hittable_list::HittableList;
use raytrace::interval::Interval;
use raytrace::limits::T_MAX;
use raytrace::material::{Lambertian, Material};
use raytrace::ray::Ray;
use raytrace::sphere::Sphere;
use raytrace::vec3::Vec3;

fn fxv(x: f64, y: f64, z: f64) -> Vec3 {
    Vec3::new(
        (x * 65536.0) as i64,
        (y * 65536.0) as i64,
        (z * 65536.0) as i64,
    )
}

fn grey_world() -> HittableList {
    let mut w = HittableList::new();
    w.add_material(Material::Lambertian(Lambertian::new(fxv(0.5, 0.5, 0.5))));
    w
}

#[test]
fn interval_basics() {
    let it = Interval::new(-65536, 65536);
    assert_eq!(it.size(), 2 * 65536);
    assert!(it.contains(65536));
    assert!(!it.surrounds(65536));
    assert!(it.surrounds(0));
    assert!(!it.contains(2 * 65536));
    assert_eq!(it.clamp(2 * 65536), 65536);
    assert_eq!(it.clamp(-99999999), -65536);
    assert_eq!(it.clamp(7), 7);
}

#[test]
fn ray_evaluation() {
    let r = Ray::new(fxv(1.0, 0.0, 0.0), fxv(0.0, 1.0, 0.0));
    assert_eq!(r.origin(), fxv(1.0, 0.0, 0.0));
    assert_eq!(r.direction(), fxv(0.0, 1.0, 0.0));
    assert_eq!(r.at(2 * 65536), fxv(1.0, 2.0, 0.0));
    assert_eq!(r.at(-65536), fxv(1.0, -1.0, 0.0));
}

#[test]
fn head_on_hit_lands_at_distance_minus_radius() {
    // a sphere of radius 2 at the origin, struck from 10 units away,
    // is hit at t exactly 8
    let s = Sphere::new(fxv(0.0, 0.0, 0.0), 2 * 65536, 0);
    let r = Ray::new(fxv(-10.0, 0.0, 0.0), fxv(1.0, 0.0, 0.0));
    let rec = s.hit(&r, Interval::new(66, T_MAX)).expect("must hit");
    assert_eq!(rec.t, 8 * 65536);
    assert_eq!(rec.p, fxv(-2.0, 0.0, 0.0));
    assert_eq!(rec.normal, fxv(-1.0, 0.0, 0.0));
    assert!(rec.front_face);
}

#[test]
fn miss_returns_nothing() {
    let s = Sphere::new(fxv(0.0, 10.0, 0.0), 65536, 0);
    let r = Ray::new(fxv(-10.0, 0.0, 0.0), fxv(1.0, 0.0, 0.0));
    assert!(s.hit(&r, Interval::new(66, T_MAX)).is_none());
}

#[test]
fn inside_hit_uses_far_root_and_flips_normal() {
    // from the center of a unit sphere, the near root 'is' behind the
    // lower cutoff of the interval... the first root is negative, the
    // far root at t == 1 is taken, and the normal points back inward
    let s = Sphere::new(fxv(0.0, 0.0, 0.0), 65536, 0);
    let r = Ray::new(fxv(0.0, 0.0, 0.0), fxv(1.0, 0.0, 0.0));
    let rec = s.hit(&r, Interval::new(66, T_MAX)).expect("must hit");
    assert_eq!(rec.t, 65536);
    assert!(!rec.front_face);
    assert_eq!(rec.normal, fxv(-1.0, 0.0, 0.0));
}

#[test]
fn scene_returns_nearest_of_two_spheres() {
    // spheres at distances 5 and 10 along the ray: the returned t is 5
    let mut w = grey_world();
    w.add(Sphere::new(fxv(6.0, 0.0, 0.0), 65536, 0));
    w.add(Sphere::new(fxv(11.0, 0.0, 0.0), 65536, 0));
    let r = Ray::new(fxv(0.0, 0.0, 0.0), fxv(1.0, 0.0, 0.0));
    let rec = w.hit(&r, Interval::new(66, T_MAX)).expect("must hit");
    assert_eq!(rec.t, 5 * 65536);
}

#[test]
fn scene_nearest_does_not_depend_on_order() {
    let mut w = grey_world();
    w.add(Sphere::new(fxv(11.0, 0.0, 0.0), 65536, 0));
    w.add(Sphere::new(fxv(6.0, 0.0, 0.0), 65536, 0));
    let r = Ray::new(fxv(0.0, 0.0, 0.0), fxv(1.0, 0.0, 0.0));
    let rec = w.hit(&r, Interval::new(66, T_MAX)).expect("must hit");
    assert_eq!(rec.t, 5 * 65536);
}

#[test]
fn scene_tie_goes_to_first_inserted() {
    let mut w = grey_world();
    w.add_material(Material::Lambertian(Lambertian::new(fxv(0.9, 0.9, 0.9))));
    w.add(Sphere::new(fxv(6.0, 0.0, 0.0), 65536, 0));
    w.add(Sphere::new(fxv(6.0, 0.0, 0.0), 65536, 1));
    let r = Ray::new(fxv(0.0, 0.0, 0.0), fxv(1.0, 0.0, 0.0));
    let rec = w.hit(&r, Interval::new(66, T_MAX)).expect("must hit");
    assert_eq!(rec.t, 5 * 65536);
    assert_eq!(rec.mat, 0);
}

#[test]
fn empty_scene_misses() {
    let w = grey_world();
    let r = Ray::new(fxv(0.0, 0.0, 0.0), fxv(1.0, 0.0, 0.0));
    assert!(w.hit(&r, Interval::new(66, T_MAX)).is_none());
}

#[test]
fn set_face_normal_orients_against_ray() {
    let s = Sphere::new(fxv(0.0, 0.0, 0.0), 65536, 0);
    let r = Ray::new(fxv(-10.0, 0.0, 0.0), fxv(1.0, 0.0, 0.0));
    let mut rec = s.hit(&r, Interval::new(66, T_MAX)).expect("must hit");
    rec.set_face_normal(&r, fxv(0.0, 0.0, 1.0));
    assert!(!rec.front_face);
    assert_eq!(rec.normal, fxv(0.0, 0.0, -1.0));
    rec.set_face_normal(&r, fxv(-1.0, 0.0, 0.0));
    assert!(rec.front_face);
    assert_eq!(rec.normal, fxv(-1.0, 0.0, 0.0));
}
