use raytrace::common::{random_double, random_double_range};
use raytrace::vec3::{
    cross, dot, random_in_unit_disk, random_on_hemisphere, random_unit_vector, reflect, refract,
    unit_vector, Vec3,
};

fn fxv(x: f64, y: f64, z: f64) -> Vec3 {
    Vec3::new(
        (x * 65536.0) as i64,
        (y * 65536.0) as i64,
        (z * 65536.0) as i64,
    )
}

#[test]
fn dot_and_cross_exact() {
    let u = fxv(1.0, 2.0, 3.0);
    let v = fxv(4.0, -5.0, 6.0);
    assert_eq!(dot(u, v), (4 - 10 + 18) * 65536);
    let c = cross(u, v);
    assert_eq!(c, fxv(27.0, 6.0, -13.0));
}

#[test]
fn length_of_pythagorean_triple() {
    let v = fxv(3.0, 4.0, 0.0);
    assert_eq!(v.length_squared(), 25 * 65536);
    assert_eq!(v.length(), 5 * 65536);
}

#[test]
fn unit_vector_axis_is_exact() {
    let v = fxv(7.0, 0.0, 0.0);
    assert_eq!(unit_vector(v), fxv(1.0, 0.0, 0.0));
    let w = fxv(0.0, -3.0, 0.0);
    assert_eq!(unit_vector(w), fxv(0.0, -1.0, 0.0));
}

#[test]
fn unit_vector_length_near_one() {
    // |normalize(v)| is 1 within fixed-point tolerance
    let v = fxv(3.0, 4.0, 0.0);
    let u = unit_vector(v);
    let ls = u.length_squared();
    assert!((ls - 65536).abs() <= 16, "squared length {ls}");
    let w = fxv(1.0, 1.0, 1.0);
    let uw = unit_vector(w);
    let lsw = uw.length_squared();
    assert!((lsw - 65536).abs() <= 16, "squared length {lsw}");
}

#[test]
fn near_zero_only_for_zero() {
    assert!(Vec3::new(0, 0, 0).near_zero());
    assert!(!Vec3::new(1, 0, 0).near_zero());
    assert!(!fxv(0.0, 0.0, 1.0).near_zero());
}

#[test]
fn reflect_off_axis_plane() {
    // v - 2 dot(v,n) n with n the +z normal flips the z component
    let v = fxv(1.0, 0.0, -1.0);
    let n = fxv(0.0, 0.0, 1.0);
    assert_eq!(reflect(v, n), fxv(1.0, 0.0, 1.0));
}

#[test]
fn refract_straight_through_at_normal_incidence() {
    let uv = fxv(0.0, 0.0, -1.0);
    let n = fxv(0.0, 0.0, 1.0);
    let ratio = 43690; // 1 / 1.5
    assert_eq!(refract(uv, n, ratio), fxv(0.0, 0.0, -1.0));
}

#[test]
fn random_double_stays_in_unit_range() {
    for _ in 0..1000 {
        let r = random_double();
        assert!(0 <= r && r < 65536);
    }
}

#[test]
fn random_double_range_stays_in_range() {
    for _ in 0..1000 {
        let r = random_double_range(-65536, 65536);
        assert!(-65536 <= r && r < 65536);
    }
    assert_eq!(random_double_range(42, 42), 42);
}

#[test]
fn random_unit_vector_is_near_unit() {
    for _ in 0..200 {
        let u = random_unit_vector();
        assert!(u.x.abs() <= 2 * 65536);
        assert!(u.y.abs() <= 2 * 65536);
        assert!(u.z.abs() <= 2 * 65536);
        let ls = u.length_squared();
        assert!((ls - 65536).abs() <= 32, "squared length {ls}");
    }
}

#[test]
fn random_on_hemisphere_is_near_unit_and_not_against_normal() {
    let n = fxv(0.0, 0.0, 1.0);
    for _ in 0..200 {
        let u = random_on_hemisphere(&n);
        let ls = u.length_squared();
        assert!((ls - 65536).abs() <= 32, "squared length {ls}");
        assert!(dot(u, n) >= -3);
    }
}

#[test]
fn random_in_unit_disk_is_flat_and_inside() {
    for _ in 0..500 {
        let p = random_in_unit_disk();
        assert_eq!(p.z, 0);
        assert!(p.length_squared() < 65536);
    }
}

#[test]
fn vector_constructors() {
    let v = Vec3::new(1, 2, 3);
    assert_eq!((v.x, v.y, v.z), (1, 2, 3));
    let f = Vec3::from_float(65536);
    assert_eq!(f, Vec3::new(65536, 65536, 65536));
    for _ in 0..100 {
        let r = Vec3::random();
        assert!(0 <= r.x && r.x < 65536);
        assert!(0 <= r.y && r.y < 65536);
        assert!(0 <= r.z && r.z < 65536);
        let q = Vec3::random_range(-65536, 65536);
        assert!(-65536 <= q.x && q.x < 65536);
    }
}
