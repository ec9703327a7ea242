use raytrace::hittable::HitRecord;
use raytrace::material::{
    dielectric_scatter_with, lambertian_scatter_with, metal_scatter_with, Dielectric, Lambertian,
    Material, Metal,
};
use raytrace::ray::Ray;
use raytrace::vec3::Vec3;

fn fxv(x: f64, y: f64, z: f64) -> Vec3 {
    Vec3::new(
        (x * 65536.0) as i64,
        (y * 65536.0) as i64,
        (z * 65536.0) as i64,
    )
}

fn surface_hit() -> HitRecord {
    HitRecord {
        p: fxv(0.0, 0.0, 0.0),
        normal: fxv(0.0, 0.0, 1.0),
        mat: 0,
        t: 65536,
        front_face: true,
    }
}

#[test]
fn metal_fuzz_is_clamped_at_construction() {
    let m = Metal::new(fxv(0.8, 0.8, 0.8), 3 * 65536);
    assert_eq!(m.fuzz, 65536);
    let m2 = Metal::new(fxv(0.8, 0.8, 0.8), -5);
    assert_eq!(m2.fuzz, 0);
    let m3 = Metal::new(fxv(0.8, 0.8, 0.8), 1234);
    assert_eq!(m3.fuzz, 1234);
}

#[test]
fn lambertian_never_absorbs() {
    let l = Lambertian::new(fxv(0.4, 0.2, 0.1));
    let m = Material::Lambertian(l);
    let r = Ray::new(fxv(0.0, 0.0, 1.0), fxv(0.0, 0.0, -1.0));
    let rec = surface_hit();
    for _ in 0..200 {
        let sr = m.scatter(&r, &rec);
        assert!(sr.is_some());
        let sr = sr.unwrap();
        assert_eq!(sr.attenuation, fxv(0.4, 0.2, 0.1));
        assert_eq!(sr.scattered.origin(), rec.p);
    }
}

#[test]
fn lambertian_degenerate_direction_falls_back_to_normal() {
    let l = Lambertian::new(fxv(0.5, 0.5, 0.5));
    let rec = surface_hit();
    // a unit sample exactly opposite the normal cancels it
    let u = fxv(0.0, 0.0, -1.0);
    let sr = lambertian_scatter_with(&l, &rec, u);
    assert_eq!(sr.scattered.direction(), rec.normal);
}

#[test]
fn metal_reflects_when_bounce_leaves_surface() {
    let m = Metal::new(fxv(0.7, 0.6, 0.5), 0);
    let rec = surface_hit();
    let r = Ray::new(fxv(-1.0, 0.0, 1.0), fxv(1.0, 0.0, -1.0));
    let sr = metal_scatter_with(&m, &r, &rec, fxv(0.0, 0.0, 0.0)).expect("must scatter");
    // the unit reflection of (1,0,-1) about +z
    let d = sr.scattered.direction();
    assert!(d.z > 0);
    assert_eq!(d.x, d.z);
    assert_eq!(sr.attenuation, fxv(0.7, 0.6, 0.5));
}

#[test]
fn metal_absorbs_when_fuzzed_bounce_points_inward() {
    // grazing incidence plus a fuzz sample pointing into the surface:
    // the fuzzed direction has non-positive dot with the normal
    let m = Metal::new(fxv(0.7, 0.6, 0.5), 65536);
    let rec = surface_hit();
    let r = Ray::new(fxv(-1.0, 0.0, 1.0), Vec3::new(65536, 0, -66));
    let u = fxv(0.0, 0.0, -2.0);
    assert!(metal_scatter_with(&m, &r, &rec, u).is_none());
}

#[test]
fn dielectric_at_normal_incidence_refracts_straight_through() {
    // refraction index 1.5, head-on: cos = 1, sin = 0, so never total
    // internal reflection; any draw at least r0 (2621) refracts
    let d = Dielectric::new((1.5 * 65536.0) as i64);
    let rec = surface_hit();
    let r = Ray::new(fxv(0.0, 0.0, 1.0), fxv(0.0, 0.0, -1.0));
    for draw in [2621, 30000, 65535] {
        let sr = dielectric_scatter_with(&d, &r, &rec, draw).expect("always scatters");
        assert_eq!(sr.scattered.direction(), fxv(0.0, 0.0, -1.0));
        assert_eq!(sr.attenuation, fxv(1.0, 1.0, 1.0));
    }
}

#[test]
fn dielectric_reflects_on_a_low_draw() {
    // a draw below the base reflectance picks the mirror branch
    let d = Dielectric::new((1.5 * 65536.0) as i64);
    let rec = surface_hit();
    let r = Ray::new(fxv(0.0, 0.0, 1.0), fxv(0.0, 0.0, -1.0));
    let sr = dielectric_scatter_with(&d, &r, &rec, 100).expect("always scatters");
    assert_eq!(sr.scattered.direction(), fxv(0.0, 0.0, 1.0));
}

#[test]
fn dielectric_total_internal_reflection_from_inside() {
    // leaving glass at a grazing angle: ratio * sin > 1, so the ray
    // must reflect whatever the draw
    let d = Dielectric::new((1.5 * 65536.0) as i64);
    let rec = HitRecord {
        p: fxv(0.0, 0.0, 0.0),
        normal: fxv(0.0, 0.0, 1.0),
        mat: 0,
        t: 65536,
        front_face: false,
    };
    let r = Ray::new(fxv(-1.0, 0.0, 1.0), fxv(1.0, 0.0, -0.25));
    let sr = dielectric_scatter_with(&d, &r, &rec, 65535).expect("always scatters");
    // reflected: the z component flips sign
    assert!(sr.scattered.direction().z > 0);
}
