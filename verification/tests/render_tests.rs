use raytrace::camera::{ray_color, Camera, RAY_EPS};
use raytrace::colors::{channel_to_byte, color_to_bytes, finalize_channel, linear_to_gamma, INTENSITY_MAX};
use raytrace::hittable_list::HittableList;
use raytrace::limits::T_MAX;
use raytrace::material::{Lambertian, Material};
use raytrace::ray::Ray;
use raytrace::sphere::Sphere;
use raytrace::vec3::Vec3;

fn fxv(x: f64, y: f64, z: f64) -> Vec3 {
    Vec3::new(
        (x * 65536.0) as i64,
        (y * 65536.0) as i64,
        (z * 65536.0) as i64,
    )
}

fn fx(x: f64) -> i64 {
    (x * 65536.0) as i64
}

fn tan_half_degrees(angle: f64) -> i64 {
    ((angle.to_radians() / 2.0).tan() * 65536.0) as i64
}

#[test]
fn gamma_of_quarter_is_half() {
    assert_eq!(linear_to_gamma(fx(0.25)), fx(0.5));
    assert_eq!(linear_to_gamma(0), 0);
    assert_eq!(linear_to_gamma(-100), 0);
}

#[test]
fn output_stage_endpoints() {
    // 1.0 maps to the top of the displayable range, <= 0 to the bottom
    assert_eq!(finalize_channel(65536), INTENSITY_MAX);
    assert_eq!(finalize_channel(0), 0);
    assert_eq!(finalize_channel(-7), 0);
}

#[test]
fn output_stage_is_monotonic() {
    let mut prev = 0;
    let mut x: i64 = -1000;
    while x <= 70000 {
        let y = finalize_channel(x);
        assert!(y >= prev, "output fell from {prev} to {y} at input {x}");
        prev = y;
        x += 97;
    }
}

#[test]
fn bytes_from_channels() {
    assert_eq!(channel_to_byte(0), 0);
    assert_eq!(channel_to_byte(INTENSITY_MAX), 255);
    assert_eq!(channel_to_byte(fx(0.5)), 128);
    let (r, g, b) = color_to_bytes(Vec3::new(0, fx(0.5), INTENSITY_MAX));
    assert_eq!((r, g, b), (0, 128, 255));
}

#[test]
fn ray_color_below_depth_floor_is_black() {
    let mut w = HittableList::new();
    let m = w.add_material(Material::Lambertian(Lambertian::new(fxv(0.5, 0.5, 0.5))));
    w.add(Sphere::new(fxv(0.0, 0.0, -2.0), 65536, m));
    let r = Ray::new(fxv(0.0, 0.0, 0.0), fxv(0.0, 0.0, -1.0));
    assert_eq!(ray_color(&r, -1, &w), Vec3::new(0, 0, 0));
    assert_eq!(ray_color(&r, -50, &w), Vec3::new(0, 0, 0));
}

#[test]
fn ray_color_miss_is_sky() {
    let w = HittableList::new();
    // straight up: the blend factor is 1, giving the sky blue
    let up = Ray::new(fxv(0.0, 0.0, 0.0), fxv(0.0, 1.0, 0.0));
    assert_eq!(ray_color(&up, 10, &w), fxv(0.5, 0.7, 1.0));
    // straight down: the blend factor is 0, giving white
    let down = Ray::new(fxv(0.0, 0.0, 0.0), fxv(0.0, -1.0, 0.0));
    assert_eq!(ray_color(&down, 10, &w), fxv(1.0, 1.0, 1.0));
}

#[test]
fn interval_constants_for_tracing() {
    assert_eq!(RAY_EPS, 66);
    assert!(T_MAX > 1000000 * 65536);
}

fn demo_camera() -> Camera {
    let mut cam = Camera::new();
    cam.aspect_ratio = fx(16.0 / 9.0);
    cam.image_width = 64;
    cam.samples_per_pixel = 2;
    cam.max_depth = 8;
    cam.tan_half_vfov = tan_half_degrees(20.0);
    cam.look_from = fxv(13.0, 2.0, 3.0);
    cam.look_at = fxv(0.0, 0.0, 0.0);
    cam.vup = fxv(0.0, 1.0, 0.0);
    cam.tan_half_defocus = tan_half_degrees(0.6);
    cam.focus_dist = fx(10.0);
    cam.initialize();
    cam
}

#[test]
fn initialize_derives_image_height() {
    let cam = demo_camera();
    assert_eq!(cam.image_height, 64 * 65536 / fx(16.0 / 9.0));
    assert_eq!(cam.image_height, 36);
}

#[test]
fn initialize_is_idempotent() {
    let mut cam = demo_camera();
    let h = cam.image_height;
    let p00 = cam.pixel00_loc;
    let du = cam.pixel_delta_u;
    cam.initialize();
    assert_eq!(cam.image_height, h);
    assert_eq!(cam.pixel00_loc, p00);
    assert_eq!(cam.pixel_delta_u, du);
}

#[test]
fn get_ray_is_well_formed() {
    let cam = demo_camera();
    for _ in 0..50 {
        let r = cam.get_ray(0, 0);
        assert!(r.direction().x.abs() <= 67108864);
        assert!(r.direction().y.abs() <= 67108864);
        assert!(r.direction().z.abs() <= 67108864);
        assert!(r.origin().x.abs() <= 134217728);
    }
}

#[test]
fn render_produces_one_bounded_color_per_pixel() {
    let mut w = HittableList::new();
    let ground = w.add_material(Material::Lambertian(Lambertian::new(fxv(0.5, 0.5, 0.5))));
    w.add(Sphere::new(fxv(0.0, -1000.0, 0.0), fx(1000.0), ground));
    w.add(Sphere::new(fxv(0.0, 1.0, 0.0), fx(1.0), ground));
    let cam = demo_camera();
    let pixels = cam.render(&w);
    assert_eq!(pixels.len(), 64 * 36);
    for p in &pixels {
        assert!(0 <= p.x && p.x <= INTENSITY_MAX);
        assert!(0 <= p.y && p.y <= INTENSITY_MAX);
        assert!(0 <= p.z && p.z <= INTENSITY_MAX);
    }
}

fn square_camera() -> Camera {
    let mut cam = Camera::new();
    cam.aspect_ratio = 65536;
    cam.image_width = 64;
    cam.samples_per_pixel = 1;
    cam.max_depth = 3;
    cam.tan_half_vfov = 65536; // a 90 degree field of view
    cam.look_from = fxv(0.0, 0.0, 0.0);
    cam.look_at = fxv(0.0, 0.0, -1.0);
    cam.vup = fxv(0.0, 1.0, 0.0);
    cam.tan_half_defocus = 0;
    cam.focus_dist = 65536;
    cam.initialize();
    cam
}

#[test]
fn get_ray_origin_is_center_when_lens_disabled() {
    let cam = square_camera();
    for _ in 0..20 {
        let r = cam.get_ray(5, 7);
        assert_eq!(r.origin(), fxv(0.0, 0.0, 0.0));
    }
}

#[test]
fn get_ray_with_centered_samples_is_exact() {
    // an axis-aligned square camera: every derived quantity is a whole
    // number of fixed-point steps, so the pixel ray is exact
    let cam = square_camera();
    let zero = Vec3::new(0, 0, 0);
    let r = cam.get_ray_with(32, 32, zero, zero);
    assert_eq!(r.origin(), zero);
    assert_eq!(r.direction(), Vec3::new(1024, -1024, -65536));
}

#[test]
fn antialiasing_converges_on_a_sharp_boundary() {
    // a pixel straddling the silhouette of a huge black sphere sees the
    // sky for about half its samples. The sky's blue channel is exactly
    // one whatever the direction, so the averaged blue channel converges
    // to one half (0.7071 after gamma).
    let mut w = HittableList::new();
    let black = w.add_material(Material::Lambertian(Lambertian::new(fxv(0.0, 0.0, 0.0))));
    // a grazing wall: rays drifting right far enough strike it, the
    // rest escape; the offset puts the silhouette through the center of
    // pixel (32, 32)
    w.add(Sphere::new(
        Vec3::new(fx(1000.15325), 0, -2 * 65536),
        fx(1000.0),
        black,
    ));
    let mut cam = Camera::new();
    cam.aspect_ratio = 65536;
    cam.image_width = 64;
    cam.samples_per_pixel = 4096;
    cam.max_depth = 3;
    cam.tan_half_vfov = 65536; // a 90 degree field of view
    cam.look_from = fxv(0.0, 0.0, 0.0);
    cam.look_at = fxv(0.0, 0.0, -1.0);
    cam.vup = fxv(0.0, 1.0, 0.0);
    cam.tan_half_defocus = 0;
    cam.focus_dist = 65536;
    cam.initialize();
    // pixel 32 of the middle row is centered on the silhouette
    let p = cam.render_pixel(&w, 32, 32);
    assert!(
        43500 <= p.z && p.z <= 49000,
        "blue channel {} strayed from the area-weighted blend",
        p.z
    );
}
