//! The camera and renderer: viewing configuration, derived pixel-grid and
//! lens geometry, per-pixel ray generation, the recursive trace, and the
//! render loop.

use vstd::prelude::*;
use vstd::arithmetic::div_mod::*;
use crate::colors::{INTENSITY_MAX, finalize_channel, finalize_channel_spec};
use crate::common::random_double;
use crate::fx::{
    FX_ONE, fx_mul, fx_mul_spec, div_floor_i64, div_floor_nn, lemma_fxm_bound,
    lemma_div_abs_bound,
};
use crate::hittable_list::{HittableList, scene_hit_spec, wf_scene};
use crate::interval::Interval;
use crate::limits::{COORD_MAX, ORIGIN_MAX, T_MAX};
use crate::material::{Material, ScatterRecord, color_ok};
use crate::hittable::HitRecord;
use crate::ray::{Ray, wf_ray};
use crate::vec3::{
    Color, Point3, Vec3, cross, cross_spec, ls_spec, random_in_unit_disk, unit_spec, unit_vector,
    vec_bounded,
};

verus! {

/// The smallest ray parameter a bounce accepts, keeping a scattered ray
/// from re-hitting its own origin: about one thousandth of a unit.
pub const RAY_EPS: i64 = 66;

/// The camera: a viewing configuration, and the state `initialize`
/// derives from it once before any rendering.
///
/// Angles enter as tangents: `tan_half_vfov` is the tangent of half the
/// vertical field of view, and `tan_half_defocus` the tangent of half
/// the defocus angle (zero or less disables the lens); the caller
/// converts degrees outside the core.
pub struct Camera {
    /// Ratio of image width over height.
    pub aspect_ratio: i64,
    /// Rendered image width in pixels.
    pub image_width: i64,
    /// Random samples averaged per pixel.
    pub samples_per_pixel: i64,
    /// Maximum number of ray bounces into the scene.
    pub max_depth: i32,
    /// Tangent of half the vertical field of view.
    pub tan_half_vfov: i64,
    /// Point the camera looks from.
    pub look_from: Point3,
    /// Point the camera looks at.
    pub look_at: Point3,
    /// Camera-relative up direction.
    pub vup: Vec3,
    /// Tangent of half the variation angle of rays through each pixel;
    /// zero or less disables defocus blur.
    pub tan_half_defocus: i64,
    /// Distance from `look_from` to the plane of perfect focus.
    pub focus_dist: i64,
    /// Rendered image height in pixels (derived).
    pub image_height: i64,
    /// Camera center (derived).
    pub center: Point3,
    /// Location of the center of pixel (0, 0) (derived).
    pub pixel00_loc: Point3,
    /// Offset to the pixel to the right (derived).
    pub pixel_delta_u: Vec3,
    /// Offset to the pixel below (derived).
    pub pixel_delta_v: Vec3,
    /// Camera frame basis vectors (derived).
    pub u: Vec3,
    /// Camera frame basis vectors (derived).
    pub v: Vec3,
    /// Camera frame basis vectors (derived).
    pub w: Vec3,
    /// Defocus disk horizontal radius vector (derived).
    pub defocus_disk_u: Vec3,
    /// Defocus disk vertical radius vector (derived).
    pub defocus_disk_v: Vec3,
}

/// The vector from the look-at point to the camera.
pub open spec fn look_diff_of(c: Camera) -> Vec3 {
    (Vec3 {
        x: (c.look_from.x - c.look_at.x) as i64,
        y: (c.look_from.y - c.look_at.y) as i64,
        z: (c.look_from.z - c.look_at.z) as i64,
    })
}

/// The camera basis vector pointing against the view direction.
pub open spec fn w_of(c: Camera) -> Vec3 {
    let t = unit_spec(look_diff_of(c));
    (Vec3 { x: t.0 as i64, y: t.1 as i64, z: t.2 as i64 })
}

/// The cross product of the up direction with `w`, before normalizing.
pub open spec fn cvw_of(c: Camera) -> Vec3 {
    let t = cross_spec(c.vup, w_of(c));
    (Vec3 { x: t.0 as i64, y: t.1 as i64, z: t.2 as i64 })
}

/// The camera basis vector pointing right.
pub open spec fn u_of(c: Camera) -> Vec3 {
    let t = unit_spec(cvw_of(c));
    (Vec3 { x: t.0 as i64, y: t.1 as i64, z: t.2 as i64 })
}

/// The camera basis vector pointing up.
pub open spec fn v_of(c: Camera) -> Vec3 {
    let t = cross_spec(w_of(c), u_of(c));
    (Vec3 { x: t.0 as i64, y: t.1 as i64, z: t.2 as i64 })
}

/// The configuration ranges the fixed-point camera math accepts. Every
/// bound is an overflow budget of the 16.16 scale: the aspect, tangent
/// and focus caps keep the derived viewport within the ray-direction
/// budget (`DIR_MAX`), the look-point bounds keep ray origins inside the
/// world, and the width floor keeps a single pixel step a small
/// fraction of the viewport edge, which is what closes the per-ray
/// direction bound in `get_ray_with`. Spec-wise wider cameras would
/// need a wider scale, not a different algorithm.
pub open spec fn config_ok(c: Camera) -> bool {
    &&& 16384 <= c.aspect_ratio <= 262144
    &&& 64 <= c.image_width <= 8192
    &&& 1 <= c.samples_per_pixel <= 65536
    &&& 0 <= c.max_depth <= 4096
    &&& 1 <= c.tan_half_vfov <= 65536
    &&& vec_bounded(c.look_from, COORD_MAX as int)
    &&& vec_bounded(c.look_at, COORD_MAX as int)
    &&& vec_bounded(c.vup, 0x10_0000)
    &&& -65536 <= c.tan_half_defocus <= 65536
    &&& 1024 <= c.focus_dist <= 0x10_0000
    &&& 1 <= ls_spec(look_diff_of(c))
    &&& 1 <= ls_spec(cvw_of(c))
}

/// The derived image height: the width over the aspect ratio, at least
/// one row.
pub open spec fn image_height_of(c: Camera) -> int {
    let h = (c.image_width * 65536) / (c.aspect_ratio as int);
    if h < 1 {
        1
    } else {
        h
    }
}

/// The viewport height: twice the half-view tangent, at focus distance.
pub open spec fn vph_of(c: Camera) -> int {
    fx_mul_spec(2 * c.tan_half_vfov, c.focus_dist as int)
}

/// The viewport width.
pub open spec fn vpw_of(c: Camera) -> int {
    fx_mul_spec(vph_of(c), c.aspect_ratio as int)
}

/// The vector across the viewport's horizontal edge.
pub open spec fn viewport_u_of(c: Camera) -> Vec3 {
    (Vec3 {
        x: fx_mul_spec(vpw_of(c), u_of(c).x as int) as i64,
        y: fx_mul_spec(vpw_of(c), u_of(c).y as int) as i64,
        z: fx_mul_spec(vpw_of(c), u_of(c).z as int) as i64,
    })
}

/// The vector down the viewport's vertical edge.
pub open spec fn viewport_v_of(c: Camera) -> Vec3 {
    (Vec3 {
        x: fx_mul_spec(vph_of(c), -v_of(c).x as int) as i64,
        y: fx_mul_spec(vph_of(c), -v_of(c).y as int) as i64,
        z: fx_mul_spec(vph_of(c), -v_of(c).z as int) as i64,
    })
}

/// The offset from one pixel to the next, rightward.
pub open spec fn delta_u_of(c: Camera) -> Vec3 {
    (Vec3 {
        x: (viewport_u_of(c).x as int / (c.image_width as int)) as i64,
        y: (viewport_u_of(c).y as int / (c.image_width as int)) as i64,
        z: (viewport_u_of(c).z as int / (c.image_width as int)) as i64,
    })
}

/// The offset from one pixel to the next, downward.
pub open spec fn delta_v_of(c: Camera) -> Vec3 {
    (Vec3 {
        x: (viewport_v_of(c).x as int / image_height_of(c)) as i64,
        y: (viewport_v_of(c).y as int / image_height_of(c)) as i64,
        z: (viewport_v_of(c).z as int / image_height_of(c)) as i64,
    })
}

/// The center of pixel (0, 0): the upper-left viewport corner plus half
/// a pixel step each way.
pub open spec fn pixel00_of(c: Camera) -> Vec3 {
    let ulx = c.look_from.x - fx_mul_spec(c.focus_dist as int, w_of(c).x as int) - viewport_u_of(
        c,
    ).x as int / 2 - viewport_v_of(c).x as int / 2;
    let uly = c.look_from.y - fx_mul_spec(c.focus_dist as int, w_of(c).y as int) - viewport_u_of(
        c,
    ).y as int / 2 - viewport_v_of(c).y as int / 2;
    let ulz = c.look_from.z - fx_mul_spec(c.focus_dist as int, w_of(c).z as int) - viewport_u_of(
        c,
    ).z as int / 2 - viewport_v_of(c).z as int / 2;
    (Vec3 {
        x: (ulx + fx_mul_spec(32768, delta_u_of(c).x + delta_v_of(c).x)) as i64,
        y: (uly + fx_mul_spec(32768, delta_u_of(c).y + delta_v_of(c).y)) as i64,
        z: (ulz + fx_mul_spec(32768, delta_u_of(c).z + delta_v_of(c).z)) as i64,
    })
}

/// The defocus disk radius: the focus distance scaled by the half-angle
/// tangent.
pub open spec fn defocus_radius_of(c: Camera) -> int {
    fx_mul_spec(c.focus_dist as int, c.tan_half_defocus as int)
}

/// The defocus disk's horizontal radius vector.
pub open spec fn ddu_of(c: Camera) -> Vec3 {
    (Vec3 {
        x: fx_mul_spec(defocus_radius_of(c), u_of(c).x as int) as i64,
        y: fx_mul_spec(defocus_radius_of(c), u_of(c).y as int) as i64,
        z: fx_mul_spec(defocus_radius_of(c), u_of(c).z as int) as i64,
    })
}

/// The defocus disk's vertical radius vector.
pub open spec fn ddv_of(c: Camera) -> Vec3 {
    (Vec3 {
        x: fx_mul_spec(defocus_radius_of(c), v_of(c).x as int) as i64,
        y: fx_mul_spec(defocus_radius_of(c), v_of(c).y as int) as i64,
        z: fx_mul_spec(defocus_radius_of(c), v_of(c).z as int) as i64,
    })
}

/// The derived state is in place and within the bounds that per-pixel
/// ray generation relies on. `initialize` establishes this.
pub open spec fn wf_camera(c: Camera) -> bool {
    &&& config_ok(c)
    &&& c.image_height == image_height_of(c)
    &&& 16 <= c.image_height <= 32768
    &&& c.center == c.look_from
    &&& c.w == w_of(c)
    &&& c.u == u_of(c)
    &&& c.v == v_of(c)
    &&& c.pixel_delta_u == delta_u_of(c)
    &&& c.pixel_delta_v == delta_v_of(c)
    &&& c.pixel00_loc == pixel00_of(c)
    &&& c.defocus_disk_u == ddu_of(c)
    &&& c.defocus_disk_v == ddv_of(c)
    &&& vec_bounded(c.pixel_delta_u, 16_778_000int / (c.image_width as int) + 1)
    &&& vec_bounded(c.pixel_delta_v, 16_778_000int / (c.image_height as int) + 1)
    &&& (forall|k: int|
        {
            &&& -19_600_000 <= #[trigger] (vec_comp(c.pixel00_loc, k) - vec_comp(c.center, k))
                <= 19_600_000
        })
    &&& vec_bounded(c.defocus_disk_u, 0x20_0004)
    &&& vec_bounded(c.defocus_disk_v, 0x90_0000)
}

/// One component of a vector, by index modulo three; a convenience for
/// stating a bound once over all three components.
pub open spec fn vec_comp(v: Vec3, k: int) -> int {
    if k % 3 == 0 {
        v.x as int
    } else if k % 3 == 1 {
        v.y as int
    } else {
        v.z as int
    }
}

impl Camera {
    /// A camera with everything zeroed; the caller fills the
    /// configuration fields and then derives the rest with `initialize`.
    pub fn new() -> (c: Camera)
        ensures
            c.aspect_ratio == 0,
            c.image_width == 0,
            c.samples_per_pixel == 0,
            c.max_depth == 0,
            c.tan_half_vfov == 0,
            c.look_from == (Vec3 { x: 0, y: 0, z: 0 }),
            c.look_at == (Vec3 { x: 0, y: 0, z: 0 }),
            c.vup == (Vec3 { x: 0, y: 0, z: 0 }),
            c.tan_half_defocus == 0,
            c.focus_dist == 0,
            c.image_height == 0,
    {
        let zero = Vec3 { x: 0, y: 0, z: 0 };
        Camera {
            aspect_ratio: 0,
            image_width: 0,
            samples_per_pixel: 0,
            max_depth: 0,
            tan_half_vfov: 0,
            look_from: zero,
            look_at: zero,
            vup: zero,
            tan_half_defocus: 0,
            focus_dist: 0,
            image_height: 0,
            center: zero,
            pixel00_loc: zero,
            pixel_delta_u: zero,
            pixel_delta_v: zero,
            u: zero,
            v: zero,
            w: zero,
            defocus_disk_u: zero,
            defocus_disk_v: zero,
        }
    }

    /// Derives the pixel grid and lens geometry from the configuration.
    /// Idempotent; must run before `render`.
    pub fn initialize(&mut self)
        requires
            config_ok(*old(self)),
        ensures
            wf_camera(*final(self)),
            final(self).aspect_ratio == old(self).aspect_ratio,
            final(self).image_width == old(self).image_width,
            final(self).samples_per_pixel == old(self).samples_per_pixel,
            final(self).max_depth == old(self).max_depth,
            final(self).tan_half_vfov == old(self).tan_half_vfov,
            final(self).look_from == old(self).look_from,
            final(self).look_at == old(self).look_at,
            final(self).vup == old(self).vup,
            final(self).tan_half_defocus == old(self).tan_half_defocus,
            final(self).focus_dist == old(self).focus_dist,
    {
        let ghost c0 = *self;
        // Image
        let ih = ((self.image_width as u64 * 65536) / (self.aspect_ratio as u64)) as i64;
        proof {
            lemma_div_is_ordered(
                self.image_width * 65536,
                8192int * 65536,
                self.aspect_ratio as int,
            );
            lemma_div_is_ordered_by_denominator(8192int * 65536, 16384, self.aspect_ratio as int);
            lemma_div_pos_is_pos(self.image_width * 65536, self.aspect_ratio as int);
            lemma_div_is_ordered(64int * 65536, self.image_width * 65536, self.aspect_ratio as int);
            lemma_div_is_ordered_by_denominator(64int * 65536, self.aspect_ratio as int, 262144);
        }
        self.image_height = if ih < 1 {
            1
        } else {
            ih
        };

        // Camera frame
        self.center = self.look_from;
        let diff = self.look_from.sub(self.look_at);
        let w = unit_vector(diff);
        self.w = w;
        let cvw = cross(self.vup, w);
        proof {
            assert(cvw == cvw_of(c0));
        }
        let u = unit_vector(cvw);
        self.u = u;
        let v = cross(w, u);
        self.v = v;
        proof {
            lemma_cross_unit_bound(w, u, v);
        }

        // Viewport
        proof {
            lemma_fxm_bound(2 * self.tan_half_vfov, self.focus_dist as int, 131072, 0x10_0000);
        }
        let viewport_height = fx_mul(2 * self.tan_half_vfov, self.focus_dist);
        proof {
            lemma_fxm_bound(viewport_height as int, self.aspect_ratio as int, 2_097_153, 262144);
        }
        let viewport_width = fx_mul(viewport_height, self.aspect_ratio);
        proof {
            lemma_fxm_bound(viewport_width as int, u.x as int, 8_388_613, 131072);
            lemma_fxm_bound(viewport_width as int, u.y as int, 8_388_613, 131072);
            lemma_fxm_bound(viewport_width as int, u.z as int, 8_388_613, 131072);
        }
        let viewport_u = u.scale(viewport_width);
        let nv = v.neg();
        proof {
            lemma_fxm_bound(viewport_height as int, nv.x as int, 2_097_153, 524292);
            lemma_fxm_bound(viewport_height as int, nv.y as int, 2_097_153, 524292);
            lemma_fxm_bound(viewport_height as int, nv.z as int, 2_097_153, 524292);
        }
        let viewport_v = nv.scale(viewport_height);

        // Pixel deltas
        let du = div_vec(viewport_u, self.image_width);
        let dv = div_vec(viewport_v, self.image_height);
        self.pixel_delta_u = du;
        self.pixel_delta_v = dv;
        proof {
            lemma_div_abs_bound(viewport_u.x as int, 16_778_000, self.image_width as int);
            lemma_div_abs_bound(viewport_u.y as int, 16_778_000, self.image_width as int);
            lemma_div_abs_bound(viewport_u.z as int, 16_778_000, self.image_width as int);
            lemma_div_abs_bound(viewport_v.x as int, 16_778_000, self.image_height as int);
            lemma_div_abs_bound(viewport_v.y as int, 16_778_000, self.image_height as int);
            lemma_div_abs_bound(viewport_v.z as int, 16_778_000, self.image_height as int);
            lemma_div_abs_bound(viewport_u.x as int, 16_777_227, self.image_width as int);
            lemma_div_abs_bound(viewport_u.y as int, 16_777_227, self.image_width as int);
            lemma_div_abs_bound(viewport_u.z as int, 16_777_227, self.image_width as int);
            lemma_div_abs_bound(viewport_v.x as int, 16_777_800, self.image_height as int);
            lemma_div_abs_bound(viewport_v.y as int, 16_777_800, self.image_height as int);
            lemma_div_abs_bound(viewport_v.z as int, 16_777_800, self.image_height as int);
        }

        // Upper-left pixel
        proof {
            lemma_fxm_bound(self.focus_dist as int, w.x as int, 0x10_0000, 131072);
            lemma_fxm_bound(self.focus_dist as int, w.y as int, 0x10_0000, 131072);
            lemma_fxm_bound(self.focus_dist as int, w.z as int, 0x10_0000, 131072);
        }
        let fw = w.scale(self.focus_dist);
        let half_vu = div_vec(viewport_u, 2);
        let half_vv = div_vec(viewport_v, 2);
        proof {
            lemma_div_abs_bound(viewport_u.x as int, 16_777_227, 2);
            lemma_div_abs_bound(viewport_u.y as int, 16_777_227, 2);
            lemma_div_abs_bound(viewport_u.z as int, 16_777_227, 2);
            lemma_div_abs_bound(viewport_v.x as int, 16_777_800, 2);
            lemma_div_abs_bound(viewport_v.y as int, 16_777_800, 2);
            lemma_div_abs_bound(viewport_v.z as int, 16_777_800, 2);
        }
        let viewport_upper_left = self.center.sub(fw).sub(half_vu).sub(half_vv);
        let dsum = du.add(dv);
        proof {
            lemma_div_is_ordered_by_denominator(16_778_000, 64, self.image_width as int);
            lemma_div_is_ordered_by_denominator(16_778_000, 16, self.image_height as int);
            lemma_fxm_bound(32768, dsum.x as int, 32768, 1_310_800);
            lemma_fxm_bound(32768, dsum.y as int, 32768, 1_310_800);
            lemma_fxm_bound(32768, dsum.z as int, 32768, 1_310_800);
        }
        let halfstep = dsum.scale(32768);
        self.pixel00_loc = viewport_upper_left.add(halfstep);

        // Defocus disk
        proof {
            lemma_fxm_bound(self.focus_dist as int, self.tan_half_defocus as int, 0x10_0000, 65536);
        }
        let defocus_radius = fx_mul(self.focus_dist, self.tan_half_defocus);
        proof {
            lemma_fxm_bound(defocus_radius as int, u.x as int, 0x10_0001, 131072);
            lemma_fxm_bound(defocus_radius as int, u.y as int, 0x10_0001, 131072);
            lemma_fxm_bound(defocus_radius as int, u.z as int, 0x10_0001, 131072);
            lemma_fxm_bound(defocus_radius as int, v.x as int, 0x10_0001, 524292);
            lemma_fxm_bound(defocus_radius as int, v.y as int, 0x10_0001, 524292);
            lemma_fxm_bound(defocus_radius as int, v.z as int, 0x10_0001, 524292);
        }
        self.defocus_disk_u = u.scale(defocus_radius);
        self.defocus_disk_v = v.scale(defocus_radius);
        proof {
            assert(config_ok(*self));
            assert(self.image_height == image_height_of(*self));
            assert(16 <= self.image_height <= 32768);
            assert(self.w == w_of(*self));
            assert(self.u == u_of(*self));
            assert(self.v == v_of(*self));
            assert(self.pixel_delta_u == delta_u_of(*self));
            assert(self.pixel_delta_v == delta_v_of(*self));
            assert(self.pixel00_loc == pixel00_of(*self));
            assert(self.defocus_disk_u == ddu_of(*self));
            assert(self.defocus_disk_v == ddv_of(*self));
            assert(vec_bounded(self.pixel_delta_u, 16_778_000int / (self.image_width as int) + 1));
            assert(vec_bounded(self.pixel_delta_v, 16_778_000int / (self.image_height as int) + 1));
            assert(vec_bounded(self.defocus_disk_u, 0x20_0004));
            assert(vec_bounded(self.defocus_disk_v, 0x90_0000));
            assert forall|k: int|
                -19_600_000 <= #[trigger] (vec_comp(self.pixel00_loc, k) - vec_comp(
                    self.center,
                    k,
                )) <= 19_600_000 by {
                assert(-19_600_000 <= self.pixel00_loc.x - self.center.x <= 19_600_000);
                assert(-19_600_000 <= self.pixel00_loc.y - self.center.y <= 19_600_000);
                assert(-19_600_000 <= self.pixel00_loc.z - self.center.z <= 19_600_000);
            }
        }
    }
}

/// Each component of the cross product of two near-unit vectors stays
/// within a little over eight scale units.
proof fn lemma_cross_unit_bound(w: Vec3, u: Vec3, v: Vec3)
    requires
        vec_bounded(w, 2 * FX_ONE),
        vec_bounded(u, 2 * FX_ONE),
        (v.x as int, v.y as int, v.z as int) == cross_spec(w, u),
    ensures
        vec_bounded(v, 524292),
{
    lemma_fxm_bound(w.y as int, u.z as int, 131072, 131072);
    lemma_fxm_bound(w.z as int, u.y as int, 131072, 131072);
    lemma_fxm_bound(w.z as int, u.x as int, 131072, 131072);
    lemma_fxm_bound(w.x as int, u.z as int, 131072, 131072);
    lemma_fxm_bound(w.x as int, u.y as int, 131072, 131072);
    lemma_fxm_bound(w.y as int, u.x as int, 131072, 131072);
}

/// The derived state is a function of the configuration alone, so
/// `initialize` is idempotent: two initialized cameras with the same
/// configuration agree on everything.
pub proof fn lemma_initialize_deterministic(c1: Camera, c2: Camera)
    requires
        wf_camera(c1),
        wf_camera(c2),
        c1.aspect_ratio == c2.aspect_ratio,
        c1.image_width == c2.image_width,
        c1.samples_per_pixel == c2.samples_per_pixel,
        c1.max_depth == c2.max_depth,
        c1.tan_half_vfov == c2.tan_half_vfov,
        c1.look_from == c2.look_from,
        c1.look_at == c2.look_at,
        c1.vup == c2.vup,
        c1.tan_half_defocus == c2.tan_half_defocus,
        c1.focus_dist == c2.focus_dist,
    ensures
        c1 == c2,
{
    assert(look_diff_of(c1) == look_diff_of(c2));
    assert(w_of(c1) == w_of(c2));
    assert(cvw_of(c1) == cvw_of(c2));
    assert(u_of(c1) == u_of(c2));
    assert(v_of(c1) == v_of(c2));
    assert(image_height_of(c1) == image_height_of(c2));
    assert(viewport_u_of(c1) == viewport_u_of(c2));
    assert(viewport_v_of(c1) == viewport_v_of(c2));
    assert(delta_u_of(c1) == delta_u_of(c2));
    assert(delta_v_of(c1) == delta_v_of(c2));
    assert(pixel00_of(c1) == pixel00_of(c2));
    assert(ddu_of(c1) == ddu_of(c2));
    assert(ddv_of(c1) == ddv_of(c2));
}

/// The jitter offsets lie in the half-open half-pixel square.
pub open spec fn offset_ok(off: Vec3) -> bool {
    -32768 <= off.x < 32768 && -32768 <= off.y < 32768 && off.z == 0
}

/// A sample from the unit disk in the lens plane.
pub open spec fn disk_ok(disk: Vec3) -> bool {
    disk.z == 0 && vec_bounded(disk, FX_ONE as int) && 0 <= ls_spec(disk) < FX_ONE
}

/// The ray for pixel `(i, j)` under a jitter offset `off` and a lens
/// sample `disk`: the ray starts at the camera center (or the sampled
/// point on the defocus disk when the lens is enabled) and passes
/// through the jittered sample point of the pixel.
pub open spec fn get_ray_spec(c: Camera, i: int, j: int, off: Vec3, disk: Vec3) -> Ray {
    let ifx = i * 65536 + off.x;
    let jfx = j * 65536 + off.y;
    let sx = c.pixel00_loc.x + fx_mul_spec(ifx, c.pixel_delta_u.x as int) + fx_mul_spec(
        jfx,
        c.pixel_delta_v.x as int,
    );
    let sy = c.pixel00_loc.y + fx_mul_spec(ifx, c.pixel_delta_u.y as int) + fx_mul_spec(
        jfx,
        c.pixel_delta_v.y as int,
    );
    let sz = c.pixel00_loc.z + fx_mul_spec(ifx, c.pixel_delta_u.z as int) + fx_mul_spec(
        jfx,
        c.pixel_delta_v.z as int,
    );
    let ox = if c.tan_half_defocus <= 0 {
        c.center.x as int
    } else {
        c.center.x + fx_mul_spec(disk.x as int, c.defocus_disk_u.x as int) + fx_mul_spec(
            disk.y as int,
            c.defocus_disk_v.x as int,
        )
    };
    let oy = if c.tan_half_defocus <= 0 {
        c.center.y as int
    } else {
        c.center.y + fx_mul_spec(disk.x as int, c.defocus_disk_u.y as int) + fx_mul_spec(
            disk.y as int,
            c.defocus_disk_v.y as int,
        )
    };
    let oz = if c.tan_half_defocus <= 0 {
        c.center.z as int
    } else {
        c.center.z + fx_mul_spec(disk.x as int, c.defocus_disk_u.z as int) + fx_mul_spec(
            disk.y as int,
            c.defocus_disk_v.z as int,
        )
    };
    (Ray {
        orig: (Vec3 { x: ox as i64, y: oy as i64, z: oz as i64 }),
        dir: (Vec3 { x: (sx - ox) as i64, y: (sy - oy) as i64, z: (sz - oz) as i64 }),
    })
}

/// A pixel step scaled by a jittered pixel index stays within the whole
/// viewport edge plus one pixel.
proof fn lemma_pixel_step_bound(ifx: int, d: int, w: int, a: int)
    requires
        1 <= w <= 32768,
        -(w * 65536) <= ifx <= w * 65536,
        -(a / w + 1) <= d <= a / w + 1,
        0 <= a <= 20_000_000,
    ensures
        -((a + w) * 65536) <= ifx * d <= (a + w) * 65536,
        -(a + w) - 1 <= fx_mul_spec(ifx, d) <= a + w,
{
    let q = a / w;
    lemma_fundamental_div_mod(a, w);
    lemma_mod_division_less_than_divisor(a, w);
    lemma_remainder_lower(a, w);
    assert(w * q <= a);
    assert(-((a + w) * 65536) <= ifx * d <= (a + w) * 65536) by (nonlinear_arith)
        requires
            1 <= w,
            -(w * 65536) <= ifx <= w * 65536,
            -(q + 1) <= d <= q + 1,
            w * q <= a,
            0 <= q,
    ;
    lemma_div_abs_bound(ifx * d, (a + w) * 65536, 65536);
    lemma_div_by_multiple(a + w, 65536);
}

impl Camera {
    /// A random offset in the half-pixel square, for box-filter
    /// antialiasing.
    pub fn sample_square() -> (r: Vec3)
        ensures
            offset_ok(r),
    {
        Vec3 { x: random_double() - 32768, y: random_double() - 32768, z: 0 }
    }

    /// A point on the defocus disk, for a given unit-disk sample.
    fn defocus_disk_sample(&self, p: Vec3) -> (r: Point3)
        requires
            wf_camera(*self),
            disk_ok(p),
        ensures
            r.x == self.center.x + fx_mul_spec(p.x as int, self.defocus_disk_u.x as int)
                + fx_mul_spec(p.y as int, self.defocus_disk_v.x as int),
            r.y == self.center.y + fx_mul_spec(p.x as int, self.defocus_disk_u.y as int)
                + fx_mul_spec(p.y as int, self.defocus_disk_v.y as int),
            r.z == self.center.z + fx_mul_spec(p.x as int, self.defocus_disk_u.z as int)
                + fx_mul_spec(p.y as int, self.defocus_disk_v.z as int),
            vec_bounded(r, ORIGIN_MAX as int),
            -11_534_342 <= r.x - self.center.x <= 11_534_342,
            -11_534_342 <= r.y - self.center.y <= 11_534_342,
            -11_534_342 <= r.z - self.center.z <= 11_534_342,
    {
        proof {
            lemma_fxm_bound(p.x as int, self.defocus_disk_u.x as int, 65536, 0x20_0004);
            lemma_fxm_bound(p.x as int, self.defocus_disk_u.y as int, 65536, 0x20_0004);
            lemma_fxm_bound(p.x as int, self.defocus_disk_u.z as int, 65536, 0x20_0004);
            lemma_fxm_bound(p.y as int, self.defocus_disk_v.x as int, 65536, 0x90_0000);
            lemma_fxm_bound(p.y as int, self.defocus_disk_v.y as int, 65536, 0x90_0000);
            lemma_fxm_bound(p.y as int, self.defocus_disk_v.z as int, 65536, 0x90_0000);
        }
        self.center.add(self.defocus_disk_u.scale(p.x)).add(self.defocus_disk_v.scale(p.y))
    }

    /// The camera ray for pixel `(i, j)` under given jitter and lens
    /// samples; the deterministic core of `get_ray`.
    pub fn get_ray_with(&self, i: i64, j: i64, off: Vec3, disk: Vec3) -> (r: Ray)
        requires
            wf_camera(*self),
            0 <= i < self.image_width,
            0 <= j < self.image_height,
            offset_ok(off),
            disk_ok(disk),
        ensures
            r == get_ray_spec(*self, i as int, j as int, off, disk),
            wf_ray(r),
    {
        let ifx = i * 65536 + off.x;
        let jfx = j * 65536 + off.y;
        proof {
            lemma_pixel_step_bound(
                ifx as int,
                self.pixel_delta_u.x as int,
                self.image_width as int,
                16_778_000,
            );
            lemma_pixel_step_bound(
                ifx as int,
                self.pixel_delta_u.y as int,
                self.image_width as int,
                16_778_000,
            );
            lemma_pixel_step_bound(
                ifx as int,
                self.pixel_delta_u.z as int,
                self.image_width as int,
                16_778_000,
            );
            lemma_pixel_step_bound(
                jfx as int,
                self.pixel_delta_v.x as int,
                self.image_height as int,
                16_778_000,
            );
            lemma_pixel_step_bound(
                jfx as int,
                self.pixel_delta_v.y as int,
                self.image_height as int,
                16_778_000,
            );
            lemma_pixel_step_bound(
                jfx as int,
                self.pixel_delta_v.z as int,
                self.image_height as int,
                16_778_000,
            );
        }
        proof {
            assert(vec_comp(self.pixel00_loc, 0) - vec_comp(self.center, 0) == self.pixel00_loc.x
                - self.center.x);
            assert(vec_comp(self.pixel00_loc, 1) - vec_comp(self.center, 1) == self.pixel00_loc.y
                - self.center.y);
            assert(vec_comp(self.pixel00_loc, 2) - vec_comp(self.center, 2) == self.pixel00_loc.z
                - self.center.z);
        }
        let t1 = self.pixel_delta_u.scale(ifx);
        let t2 = self.pixel_delta_v.scale(jfx);
        let pixel_sample = self.pixel00_loc.add(t1).add(t2);
        let ray_origin = if self.tan_half_defocus <= 0 {
            self.center
        } else {
            self.defocus_disk_sample(disk)
        };
        let ray_direction = pixel_sample.sub(ray_origin);
        proof {
            assert(vec_comp(self.pixel00_loc, 0) - vec_comp(self.center, 0) == self.pixel00_loc.x
                - self.center.x);
            assert(vec_comp(self.pixel00_loc, 1) - vec_comp(self.center, 1) == self.pixel00_loc.y
                - self.center.y);
            assert(vec_comp(self.pixel00_loc, 2) - vec_comp(self.center, 2) == self.pixel00_loc.z
                - self.center.z);
        }
        Ray::new(ray_origin, ray_direction)
    }

    /// A camera ray for pixel `(i, j)`: the pixel sample is jittered in
    /// the half-pixel square, and the origin sampled on the defocus disk
    /// when the lens is enabled.
    pub fn get_ray(&self, i: i64, j: i64) -> (r: Ray)
        requires
            wf_camera(*self),
            0 <= i < self.image_width,
            0 <= j < self.image_height,
        ensures
            wf_ray(r),
            exists|off: Vec3, disk: Vec3|
                offset_ok(off) && disk_ok(disk) && r == #[trigger] get_ray_spec(
                    *self,
                    i as int,
                    j as int,
                    off,
                    disk,
                ),
    {
        let off = Self::sample_square();
        let disk = random_in_unit_disk();
        let r = self.get_ray_with(i, j, off, disk);
        proof {
            assert(offset_ok(off) && disk_ok(disk) && r == get_ray_spec(
                *self,
                i as int,
                j as int,
                off,
                disk,
            ));
        }
        r
    }
}

/// The blend factor of the sky gradient: half of one plus the unit
/// direction's vertical component, pushed into `[0, 1]` against
/// fixed-point overshoot.
pub open spec fn sky_a_spec(dir: Vec3) -> int {
    let uy = unit_spec(dir).1;
    let a0 = fx_mul_spec(32768, uy + 65536);
    if a0 < 0 {
        0
    } else if a0 > 65536 {
        65536
    } else {
        a0
    }
}

/// The sky color for a miss: a linear blend from white toward sky blue
/// as the ray points upward.
pub open spec fn sky_color_spec(dir: Vec3) -> (int, int, int) {
    let a = sky_a_spec(dir);
    (
        fx_mul_spec(65536 - a, 65536) + fx_mul_spec(a, 32768),
        fx_mul_spec(65536 - a, 65536) + fx_mul_spec(a, 45875),
        fx_mul_spec(65536 - a, 65536) + fx_mul_spec(a, 65536),
    )
}

/// A product of two color channels stays a color channel.
proof fn lemma_channel_mul(a: int, b: int)
    requires
        0 <= a <= 65536,
        0 <= b <= 65536,
    ensures
        -0x8000_0000_0000_0000_0000 <= a * b <= 0x7FFF_FFFF_FFFF_FFFF_0000,
        0 <= fx_mul_spec(a, b) <= a,
        fx_mul_spec(a, b) <= 65536,
{
    vstd::arithmetic::mul::lemma_mul_nonnegative(a, b);
    lemma_div_pos_is_pos(a * b, 65536);
    assert(a * b <= a * 65536) by (nonlinear_arith)
        requires
            0 <= a,
            b <= 65536,
    ;
    lemma_div_is_ordered(a * b, a * 65536, 65536);
    lemma_div_by_multiple(a, 65536);
    lemma_div_is_ordered(a * 65536, 65536int * 65536, 65536);
}

/// What a scattering dispatch may hand back for a given material and
/// hit, whatever the draw: a well-formed ray from the hit point, and the
/// variant's own attenuation.
pub open spec fn scatter_outcome_ok(m: Material, rec: HitRecord, sr: ScatterRecord) -> bool {
    &&& wf_ray(sr.scattered)
    &&& color_ok(sr.attenuation)
    &&& sr.scattered.orig == rec.p
    &&& match m {
        Material::Lambertian(l) => sr.attenuation == l.albedo,
        Material::Metal(mt) => sr.attenuation == mt.albedo,
        Material::Dielectric(_) => sr.attenuation == (Color {
            x: FX_ONE as i64,
            y: FX_ONE as i64,
            z: FX_ONE as i64,
        }),
    }
}

/// The draw-independent part of what one trace may return for a ray: a
/// color; exactly black below the depth floor; the exact sky gradient on
/// a miss (black for a miss with a degenerate direction).
pub open spec fn trace_base_ok(world: HittableList, r: Ray, depth: i32, c: Color) -> bool {
    &&& color_ok(c)
    &&& depth < 0 ==> c == (Vec3 { x: 0, y: 0, z: 0 })
    &&& (depth >= 0 && scene_hit_spec(world, r, (Interval { min: RAY_EPS, max: T_MAX })) is None
        && ls_spec(r.dir) >= 1) ==> (c.x as int, c.y as int, c.z as int) == sky_color_spec(r.dir)
    &&& (depth >= 0 && scene_hit_spec(world, r, (Interval { min: RAY_EPS, max: T_MAX })) is None
        && ls_spec(r.dir) < 1) ==> c == (Vec3 { x: 0, y: 0, z: 0 })
}

/// What one trace may return for a ray, whatever the draws along the
/// path: the base facts above, and on a hit either the attenuation of an
/// admissible scatter multiplied into an admissible trace of the
/// scattered ray, or black for an absorbed ray - which a diffuse surface
/// never produces.
pub open spec fn trace_outcome_ok(world: HittableList, r: Ray, depth: i32, c: Color) -> bool {
    &&& trace_base_ok(world, r, depth, c)
    &&& (depth >= 0 ==> match scene_hit_spec(world, r, (Interval { min: RAY_EPS, max: T_MAX })) {
        Some(rec) => (exists|sr: ScatterRecord, bounce: Color|
            #![trigger scatter_outcome_ok(world.materials@[rec.mat as int], rec, sr), trace_base_ok(world, sr.scattered, (depth - 1) as i32, bounce)]
            {
                &&& scatter_outcome_ok(world.materials@[rec.mat as int], rec, sr)
                &&& trace_base_ok(world, sr.scattered, (depth - 1) as i32, bounce)
                &&& c.x == fx_mul_spec(sr.attenuation.x as int, bounce.x as int)
                &&& c.y == fx_mul_spec(sr.attenuation.y as int, bounce.y as int)
                &&& c.z == fx_mul_spec(sr.attenuation.z as int, bounce.z as int)
            }) || (c == (Vec3 { x: 0, y: 0, z: 0 }) && !(world.materials@[rec.mat as int]
            matches Material::Lambertian(_))),
        None => true,
    })
}

/// The recursive path trace: black once the bounce budget is spent; on
/// a hit, the material's attenuation times the traced scattered ray (or
/// black when absorbed); on a miss, the sky gradient. Whatever the
/// random draws, the result is an admissible trace outcome.
pub fn ray_color(r: &Ray, depth: i32, world: &HittableList) -> (c: Color)
    requires
        wf_ray(*r),
        wf_scene(*world),
    ensures
        trace_outcome_ok(*world, *r, depth, c),
        color_ok(c),
        depth < 0 ==> c == (Vec3 { x: 0, y: 0, z: 0 }),
    decreases depth + 1,
{
    if depth < 0 {
        return Vec3 { x: 0, y: 0, z: 0 };
    }
    let it = Interval::new(RAY_EPS, T_MAX);
    if let Some(rec) = world.hit(r, it) {
        let m = world.materials[rec.mat];
        if let Some(sr) = m.scatter(r, &rec) {
            let bounce = ray_color(&sr.scattered, depth - 1, world);
            proof {
                lemma_channel_mul(sr.attenuation.x as int, bounce.x as int);
                lemma_channel_mul(sr.attenuation.y as int, bounce.y as int);
                lemma_channel_mul(sr.attenuation.z as int, bounce.z as int);
                assert(scatter_outcome_ok(world.materials@[rec.mat as int], rec, sr));
                assert(trace_base_ok(*world, sr.scattered, (depth - 1) as i32, bounce));
            }
            return sr.attenuation.mul(bounce);
        }
        proof {
            assert(!(world.materials@[rec.mat as int] matches Material::Lambertian(_)));
        }
        return Vec3 { x: 0, y: 0, z: 0 };
    }
    let dls = r.direction().length_squared();
    if dls < 1 {
        return Vec3 { x: 0, y: 0, z: 0 };
    }
    let unit_direction = unit_vector(r.direction());
    proof {
        lemma_fxm_bound(32768, unit_direction.y + 65536, 32768, 196608);
    }
    let a0 = fx_mul(32768, unit_direction.y + 65536);
    let a: i64 = if a0 < 0 {
        0
    } else if a0 > 65536 {
        65536
    } else {
        a0
    };
    proof {
        lemma_channel_mul(65536 - a as int, 65536);
        lemma_channel_mul(a as int, 32768);
        lemma_channel_mul(a as int, 45875);
        lemma_channel_mul(a as int, 65536);
        lemma_div_by_multiple(65536 - a as int, 65536);
    }
    let s1 = Vec3::from_float(65536).scale(65536 - a);
    let s2 = Vec3::new(32768, 45875, 65536).scale(a);
    s1.add(s2)
}

/// The color is an admissible trace of some admissible camera ray of
/// pixel `(i, j)`: a jitter offset and a lens sample exist under which
/// the traced ray is the pixel's ray.
pub open spec fn pixel_sample_ok(cam: Camera, world: HittableList, i: int, j: int, c: Color) -> bool {
    exists|off: Vec3, disk: Vec3|
        offset_ok(off) && disk_ok(disk) && trace_outcome_ok(
            world,
            #[trigger] get_ray_spec(cam, i, j, off, disk),
            cam.max_depth,
            c,
        )
}

/// The sum of the first channel over a sequence of colors.
pub open spec fn sum_x(s: Seq<Vec3>) -> int
    decreases s.len(),
{
    if s.len() == 0 {
        0
    } else {
        sum_x(s.drop_last()) + s.last().x
    }
}

/// The sum of the second channel over a sequence of colors.
pub open spec fn sum_y(s: Seq<Vec3>) -> int
    decreases s.len(),
{
    if s.len() == 0 {
        0
    } else {
        sum_y(s.drop_last()) + s.last().y
    }
}

/// The sum of the third channel over a sequence of colors.
pub open spec fn sum_z(s: Seq<Vec3>) -> int
    decreases s.len(),
{
    if s.len() == 0 {
        0
    } else {
        sum_z(s.drop_last()) + s.last().z
    }
}

/// A finished pixel is the output stage applied to the floor-average of
/// `samples_per_pixel` admissible per-sample traces of pixel `(i, j)`.
pub open spec fn pixel_outcome_ok(cam: Camera, world: HittableList, i: int, j: int, c: Color) -> bool {
    exists|samples: Seq<Vec3>|
        #![trigger sum_x(samples)]
        {
            &&& samples.len() == cam.samples_per_pixel
            &&& (forall|k: int|
                0 <= k < samples.len() ==> pixel_sample_ok(cam, world, i, j, #[trigger] samples[k]))
            &&& c.x as int == finalize_channel_spec(sum_x(samples) / (cam.samples_per_pixel as int))
            &&& c.y as int == finalize_channel_spec(sum_y(samples) / (cam.samples_per_pixel as int))
            &&& c.z as int == finalize_channel_spec(sum_z(samples) / (cam.samples_per_pixel as int))
        }
}

impl Camera {
    /// One finished pixel: `samples_per_pixel` traces are averaged, then
    /// each channel is gamma-corrected and clamped into the displayable
    /// range.
    pub fn render_pixel(&self, world: &HittableList, i: i64, j: i64) -> (c: Color)
        requires
            wf_camera(*self),
            wf_scene(*world),
            0 <= i < self.image_width,
            0 <= j < self.image_height,
        ensures
            pixel_outcome_ok(*self, *world, i as int, j as int, c),
            0 <= c.x <= INTENSITY_MAX,
            0 <= c.y <= INTENSITY_MAX,
            0 <= c.z <= INTENSITY_MAX,
    {
        let mut sum = Vec3 { x: 0, y: 0, z: 0 };
        let mut s: i64 = 0;
        let ghost mut samples: Seq<Vec3> = Seq::empty();
        while s < self.samples_per_pixel
            invariant
                wf_camera(*self),
                wf_scene(*world),
                0 <= i < self.image_width,
                0 <= j < self.image_height,
                0 <= s <= self.samples_per_pixel,
                self.samples_per_pixel <= 65536,
                0 <= sum.x <= s * 65536,
                0 <= sum.y <= s * 65536,
                0 <= sum.z <= s * 65536,
                samples.len() == s,
                forall|k: int|
                    0 <= k < samples.len() ==> pixel_sample_ok(
                        *self,
                        *world,
                        i as int,
                        j as int,
                        #[trigger] samples[k],
                    ),
                sum.x == sum_x(samples),
                sum.y == sum_y(samples),
                sum.z == sum_z(samples),
            decreases self.samples_per_pixel - s,
        {
            let r = self.get_ray(i, j);
            let col = ray_color(&r, self.max_depth, world);
            proof {
                assert((s + 1) * 65536 == s * 65536 + 65536) by (nonlinear_arith);
                let (off, disk) = choose|off: Vec3, disk: Vec3|
                    offset_ok(off) && disk_ok(disk) && r == get_ray_spec(
                        *self,
                        i as int,
                        j as int,
                        off,
                        disk,
                    );
                assert(trace_outcome_ok(
                    *world,
                    get_ray_spec(*self, i as int, j as int, off, disk),
                    self.max_depth,
                    col,
                ));
                assert(pixel_sample_ok(*self, *world, i as int, j as int, col));
                let prev = samples;
                samples = samples.push(col);
                assert(samples.drop_last() =~= prev);
                assert(samples.last() == col);
            }
            sum = sum.add(col);
            s = s + 1;
        }
        proof {
            assert(self.samples_per_pixel * 65536 <= 65536int * 65536) by (nonlinear_arith)
                requires
                    self.samples_per_pixel <= 65536,
            ;
            lemma_avg_bound(sum.x as int, self.samples_per_pixel as int);
            lemma_avg_bound(sum.y as int, self.samples_per_pixel as int);
            lemma_avg_bound(sum.z as int, self.samples_per_pixel as int);
        }
        let ax = div_floor_nn(sum.x, self.samples_per_pixel);
        let ay = div_floor_nn(sum.y, self.samples_per_pixel);
        let az = div_floor_nn(sum.z, self.samples_per_pixel);
        let c = Vec3 { x: finalize_channel(ax), y: finalize_channel(ay), z: finalize_channel(az) };
        proof {
            assert(samples.len() == self.samples_per_pixel);
            assert(c.x as int == finalize_channel_spec(
                sum_x(samples) / (self.samples_per_pixel as int),
            ));
            assert(c.y as int == finalize_channel_spec(
                sum_y(samples) / (self.samples_per_pixel as int),
            ));
            assert(c.z as int == finalize_channel_spec(
                sum_z(samples) / (self.samples_per_pixel as int),
            ));
            assert(pixel_outcome_ok(*self, *world, i as int, j as int, c));
        }
        c
    }

    /// The whole image, row-major from the top-left: the entry at index
    /// `j * image_width + i` is a finished pixel outcome for pixel
    /// `(i, j)`, with every channel in the displayable range.
    pub fn render(&self, world: &HittableList) -> (pixels: Vec<Color>)
        requires
            wf_camera(*self),
            wf_scene(*world),
        ensures
            pixels@.len() == self.image_width * self.image_height,
            forall|jj: int, ii: int|
                0 <= jj < self.image_height && 0 <= ii < self.image_width ==> pixel_outcome_ok(
                    *self,
                    *world,
                    ii,
                    jj,
                    #[trigger] pixels@[jj * self.image_width + ii],
                ),
            forall|k: int|
                0 <= k < pixels@.len() ==> {
                    &&& 0 <= #[trigger] pixels@[k].x <= INTENSITY_MAX
                    &&& 0 <= pixels@[k].y <= INTENSITY_MAX
                    &&& 0 <= pixels@[k].z <= INTENSITY_MAX
                },
    {
        let mut pixels: Vec<Color> = Vec::new();
        let mut j: i64 = 0;
        while j < self.image_height
            invariant
                wf_camera(*self),
                wf_scene(*world),
                0 <= j <= self.image_height,
                pixels@.len() == j * self.image_width,
                forall|jj: int, ii: int|
                    0 <= jj < j && 0 <= ii < self.image_width ==> pixel_outcome_ok(
                        *self,
                        *world,
                        ii,
                        jj,
                        #[trigger] pixels@[jj * self.image_width + ii],
                    ),
                forall|k: int|
                    0 <= k < pixels@.len() ==> {
                        &&& 0 <= #[trigger] pixels@[k].x <= INTENSITY_MAX
                        &&& 0 <= pixels@[k].y <= INTENSITY_MAX
                        &&& 0 <= pixels@[k].z <= INTENSITY_MAX
                    },
            decreases self.image_height - j,
        {
            let mut i: i64 = 0;
            while i < self.image_width
                invariant
                    wf_camera(*self),
                    wf_scene(*world),
                    0 <= j < self.image_height,
                    0 <= i <= self.image_width,
                    pixels@.len() == j * self.image_width + i,
                    forall|jj: int, ii: int|
                        0 <= jj < j && 0 <= ii < self.image_width ==> pixel_outcome_ok(
                            *self,
                            *world,
                            ii,
                            jj,
                            #[trigger] pixels@[jj * self.image_width + ii],
                        ),
                    forall|ii: int|
                        0 <= ii < i ==> pixel_outcome_ok(
                            *self,
                            *world,
                            ii,
                            j as int,
                            #[trigger] pixels@[j * self.image_width + ii],
                        ),
                    forall|k: int|
                        0 <= k < pixels@.len() ==> {
                            &&& 0 <= #[trigger] pixels@[k].x <= INTENSITY_MAX
                            &&& 0 <= pixels@[k].y <= INTENSITY_MAX
                            &&& 0 <= pixels@[k].z <= INTENSITY_MAX
                        },
                decreases self.image_width - i,
            {
                let p = self.render_pixel(world, i, j);
                pixels.push(p);
                proof {
                    lemma_row_index_in_prefix(
                        j as int,
                        self.image_width as int,
                        (j as int) * (self.image_width as int),
                    );
                }
                i = i + 1;
            }
            proof {
                assert((j + 1) * self.image_width == j * self.image_width + self.image_width)
                    by (nonlinear_arith);
            }
            j = j + 1;
        }
        proof {
            vstd::arithmetic::mul::lemma_mul_is_commutative(
                self.image_width as int,
                self.image_height as int,
            );
            lemma_row_index_in_prefix(
                self.image_height as int,
                self.image_width as int,
                (self.image_height as int) * (self.image_width as int),
            );
        }
        pixels
    }
}

/// Row-major indexing stays inside the filled prefix: for every row
/// `jj` below `rows` and column `ii` below the width, the flat index
/// `jj * w + ii` lies below `rows * w`.
proof fn lemma_row_index_in_prefix(rows: int, w: int, len: int)
    requires
        1 <= w,
        len == rows * w,
    ensures
        forall|jj: int, ii: int|
            0 <= jj < rows && 0 <= ii < w ==> 0 <= #[trigger] (jj * w + ii) < len,
{
    assert forall|jj: int, ii: int| 0 <= jj < rows && 0 <= ii < w implies 0 <= #[trigger] (jj * w
        + ii) < len by {
        vstd::arithmetic::mul::lemma_mul_nonnegative(jj, w);
        vstd::arithmetic::mul::lemma_mul_inequality(jj + 1, rows, w);
        assert((jj + 1) * w == jj * w + w) by (nonlinear_arith);
    }
}

/// The average of `n` samples, each at most one, is at most one.
proof fn lemma_avg_bound(sum: int, n: int)
    requires
        0 <= sum <= n * 65536,
        1 <= n <= 65536,
    ensures
        0 <= sum / n <= 65536,
{
    lemma_div_pos_is_pos(sum, n);
    lemma_div_is_ordered(sum, n * 65536, n);
    lemma_div_multiples_vanish(65536, n);
}

/// Componentwise floor division of a vector by a positive count.
fn div_vec(v: Vec3, k: i64) -> (r: Vec3)
    requires
        1 <= k,
        vec_bounded(v, 0x4000_0000_0000_0000),
    ensures
        r.x == v.x as int / k as int,
        r.y == v.y as int / k as int,
        r.z == v.z as int / k as int,
{
    Vec3 { x: div_floor_i64(v.x, k), y: div_floor_i64(v.y, k), z: div_floor_i64(v.z, k) }
}

} // verus!
