//! Materials: how a surface scatters an incoming ray.
//!
//! The shipped material set is closed, so dispatch is a tagged variant.
//! Each material's scattering is split in two: a deterministic core that
//! takes the random draw as an argument and carries an exact contract,
//! and a sampling wrapper that makes the draw and states what holds of
//! every outcome.

use vstd::prelude::*;
use crate::common::random_double;
use crate::fx::{FX_ONE, fx_mul, fx_div, fx_sqrt, fx_mul_spec, fx_div_spec, lemma_fxm_bound};
use crate::hittable::{HitRecord, wf_hit_record};
use crate::limits::{DIR_MAX, NORMAL_MAX};
use crate::ray::{Ray, wf_ray};
use crate::vec3::{
    Color, Vec3, dot, dot_spec, lemma_dot_bound, ls_spec, random_unit_vector, reflect,
    reflect_spec, refract, refract_spec, unit_spec, unit_vector, vec_bounded, vneg,
};

verus! {

/// What a scattering surface hands back: the color factor to multiply
/// into the path, and the outgoing ray.
#[derive(Clone, Copy, Debug)]
pub struct ScatterRecord {
    pub attenuation: Color,
    pub scattered: Ray,
}

/// Every channel lies in `[0, 1]`.
pub open spec fn color_ok(c: Color) -> bool {
    0 <= c.x <= FX_ONE && 0 <= c.y <= FX_ONE && 0 <= c.z <= FX_ONE
}

/// A diffuse surface.
#[derive(Clone, Copy, Debug)]
pub struct Lambertian {
    pub albedo: Color,
}

/// A reflective surface with a fuzz factor in `[0, 1]`.
#[derive(Clone, Copy, Debug)]
pub struct Metal {
    pub albedo: Color,
    pub fuzz: i64,
}

/// A refractive surface with the given index of refraction.
#[derive(Clone, Copy, Debug)]
pub struct Dielectric {
    pub refraction_index: i64,
}

/// The closed set of materials a sphere may carry.
#[derive(Clone, Copy, Debug)]
pub enum Material {
    Lambertian(Lambertian),
    Metal(Metal),
    Dielectric(Dielectric),
}

/// The material's fields lie in the ranges the scattering math accepts:
/// colors in `[0, 1]`, fuzz in `[0, 1]`, refraction index in `[1/8, 8]`.
pub open spec fn wf_material(m: Material) -> bool {
    match m {
        Material::Lambertian(l) => color_ok(l.albedo),
        Material::Metal(mt) => color_ok(mt.albedo) && 0 <= mt.fuzz <= FX_ONE,
        Material::Dielectric(d) => 0x2000 <= d.refraction_index <= 0x8_0000,
    }
}

impl Lambertian {
    /// A diffuse material with the given base color.
    pub fn new(c: Color) -> (r: Lambertian)
        requires
            color_ok(c),
        ensures
            r.albedo == c,
            wf_material(Material::Lambertian(r)),
    {
        Lambertian { albedo: c }
    }
}

impl Metal {
    /// A reflective material with the given base color; the fuzz factor
    /// is clamped into `[0, 1]`.
    pub fn new(c: Color, f: i64) -> (r: Metal)
        requires
            color_ok(c),
        ensures
            r.albedo == c,
            r.fuzz == if f < 0 {
                0int
            } else if f > FX_ONE {
                FX_ONE as int
            } else {
                f as int
            },
            wf_material(Material::Metal(r)),
    {
        let fuzz: i64 = if f < 0 {
            0
        } else if f > 65536 {
            65536
        } else {
            f
        };
        Metal { albedo: c, fuzz }
    }
}

impl Dielectric {
    /// A refractive material with the given index. The index range
    /// `[1/8, 8]` is an overflow budget of the fixed-point refraction
    /// math (the ratio across a face stays within the bound `refract`
    /// accepts); physical media lie well inside it.
    pub fn new(ri: i64) -> (r: Dielectric)
        requires
            0x2000 <= ri <= 0x8_0000,
        ensures
            r.refraction_index == ri,
            wf_material(Material::Dielectric(r)),
    {
        Dielectric { refraction_index: ri }
    }
}

/// The diffuse scattering direction: the surface normal plus a unit
/// sample, falling back to the bare normal when the sum degenerates to
/// zero.
pub open spec fn lambertian_dir_spec(normal: Vec3, u: Vec3) -> Vec3 {
    let d = (Vec3 {
        x: (normal.x + u.x) as i64,
        y: (normal.y + u.y) as i64,
        z: (normal.z + u.z) as i64,
    });
    if d.x == 0 && d.y == 0 && d.z == 0 {
        normal
    } else {
        d
    }
}

/// The deterministic core of diffuse scattering, over a given unit
/// sample `u`. A diffuse surface always scatters.
pub fn lambertian_scatter_with(l: &Lambertian, rec: &HitRecord, u: Vec3) -> (res: ScatterRecord)
    requires
        wf_hit_record(*rec),
        vec_bounded(u, 2 * FX_ONE),
    ensures
        res.attenuation == l.albedo,
        res.scattered.orig == rec.p,
        res.scattered.dir == lambertian_dir_spec(rec.normal, u),
        wf_ray(res.scattered),
{
    let mut dir = rec.normal.add(u);
    if dir.near_zero() {
        dir = rec.normal;
    }
    ScatterRecord { attenuation: l.albedo, scattered: Ray::new(rec.p, dir) }
}

/// The fuzzed reflection direction: the unit reflection of `v` about
/// `n`, displaced by `fuzz` times the unit sample `u`.
pub open spec fn metal_dir_spec(v: Vec3, n: Vec3, fuzz: int, u: Vec3) -> Vec3 {
    let refl = reflect_spec(v, n);
    let rv = (Vec3 { x: refl.0 as i64, y: refl.1 as i64, z: refl.2 as i64 });
    let un = unit_spec(rv);
    (Vec3 {
        x: (un.0 + fx_mul_spec(fuzz, u.x as int)) as i64,
        y: (un.1 + fx_mul_spec(fuzz, u.y as int)) as i64,
        z: (un.2 + fx_mul_spec(fuzz, u.z as int)) as i64,
    })
}

/// The reflection of `v` about `n` is numerically degenerate: its
/// fixed-point squared length vanishes, so no direction can be drawn
/// from it.
pub open spec fn metal_degenerate(v: Vec3, n: Vec3) -> bool {
    ls_spec(
        (Vec3 {
            x: reflect_spec(v, n).0 as i64,
            y: reflect_spec(v, n).1 as i64,
            z: reflect_spec(v, n).2 as i64,
        }),
    ) < 1
}

/// The deterministic core of metal scattering, over a given unit sample
/// `u`: the ray is absorbed exactly when the fuzzed reflection points
/// into the surface (or the reflection degenerates to zero).
pub fn metal_scatter_with(m: &Metal, r_in: &Ray, rec: &HitRecord, u: Vec3) -> (res: Option<
    ScatterRecord,
>)
    requires
        wf_ray(*r_in),
        wf_hit_record(*rec),
        vec_bounded(u, 2 * FX_ONE),
        0 <= m.fuzz <= FX_ONE,
    ensures
        match res {
            Some(sr) => {
                &&& !metal_degenerate(r_in.dir, rec.normal)
                &&& sr.scattered.dir == metal_dir_spec(r_in.dir, rec.normal, m.fuzz as int, u)
                &&& dot_spec(sr.scattered.dir, rec.normal) > 0
                &&& sr.attenuation == m.albedo
                &&& sr.scattered.orig == rec.p
                &&& wf_ray(sr.scattered)
            },
            None => metal_degenerate(r_in.dir, rec.normal) || dot_spec(
                metal_dir_spec(r_in.dir, rec.normal, m.fuzz as int, u),
                rec.normal,
            ) <= 0,
        },
{
    let reflected = reflect(r_in.direction(), rec.normal);
    let ls = reflected.length_squared();
    if ls < 1 {
        return None;
    }
    let un = unit_vector(reflected);
    proof {
        lemma_fxm_bound(m.fuzz as int, u.x as int, FX_ONE as int, 2 * FX_ONE);
        lemma_fxm_bound(m.fuzz as int, u.y as int, FX_ONE as int, 2 * FX_ONE);
        lemma_fxm_bound(m.fuzz as int, u.z as int, FX_ONE as int, 2 * FX_ONE);
    }
    let scattered_dir = un.add(u.scale(m.fuzz));
    proof {
        lemma_dot_bound(scattered_dir, rec.normal, 4 * FX_ONE + 2, NORMAL_MAX as int);
        assert(scattered_dir == metal_dir_spec(r_in.dir, rec.normal, m.fuzz as int, u));
    }
    let d = dot(scattered_dir, rec.normal);
    if d > 0 {
        Some(ScatterRecord { attenuation: m.albedo, scattered: Ray::new(rec.p, scattered_dir) })
    } else {
        None
    }
}

/// The Schlick approximation to reflectance:
/// `r0 + (1 - r0) * (1 - cos)^5` with `r0 = ((1 - ratio) / (1 + ratio))^2`.
pub open spec fn reflectance_spec(cos: int, ratio: int) -> int {
    let q = fx_div_spec(FX_ONE - ratio, FX_ONE + ratio);
    let r0 = fx_mul_spec(q, q);
    let w = FX_ONE - cos;
    let w2 = fx_mul_spec(w, w);
    let w4 = fx_mul_spec(w2, w2);
    let w5 = fx_mul_spec(w4, w);
    r0 + fx_mul_spec(FX_ONE - r0, w5)
}

/// The ratio of refractive indices across the struck face: the inverse
/// index entering the surface, the index itself leaving it.
pub open spec fn dielectric_ratio(d: Dielectric, front_face: bool) -> int {
    if front_face {
        fx_div_spec(FX_ONE as int, d.refraction_index as int)
    } else {
        d.refraction_index as int
    }
}

/// The cosine of the angle of incidence: the dot of the reversed unit
/// direction with the normal, clamped into `[-1, 1]`.
pub open spec fn dielectric_cos(uv: Vec3, n: Vec3) -> int {
    let c0 = dot_spec(vneg(uv), n);
    if c0 > FX_ONE {
        FX_ONE as int
    } else if c0 < -FX_ONE {
        -(FX_ONE as int)
    } else {
        c0
    }
}

/// Total internal reflection: `ratio * sin` exceeds one, where
/// `sin = sqrt(1 - cos^2)`.
pub open spec fn cannot_refract_spec(cos: int, ratio: int) -> bool {
    let s2 = FX_ONE - fx_mul_spec(cos, cos);
    let sin = crate::fx::fx_sqrt_spec(s2);
    fx_mul_spec(ratio, sin) > FX_ONE
}

/// The outgoing direction of a dielectric for a given reflectance draw:
/// reflect under total internal reflection or when the Schlick
/// reflectance exceeds the draw, else refract.
pub open spec fn dielectric_dir_spec(d: Dielectric, r_in: Ray, rec: HitRecord, draw: int) -> (
    int,
    int,
    int,
) {
    let ratio = dielectric_ratio(d, rec.front_face);
    let uvt = unit_spec(r_in.dir);
    let uv = (Vec3 { x: uvt.0 as i64, y: uvt.1 as i64, z: uvt.2 as i64 });
    let cos = dielectric_cos(uv, rec.normal);
    if cannot_refract_spec(cos, ratio) || reflectance_spec(cos, ratio) > draw {
        reflect_spec(uv, rec.normal)
    } else {
        refract_spec(uv, rec.normal, ratio)
    }
}

/// The deterministic core of dielectric scattering, over a given
/// reflectance draw. A dielectric attenuates nothing and scatters every
/// ray whose direction is not numerically degenerate.
pub fn dielectric_scatter_with(d: &Dielectric, r_in: &Ray, rec: &HitRecord, draw: i64) -> (res:
    Option<ScatterRecord>)
    requires
        wf_ray(*r_in),
        wf_hit_record(*rec),
        0 <= draw < FX_ONE,
        0x2000 <= d.refraction_index <= 0x8_0000,
    ensures
        match res {
            Some(sr) => {
                &&& ls_spec(r_in.dir) >= 1
                &&& sr.attenuation == (Color { x: FX_ONE as i64, y: FX_ONE as i64, z: FX_ONE as i64 })
                &&& sr.scattered.orig == rec.p
                &&& (
                sr.scattered.dir.x as int,
                sr.scattered.dir.y as int,
                sr.scattered.dir.z as int,
                ) == dielectric_dir_spec(*d, *r_in, *rec, draw as int)
                &&& wf_ray(sr.scattered)
            },
            None => ls_spec(r_in.dir) < 1,
        },
{
    let dls = r_in.direction().length_squared();
    if dls < 1 {
        return None;
    }
    let ratio: i64 = if rec.front_face {
        fx_div(65536, d.refraction_index)
    } else {
        d.refraction_index
    };
    proof {
        assert(1 <= ratio <= 0x8_0000) by {
            if rec.front_face {
                vstd::arithmetic::div_mod::lemma_div_is_ordered(
                    65536int * 65536,
                    65536int * 0x8_0000,
                    d.refraction_index as int,
                );
                crate::fx::lemma_div_abs_bound(65536int * 65536, 65536int * 65536, d.refraction_index as int);
                assert(fx_div_spec(65536, d.refraction_index as int) >= 1) by (nonlinear_arith)
                    requires
                        0x2000 <= d.refraction_index <= 0x8_0000,
                ;
                assert(fx_div_spec(65536, d.refraction_index as int) <= 0x8_0000) by (nonlinear_arith)
                    requires
                        0x2000 <= d.refraction_index <= 0x8_0000,
                ;
            }
        }
    }
    let uv = unit_vector(r_in.direction());
    let nuv = uv.neg();
    proof {
        lemma_dot_bound(nuv, rec.normal, 2 * FX_ONE, NORMAL_MAX as int);
    }
    let c0 = dot(nuv, rec.normal);
    let cos: i64 = if c0 > 65536 {
        65536
    } else if c0 < -65536 {
        -65536
    } else {
        c0
    };
    proof {
        lemma_fxm_bound(cos as int, cos as int, FX_ONE as int, FX_ONE as int);
        assert(cos * cos >= 0) by (nonlinear_arith);
        vstd::arithmetic::div_mod::lemma_div_pos_is_pos(cos * cos, 65536);
    }
    let s2 = 65536 - fx_mul(cos, cos);
    let sin = fx_sqrt(s2);
    proof {
        assert(sin <= 66000) by (nonlinear_arith)
            requires
                0 <= sin,
                sin * sin <= s2 * 65536,
                s2 <= 65536,
        ;
        lemma_fxm_bound(ratio as int, sin as int, 0x8_0000, 66000);
    }
    let cannot_refract = fx_mul(ratio, sin) > 65536;
    let direction: Vec3;
    if cannot_refract || reflectance(cos, ratio) > draw {
        proof {
            lemma_dot_bound(uv, rec.normal, 2 * FX_ONE, NORMAL_MAX as int);
            lemma_fxm_bound(
                2 * dot_spec(uv, rec.normal),
                rec.normal.x as int,
                1_179_660,
                NORMAL_MAX as int,
            );
            lemma_fxm_bound(
                2 * dot_spec(uv, rec.normal),
                rec.normal.y as int,
                1_179_660,
                NORMAL_MAX as int,
            );
            lemma_fxm_bound(
                2 * dot_spec(uv, rec.normal),
                rec.normal.z as int,
                1_179_660,
                NORMAL_MAX as int,
            );
        }
        direction = reflect(uv, rec.normal);
    } else {
        direction = refract(uv, rec.normal, ratio);
    }
    Some(
        ScatterRecord {
            attenuation: Color { x: 65536, y: 65536, z: 65536 },
            scattered: Ray::new(rec.p, direction),
        },
    )
}

/// The Schlick reflectance, as executable code.
fn reflectance(cos: i64, ratio: i64) -> (r: i64)
    requires
        -FX_ONE <= cos <= FX_ONE,
        1 <= ratio <= 0x8_0000,
    ensures
        r == reflectance_spec(cos as int, ratio as int),
{
    proof {
        crate::fx::lemma_div_abs_bound(
            (65536int - ratio) * 65536,
            0x8_0000int * 65536,
            1 + ratio as int,
        );
        assert((65536int - ratio) * 65536 <= i64::MAX * (65536 + ratio)) by (nonlinear_arith)
            requires
                1 <= ratio <= 0x8_0000,
        ;
        assert(i64::MIN * (65536 + ratio) <= (65536int - ratio) * 65536) by (nonlinear_arith)
            requires
                1 <= ratio <= 0x8_0000,
        ;
    }
    let q = fx_div(65536 - ratio, 65536 + ratio);
    proof {
        assert(-0x8_0000 <= q <= 0x8_0000) by {
            assert(fx_div_spec(65536 - ratio as int, 65536 + ratio as int) <= 0x8_0000
                && fx_div_spec(65536 - ratio as int, 65536 + ratio as int) >= -0x8_0000)
                by (nonlinear_arith)
                requires
                    1 <= ratio <= 0x8_0000,
                    fx_div_spec(65536 - ratio as int, 65536 + ratio as int) == ((65536 - ratio as int)
                        * 65536) / (65536 + ratio as int),
            ;
        }
        lemma_fxm_bound(q as int, q as int, 0x8_0000, 0x8_0000);
        assert(q * q >= 0) by (nonlinear_arith);
        vstd::arithmetic::div_mod::lemma_div_pos_is_pos(q * q, 65536);
    }
    let r0 = fx_mul(q, q);
    let w = 65536 - cos;
    proof {
        lemma_fxm_bound(w as int, w as int, 131072, 131072);
        assert(w * w >= 0) by (nonlinear_arith);
        vstd::arithmetic::div_mod::lemma_div_pos_is_pos(w * w, 65536);
    }
    let w2 = fx_mul(w, w);
    proof {
        lemma_fxm_bound(w2 as int, w2 as int, 262144, 262144);
        assert(w2 * w2 >= 0) by (nonlinear_arith);
        vstd::arithmetic::div_mod::lemma_div_pos_is_pos(w2 * w2, 65536);
    }
    let w4 = fx_mul(w2, w2);
    proof {
        lemma_fxm_bound(w4 as int, w as int, 1048576, 131072);
        vstd::arithmetic::mul::lemma_mul_nonnegative(w4 as int, w as int);
        vstd::arithmetic::div_mod::lemma_div_pos_is_pos(w4 * w, 65536);
    }
    let w5 = fx_mul(w4, w);
    proof {
        lemma_fxm_bound(65536int - r0, w5 as int, 4_300_000, 2_097_152);
    }
    r0 + fx_mul(65536 - r0, w5)
}

/// At normal incidence there is no total internal reflection, whatever
/// the ratio of refractive indices: the sine of the incidence angle is
/// zero, so `ratio * sin` cannot exceed one.
pub proof fn lemma_normal_incidence_no_tir(ratio: int)
    ensures
        !cannot_refract_spec(FX_ONE as int, ratio),
{
    crate::fx::lemma_sqrt_floor_unique(0, 0);
    vstd::arithmetic::mul::lemma_mul_basics(ratio);
}

/// A dielectric with refraction index 1.5, struck head-on from outside
/// (`cos = 1`), refracts for every reflectance draw of at least its
/// base reflectance `r0` (about 0.04); in particular it never totally
/// internally reflects.
pub proof fn lemma_glass_normal_incidence_refracts(d: Dielectric, r_in: Ray, rec: HitRecord, draw: int)
    requires
        d.refraction_index == 98304,
        rec.front_face,
        ({
            let uvt = unit_spec(r_in.dir);
            let uv = (Vec3 { x: uvt.0 as i64, y: uvt.1 as i64, z: uvt.2 as i64 });
            dielectric_cos(uv, rec.normal) == FX_ONE
        }),
        2621 <= draw,
    ensures
        ({
            let uvt = unit_spec(r_in.dir);
            let uv = (Vec3 { x: uvt.0 as i64, y: uvt.1 as i64, z: uvt.2 as i64 });
            dielectric_dir_spec(d, r_in, rec, draw) == refract_spec(uv, rec.normal, 43690)
        }),
{
    let ratio = dielectric_ratio(d, rec.front_face);
    assert(ratio == 43690);
    lemma_normal_incidence_no_tir(43690);
    assert(fx_div_spec(65536int - 43690, 65536int + 43690) == 13107);
    assert(fx_mul_spec(13107int, 13107int) == 2621);
    assert(fx_mul_spec(0int, 0int) == 0);
    assert(fx_mul_spec(65536int - 2621, 0int) == 0);
    assert(reflectance_spec(65536, 43690) == 2621);
}

impl Material {
    /// Scatter an incoming ray at a hit. Diffuse surfaces always
    /// scatter; metals absorb rays whose fuzzed reflection points into
    /// the surface; dielectrics scatter every ray whose direction is not
    /// degenerate at the fixed-point scale. Whatever the random draws, a
    /// returned ray starts at the hit point and is well formed, and the
    /// attenuation is the variant's own: the base color for diffuse and
    /// metal surfaces, white for a dielectric.
    pub fn scatter(&self, r_in: &Ray, rec: &HitRecord) -> (res: Option<ScatterRecord>)
        requires
            wf_material(*self),
            wf_ray(*r_in),
            wf_hit_record(*rec),
        ensures
            match res {
                Some(sr) => {
                    &&& wf_ray(sr.scattered)
                    &&& color_ok(sr.attenuation)
                    &&& sr.scattered.orig == rec.p
                    &&& match *self {
                        Material::Lambertian(l) => sr.attenuation == l.albedo,
                        Material::Metal(m) => sr.attenuation == m.albedo,
                        Material::Dielectric(_) => sr.attenuation == (Color {
                            x: FX_ONE as i64,
                            y: FX_ONE as i64,
                            z: FX_ONE as i64,
                        }),
                    }
                },
                None => true,
            },
            self matches Material::Lambertian(_) ==> res is Some,
            (self matches Material::Dielectric(_) && ls_spec(r_in.dir) >= 1) ==> res is Some,
    {
        match self {
            Material::Lambertian(l) => {
                let u = random_unit_vector();
                Some(lambertian_scatter_with(l, rec, u))
            },
            Material::Metal(m) => {
                let u = random_unit_vector();
                metal_scatter_with(m, r_in, rec, u)
            },
            Material::Dielectric(d) => {
                let draw = random_double();
                dielectric_scatter_with(d, r_in, rec, draw)
            },
        }
    }
}

} // verus!
