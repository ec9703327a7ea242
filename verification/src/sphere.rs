//! Spheres and ray-sphere intersection.

use vstd::prelude::*;
use vstd::arithmetic::div_mod::*;
use vstd::arithmetic::mul::lemma_mul_is_commutative;
use crate::fx::lemma_sqrt_floor_unique;
use crate::fx::{
    FX_ONE, fx_mul, fx_div, fx_mul_spec, fx_div_spec, fx_sqrt, fx_div_opt, sqrt_floor,
    lemma_fxm_bound,
};
use crate::hittable::{HitRecord, wf_hit_record};
use crate::interval::{Interval, wf_interval};
use crate::limits::{COORD_MAX, DIR_MAX, NORMAL_MAX, NORMAL_TOL, ORIGIN_MAX, RADIUS_MIN, T_MAX};
use crate::ray::{Ray, ray_at_spec, wf_ray};
use crate::vec3::{Point3, Vec3, dot, dot_spec, lemma_dot_bound, ls_spec, vec_bounded, vneg};

verus! {

/// A sphere: center, radius, and the index of its material in the
/// scene's material list.
#[derive(Clone, Copy, Debug)]
pub struct Sphere {
    pub center: Point3,
    pub radius: i64,
    pub mat: usize,
}

/// The center lies within the world and the radius within the bounds the
/// intersection math accepts.
pub open spec fn wf_sphere(s: Sphere) -> bool {
    vec_bounded(s.center, COORD_MAX as int) && RADIUS_MIN <= s.radius <= COORD_MAX
}

/// The vector from the ray's origin to the sphere's center.
pub open spec fn oc_of(s: Sphere, r: Ray) -> Vec3 {
    (Vec3 {
        x: (s.center.x - r.orig.x) as i64,
        y: (s.center.y - r.orig.y) as i64,
        z: (s.center.z - r.orig.z) as i64,
    })
}

/// The discriminant of the intersection quadratic, in the half-distance
/// form: with `a = |dir|^2`, `h = dot(dir, oc)` and
/// `c = |oc|^2 - radius^2`, this is `h^2 - a * c`.
pub open spec fn disc_of(s: Sphere, r: Ray) -> int {
    let a = ls_spec(r.dir);
    let h = dot_spec(r.dir, oc_of(s, r));
    let c = ls_spec(oc_of(s, r)) - fx_mul_spec(s.radius as int, s.radius as int);
    fx_mul_spec(h, h) - fx_mul_spec(a, c)
}

/// The square root of the discriminant, as a fixed-point scalar.
pub open spec fn sqrtd_of(s: Sphere, r: Ray) -> int {
    sqrt_floor(disc_of(s, r) * FX_ONE as int)
}

/// The nearer root of the intersection quadratic.
pub open spec fn root1_of(s: Sphere, r: Ray) -> int {
    fx_div_spec(dot_spec(r.dir, oc_of(s, r)) - sqrtd_of(s, r), ls_spec(r.dir))
}

/// The farther root of the intersection quadratic.
pub open spec fn root2_of(s: Sphere, r: Ray) -> int {
    fx_div_spec(dot_spec(r.dir, oc_of(s, r)) + sqrtd_of(s, r), ls_spec(r.dir))
}

/// The parameter of the accepted hit, if any: the nearer root when it
/// lies strictly inside the interval, else the farther root when it
/// does, else nothing. A ray whose direction has zero fixed-point
/// squared length tests nothing.
pub open spec fn chosen_root(s: Sphere, r: Ray, it: Interval) -> Option<int> {
    if ls_spec(r.dir) < 1 {
        None
    } else if disc_of(s, r) < 0 {
        None
    } else if it.min < root1_of(s, r) < it.max {
        Some(root1_of(s, r))
    } else if it.min < root2_of(s, r) < it.max {
        Some(root2_of(s, r))
    } else {
        None
    }
}

/// The components of the outward normal at parameter `t`: the hit point
/// minus the center, divided by the radius.
pub open spec fn outward_normal_ints(s: Sphere, r: Ray, t: int) -> (int, int, int) {
    let p = ray_at_spec(r, t);
    (
        fx_div_spec(p.0 - s.center.x, s.radius as int),
        fx_div_spec(p.1 - s.center.y, s.radius as int),
        fx_div_spec(p.2 - s.center.z, s.radius as int),
    )
}

/// The outward normal at parameter `t`, as a vector.
pub open spec fn outward_normal_of(s: Sphere, r: Ray, t: int) -> Vec3 {
    let n = outward_normal_ints(s, r, t);
    (Vec3 { x: n.0 as i64, y: n.1 as i64, z: n.2 as i64 })
}

/// The accepted hit stays within the numeric range a record may hold:
/// the hit point within the world bound, the outward normal within the
/// component bound, and the normal's squared length within `NORMAL_TOL`
/// of one, as the data model asks of a unit normal.
pub open spec fn rec_in_range(s: Sphere, r: Ray, t: int) -> bool {
    let p = ray_at_spec(r, t);
    let n = outward_normal_ints(s, r, t);
    &&& -ORIGIN_MAX <= p.0 <= ORIGIN_MAX
    &&& -ORIGIN_MAX <= p.1 <= ORIGIN_MAX
    &&& -ORIGIN_MAX <= p.2 <= ORIGIN_MAX
    &&& -NORMAL_MAX <= n.0 <= NORMAL_MAX
    &&& -NORMAL_MAX <= n.1 <= NORMAL_MAX
    &&& -NORMAL_MAX <= n.2 <= NORMAL_MAX
    &&& FX_ONE - NORMAL_TOL <= ls_spec(outward_normal_of(s, r, t)) <= FX_ONE + NORMAL_TOL
}

/// What the intersection test returns: the record for the accepted root,
/// or nothing when there is none or its record leaves the numeric range.
pub open spec fn sphere_hit_spec(s: Sphere, r: Ray, it: Interval) -> Option<HitRecord> {
    match chosen_root(s, r, it) {
        None => None,
        Some(t) => if rec_in_range(s, r, t) {
            Some(hit_record_of(s, r, t))
        } else {
            None
        },
    }
}

/// The record that a hit at parameter `t` carries.
pub open spec fn hit_record_of(s: Sphere, r: Ray, t: int) -> HitRecord {
    let p = ray_at_spec(r, t);
    let own = outward_normal_of(s, r, t);
    (HitRecord {
        p: (Vec3 { x: p.0 as i64, y: p.1 as i64, z: p.2 as i64 }),
        normal: if dot_spec(r.dir, own) < 0 {
            own
        } else {
            vneg(own)
        },
        mat: s.mat,
        t: t as i64,
        front_face: dot_spec(r.dir, own) < 0,
    })
}

impl Sphere {
    /// A sphere from its center, radius and material index.
    pub fn new(center: Point3, radius: i64, mat: usize) -> (s: Sphere)
        ensures
            s.center == center && s.radius == radius && s.mat == mat,
    {
        Sphere { center, radius, mat }
    }

    /// Ray-sphere intersection over the parameter interval `ray_t`.
    ///
    /// Returns the record for the accepted root of the quadratic
    /// (`chosen_root`), or nothing when there is none or when its record
    /// would leave the numeric range (`rec_in_range`).
    pub fn hit(&self, r: &Ray, ray_t: Interval) -> (res: Option<HitRecord>)
        requires
            wf_sphere(*self),
            wf_ray(*r),
            wf_interval(ray_t),
        ensures
            res == sphere_hit_spec(*self, *r, ray_t),
            match res {
                Some(rec) => {
                    &&& chosen_root(*self, *r, ray_t) == Some(rec.t as int)
                    &&& rec_in_range(*self, *r, rec.t as int)
                    &&& rec == hit_record_of(*self, *r, rec.t as int)
                    &&& wf_hit_record(rec)
                    &&& FX_ONE - NORMAL_TOL <= ls_spec(rec.normal) <= FX_ONE + NORMAL_TOL
                    &&& ray_t.min < rec.t < ray_t.max
                },
                None => match chosen_root(*self, *r, ray_t) {
                    None => true,
                    Some(t) => !rec_in_range(*self, *r, t),
                },
            },
    {
        let oc: Vec3 = self.center.sub(r.origin());
        proof {
            assert(oc == oc_of(*self, *r));
            lemma_dot_bound(r.dir, r.dir, DIR_MAX as int, DIR_MAX as int);
            lemma_dot_bound(r.dir, oc, DIR_MAX as int, 0xC00_0000);
            lemma_dot_bound(oc, oc, 0xC00_0000, 0xC00_0000);
            lemma_fxm_bound(self.radius as int, self.radius as int, COORD_MAX as int, COORD_MAX as int);
            assert(self.radius * self.radius >= 0) by (nonlinear_arith)
                requires
                    self.radius >= 0,
            ;
            lemma_div_pos_is_pos(self.radius * self.radius, 65536);
        }
        let a = r.direction().length_squared();
        if a < 1 {
            return None;
        }
        let h = dot(r.direction(), oc);
        let rr = fx_mul(self.radius, self.radius);
        let c = oc.length_squared() - rr;
        proof {
            assert(h * h >= 0) by (nonlinear_arith);
            lemma_div_pos_is_pos(h * h, 65536);
            lemma_fxm_bound(h as int, h as int, 618_475_290_627, 618_475_290_627);
            lemma_fxm_bound(a as int, c as int, 206_158_430_211, 1_855_425_871_875);
            assert(a * c >= -(206_158_430_211int * 68_719_476_736)) by (nonlinear_arith)
                requires
                    0 <= a <= 206_158_430_211,
                    c >= -68_719_476_736,
            ;
            crate::fx::lemma_div_lower_bound(
                a * c,
                206_158_430_211int * 68_719_476_736,
                65536,
            );
        }
        let hh = fx_mul(h, h);
        let ac = fx_mul(a, c);
        let disc = hh - ac;
        if disc < 0 {
            return None;
        }
        let sqrt_d = fx_sqrt(disc);
        proof {
            assert(sqrt_d <= 631_000_000_000) by (nonlinear_arith)
                requires
                    0 <= sqrt_d,
                    sqrt_d * sqrt_d <= disc * 65536,
                    disc <= 6_060_000_000_000_000_000,
            ;
            assert(sqrt_d as int == sqrtd_of(*self, *r));
        }
        let root: i64;
        let t1 = fx_div_opt(h - sqrt_d, a);
        let accept1 = match t1 {
            Some(t) => ray_t.surrounds(t),
            None => false,
        };
        if accept1 {
            root = match t1 {
                Some(t) => t,
                None => 0,
            };
        } else {
            proof {
                assert(!(ray_t.min < root1_of(*self, *r) < ray_t.max));
            }
            let t2 = fx_div_opt(h + sqrt_d, a);
            let accept2 = match t2 {
                Some(t) => ray_t.surrounds(t),
                None => false,
            };
            if accept2 {
                root = match t2 {
                    Some(t) => t,
                    None => 0,
                };
            } else {
                proof {
                    assert(!(ray_t.min < root2_of(*self, *r) < ray_t.max));
                }
                return None;
            }
        }
        let p = r.at(root);
        if p.x > ORIGIN_MAX || p.x < -ORIGIN_MAX || p.y > ORIGIN_MAX || p.y < -ORIGIN_MAX || p.z
            > ORIGIN_MAX || p.z < -ORIGIN_MAX {
            return None;
        }
        proof {
            lemma_normal_div_fits(p.x as int, self.center.x as int, self.radius as int);
            lemma_normal_div_fits(p.y as int, self.center.y as int, self.radius as int);
            lemma_normal_div_fits(p.z as int, self.center.z as int, self.radius as int);
        }
        let nx = fx_div(p.x - self.center.x, self.radius);
        let ny = fx_div(p.y - self.center.y, self.radius);
        let nz = fx_div(p.z - self.center.z, self.radius);
        if nx > NORMAL_MAX || nx < -NORMAL_MAX || ny > NORMAL_MAX || ny < -NORMAL_MAX || nz
            > NORMAL_MAX || nz < -NORMAL_MAX {
            return None;
        }
        let outward = Vec3::new(nx, ny, nz);
        let nls = outward.length_squared();
        if nls < 65536 - NORMAL_TOL || nls > 65536 + NORMAL_TOL {
            return None;
        }
        proof {
            assert((-outward.x as int) * (-outward.x as int) == (outward.x as int) * (
            outward.x as int)) by (nonlinear_arith);
            assert((-outward.y as int) * (-outward.y as int) == (outward.y as int) * (
            outward.y as int)) by (nonlinear_arith);
            assert((-outward.z as int) * (-outward.z as int) == (outward.z as int) * (
            outward.z as int)) by (nonlinear_arith);
            assert(ls_spec(crate::vec3::vneg(outward)) == ls_spec(outward));
        }
        let mut rec = HitRecord {
            t: root,
            p,
            mat: self.mat,
            normal: outward,
            front_face: false,
        };
        rec.set_face_normal(r, outward);
        Some(rec)
    }
}

/// A sphere of whole-unit radius `rr` centered at the origin.
pub open spec fn origin_sphere(rr: int) -> Sphere {
    (Sphere {
        center: (Vec3 { x: 0, y: 0, z: 0 }),
        radius: (rr * 65536) as i64,
        mat: 0,
    })
}

/// A ray starting `dd` whole units down the x-axis, aimed at the origin
/// with a unit direction.
pub open spec fn head_on_ray(dd: int) -> Ray {
    (Ray {
        orig: (Vec3 { x: (-(dd * 65536)) as i64, y: 0, z: 0 }),
        dir: (Vec3 { x: 65536, y: 0, z: 0 }),
    })
}

/// A head-on hit lands exactly at distance minus radius: a sphere of
/// whole-unit radius `rr` at the origin, struck from `dd > rr` whole
/// units away by a unit ray aimed at its center, is hit at parameter
/// `dd - rr` exactly, with the hit point on the near surface and the
/// normal facing the ray.
pub proof fn lemma_head_on_hit(dd: int, rr: int)
    requires
        1 <= rr < dd <= 1024,
    ensures
        chosen_root(origin_sphere(rr), head_on_ray(dd), (Interval { min: 66, max: T_MAX }))
            == Some((dd - rr) * 65536),
        sphere_hit_spec(origin_sphere(rr), head_on_ray(dd), (Interval { min: 66, max: T_MAX }))
            is Some,
        hit_record_of(origin_sphere(rr), head_on_ray(dd), (dd - rr) * 65536).front_face,
{
    let s = origin_sphere(rr);
    let r = head_on_ray(dd);
    let it = (Interval { min: 66, max: T_MAX });
    let ds = dd * 65536;
    let rs = rr * 65536;

    // components of the quadratic
    assert(oc_of(s, r) == (Vec3 { x: ds as i64, y: 0, z: 0 }));
    assert(0int * 0 / 65536 == 0);
    lemma_div_multiples_vanish(65536, 65536);
    assert(ls_spec(r.dir) == 65536) by {
        assert(fx_mul_spec(65536, 65536) == (65536 * 65536) / 65536);
        lemma_div_multiples_vanish(65536, 65536);
    }
    assert(fx_mul_spec(65536, ds) == ds) by {
        lemma_div_multiples_vanish(ds, 65536);
    }
    assert(dot_spec(r.dir, oc_of(s, r)) == ds);
    assert(ds * ds == (dd * dd * 65536) * 65536) by (nonlinear_arith)
        requires
            ds == dd * 65536,
    ;
    assert(fx_mul_spec(ds, ds) == dd * dd * 65536) by {
        lemma_div_multiples_vanish(dd * dd * 65536, 65536);
    }
    assert(ls_spec(oc_of(s, r)) == dd * dd * 65536);
    assert(rs * rs == (rr * rr * 65536) * 65536) by (nonlinear_arith)
        requires
            rs == rr * 65536,
    ;
    assert(fx_mul_spec(rs, rs) == rr * rr * 65536) by {
        lemma_div_multiples_vanish(rr * rr * 65536, 65536);
    }
    let c = (dd * dd - rr * rr) * 65536;
    assert(dd * dd * 65536 - rr * rr * 65536 == c) by (nonlinear_arith)
        requires
            c == (dd * dd - rr * rr) * 65536,
    ;
    assert(fx_mul_spec(65536, c) == c) by {
        lemma_div_multiples_vanish(c, 65536);
    }
    assert(disc_of(s, r) == dd * dd * 65536 - c);
    assert(dd * dd * 65536 - c == rr * rr * 65536) by (nonlinear_arith)
        requires
            c == (dd * dd - rr * rr) * 65536,
    ;

    // its square root
    assert((rs) * (rs) <= (rr * rr * 65536) * 65536 < (rs + 1) * (rs + 1)) by (nonlinear_arith)
        requires
            1 <= rr,
            rs == rr * 65536,
    ;
    lemma_sqrt_floor_unique((rr * rr * 65536) * 65536, rs);
    assert(sqrtd_of(s, r) == rs);

    // the nearer root
    assert(fx_div_spec(ds - rs, 65536) == ds - rs) by {
        lemma_div_multiples_vanish(ds - rs, 65536);
        lemma_mul_is_commutative(ds - rs, 65536);
    }
    assert(root1_of(s, r) == ds - rs);
    assert(ds - rs == (dd - rr) * 65536) by (nonlinear_arith)
        requires
            ds == dd * 65536,
            rs == rr * 65536,
    ;
    assert(66 < (dd - rr) * 65536 < T_MAX) by (nonlinear_arith)
        requires
            1 <= dd - rr <= 1024,
            T_MAX == 0x1000_0000_0000,
    ;
    assert(chosen_root(s, r, it) == Some((dd - rr) * 65536));

    // the record stays in range and faces the ray
    let t = (dd - rr) * 65536;
    assert(fx_mul_spec(t, 65536) == t) by {
        lemma_div_multiples_vanish(t, 65536);
        lemma_mul_is_commutative(t, 65536);
    }
    assert(fx_mul_spec(t, 0) == 0);
    assert(ray_at_spec(r, t) == (-(rs) as int, 0int, 0int)) by (nonlinear_arith)
        requires
            ray_at_spec(r, t).0 == -(ds) + t,
            ray_at_spec(r, t).1 == 0,
            ray_at_spec(r, t).2 == 0,
            t == ds - rs,
            ds == dd * 65536,
            rs == rr * 65536,
    ;
    assert(fx_div_spec(-(rs) - 0, rs) == -65536) by {
        assert((-(rs) - 0) * 65536 == rs * -65536) by (nonlinear_arith)
            requires
                rs == rr * 65536,
        ;
        lemma_div_multiples_vanish(-65536, rs);
        lemma_mul_is_commutative(-65536, rs);
    }
    assert(fx_div_spec(0 - 0, rs) == 0) by {
        lemma_div_of0(rs);
    }
    assert(outward_normal_ints(s, r, t) == (-65536int, 0int, 0int));
    assert(ls_spec(outward_normal_of(s, r, t)) == 65536);
    assert(rec_in_range(s, r, t));
    assert(fx_mul_spec(65536, -65536) == -65536) by {
        lemma_div_multiples_vanish(-65536, 65536);
    }
    assert(dot_spec(r.dir, outward_normal_of(s, r, t)) == -65536);
}

/// Side condition of `fx_div` for the outward-normal division: the
/// numerator scaled by the unit never outruns `i64::MAX` times the
/// radius.
proof fn lemma_normal_div_fits(pc: int, cc: int, radius: int)
    by (nonlinear_arith)
    requires
        -0x800_0000 <= pc <= 0x800_0000,
        -0x400_0000 <= cc <= 0x400_0000,
        1024 <= radius,
    ensures
        i64::MIN * radius <= (pc - cc) * 65536 <= i64::MAX * radius,
{
}

} // verus!
