//! The scene: an ordered list of spheres with a shared material list,
//! and the search for the nearest intersection.

use vstd::prelude::*;
use vstd::arithmetic::div_mod::lemma_div_is_ordered;
use crate::fx::{FX_ONE, lemma_sqrt_floor_exists};
use crate::hittable::{HitRecord, wf_hit_record};
use crate::interval::{Interval, wf_interval};
use crate::limits::{NORMAL_TOL, T_MAX};
use crate::material::{Material, wf_material};
use crate::ray::{Ray, wf_ray};
use crate::sphere::{
    Sphere, chosen_root, disc_of, rec_in_range, root1_of, root2_of, sphere_hit_spec, wf_sphere,
};
use crate::vec3::ls_spec;

verus! {

/// A scene: spheres in insertion order, and the materials they index.
/// Materials are shared by index, so many spheres may carry one
/// material without copying it.
pub struct HittableList {
    pub objects: Vec<Sphere>,
    pub materials: Vec<Material>,
}

/// Every sphere is well formed and indexes a well-formed material.
pub open spec fn wf_scene(w: HittableList) -> bool {
    (forall|i: int|
        0 <= i < w.objects@.len() ==> wf_sphere(#[trigger] w.objects@[i]) && w.objects@[i].mat
            < w.materials@.len()) && (forall|j: int|
        0 <= j < w.materials@.len() ==> wf_material(#[trigger] w.materials@[j]))
}

/// The nearest hit among the first `n` spheres: each sphere is tested
/// against the interval shrunk to the best parameter found so far, so a
/// later sphere only displaces the record with a strictly closer hit.
pub open spec fn scene_hit_prefix(w: HittableList, r: Ray, it: Interval, n: int) -> Option<
    HitRecord,
>
    decreases n,
{
    if n <= 0 {
        None
    } else {
        let prev = scene_hit_prefix(w, r, it, n - 1);
        let cur_max = match prev {
            Some(rec) => rec.t,
            None => it.max,
        };
        match sphere_hit_spec(w.objects@[n - 1], r, (Interval { min: it.min, max: cur_max })) {
            Some(rec2) => Some(rec2),
            None => prev,
        }
    }
}

/// The nearest hit in the whole scene.
pub open spec fn scene_hit_spec(w: HittableList, r: Ray, it: Interval) -> Option<HitRecord> {
    scene_hit_prefix(w, r, it, w.objects@.len() as int)
}

/// The parameter a hit carries, or zero for a miss.
pub open spec fn hit_t(res: Option<HitRecord>) -> int {
    match res {
        Some(rec) => rec.t as int,
        None => 0,
    }
}

/// The nearer root never exceeds the farther root.
proof fn lemma_roots_ordered(s: Sphere, r: Ray)
    requires
        ls_spec(r.dir) >= 1,
        disc_of(s, r) >= 0,
    ensures
        root1_of(s, r) <= root2_of(s, r),
{
    lemma_sqrt_floor_exists(disc_of(s, r) * FX_ONE);
    let sq = crate::sphere::sqrtd_of(s, r);
    let h = crate::vec3::dot_spec(r.dir, crate::sphere::oc_of(s, r));
    let a = ls_spec(r.dir);
    assert((h - sq) * 65536 <= (h + sq) * 65536) by (nonlinear_arith)
        requires
            sq >= 0,
    ;
    lemma_div_is_ordered((h - sq) * 65536, (h + sq) * 65536, a);
}

/// A sphere's hit over a sub-interval with the same lower end: when the
/// hit over the full interval lies below the sub-interval's top, the
/// sub-query returns the same record; otherwise it returns nothing.
proof fn lemma_sphere_hit_shrink(s: Sphere, r: Ray, it: Interval, cur: i64)
    requires
        sphere_hit_spec(s, r, it) is Some,
        it.min < cur <= it.max,
    ensures
        hit_t(sphere_hit_spec(s, r, it)) < cur ==> sphere_hit_spec(
            s,
            r,
            (Interval { min: it.min, max: cur }),
        ) == sphere_hit_spec(s, r, it),
        hit_t(sphere_hit_spec(s, r, it)) >= cur ==> sphere_hit_spec(
            s,
            r,
            (Interval { min: it.min, max: cur }),
        ) is None,
{
    lemma_roots_ordered(s, r);
}

/// A sphere's hit over a sub-interval with the same lower end is also
/// its hit over the full interval.
proof fn lemma_sphere_hit_widen(s: Sphere, r: Ray, it: Interval, cur: i64)
    requires
        cur <= it.max,
        sphere_hit_spec(s, r, (Interval { min: it.min, max: cur })) is Some,
    ensures
        sphere_hit_spec(s, r, it) == sphere_hit_spec(s, r, (Interval { min: it.min, max: cur })),
{
    lemma_roots_ordered(s, r);
}

/// What every prefix fold of the scene search satisfies: a found record
/// lies strictly inside the interval and is some processed sphere's own
/// hit over the full interval.
proof fn lemma_scene_prefix_props(w: HittableList, r: Ray, it: Interval, n: int)
    requires
        0 <= n <= w.objects@.len(),
    ensures
        match scene_hit_prefix(w, r, it, n) {
            Some(rec) => it.min < rec.t < it.max && exists|jj: int|
                0 <= jj < n && #[trigger] sphere_hit_spec(w.objects@[jj], r, it) == Some(rec),
            None => true,
        },
    decreases n,
{
    if n > 0 {
        lemma_scene_prefix_props(w, r, it, n - 1);
        let prev = scene_hit_prefix(w, r, it, n - 1);
        let cur = match prev {
            Some(rec) => rec.t,
            None => it.max,
        };
        let sub = (Interval { min: it.min, max: cur });
        match sphere_hit_spec(w.objects@[n - 1], r, sub) {
            Some(rec2) => {
                if cur <= it.max {
                    lemma_sphere_hit_widen(w.objects@[n - 1], r, it, cur);
                    assert(sphere_hit_spec(w.objects@[n - 1], r, it) == Some(rec2));
                }
            },
            None => {},
        }
    }
}

/// Processing more spheres never pushes a found hit farther away, and
/// never loses it.
proof fn lemma_scene_hit_nearest_aux(w: HittableList, r: Ray, it: Interval, k: int, n: int)
    requires
        0 <= k < n <= w.objects@.len(),
        sphere_hit_spec(w.objects@[k], r, it) is Some,
    ensures
        scene_hit_prefix(w, r, it, n) is Some,
        hit_t(scene_hit_prefix(w, r, it, n)) <= hit_t(sphere_hit_spec(w.objects@[k], r, it)),
    decreases n,
{
    let tk = hit_t(sphere_hit_spec(w.objects@[k], r, it));
    if n == k + 1 {
        lemma_scene_prefix_props(w, r, it, k);
        let prev = scene_hit_prefix(w, r, it, k);
        match prev {
            None => {
                assert((Interval { min: it.min, max: it.max }) == it);
            },
            Some(p) => {
                lemma_sphere_hit_shrink(w.objects@[k], r, it, p.t);
            },
        }
    } else {
        lemma_scene_hit_nearest_aux(w, r, it, k, n - 1);
        lemma_scene_prefix_props(w, r, it, n - 1);
    }
}

/// The scene search returns the globally nearest intersection: whenever
/// some sphere's own test over the interval accepts a hit, the scene
/// returns a hit whose parameter is no farther, and the returned record
/// is some sphere's own hit over that interval.
pub proof fn lemma_scene_hit_nearest(w: HittableList, r: Ray, it: Interval, k: int)
    requires
        0 <= k < w.objects@.len(),
        sphere_hit_spec(w.objects@[k], r, it) is Some,
    ensures
        scene_hit_spec(w, r, it) is Some,
        hit_t(scene_hit_spec(w, r, it)) <= hit_t(sphere_hit_spec(w.objects@[k], r, it)),
        exists|jj: int|
            0 <= jj < w.objects@.len() && #[trigger] sphere_hit_spec(w.objects@[jj], r, it)
                == scene_hit_spec(w, r, it),
{
    lemma_scene_hit_nearest_aux(w, r, it, k, w.objects@.len() as int);
    lemma_scene_prefix_props(w, r, it, w.objects@.len() as int);
}

impl HittableList {
    /// An empty scene.
    pub fn new() -> (w: HittableList)
        ensures
            w.objects@.len() == 0,
            w.materials@.len() == 0,
            wf_scene(w),
    {
        HittableList { objects: Vec::new(), materials: Vec::new() }
    }

    /// Adds a material and returns its index, for spheres to refer to.
    pub fn add_material(&mut self, m: Material) -> (idx: usize)
        ensures
            final(self).materials@ == old(self).materials@.push(m),
            final(self).objects == old(self).objects,
            idx as int == old(self).materials@.len(),
    {
        let idx = self.materials.len();
        self.materials.push(m);
        idx
    }

    /// Adds a sphere to the scene.
    pub fn add(&mut self, object: Sphere)
        ensures
            final(self).objects@ == old(self).objects@.push(object),
            final(self).materials == old(self).materials,
    {
        self.objects.push(object);
    }

    /// The nearest intersection of `r` with the scene inside `ray_t`:
    /// spheres are scanned in order while the search interval's upper
    /// bound shrinks to the closest parameter found, so the result, if
    /// any, is the record of the nearest accepted hit, and the earliest
    /// sphere wins exact ties.
    pub fn hit(&self, r: &Ray, ray_t: Interval) -> (res: Option<HitRecord>)
        requires
            wf_scene(*self),
            wf_ray(*r),
            wf_interval(ray_t),
        ensures
            res == scene_hit_spec(*self, *r, ray_t),
            match res {
                Some(rec) => {
                    &&& wf_hit_record(rec)
                    &&& rec.mat < self.materials@.len()
                    &&& FX_ONE - NORMAL_TOL <= crate::vec3::ls_spec(rec.normal) <= FX_ONE
                        + NORMAL_TOL
                    &&& ray_t.min < rec.t < ray_t.max
                },
                None => true,
            },
    {
        let mut temp_rec: Option<HitRecord> = None;
        let mut closest: i64 = ray_t.max;
        let mut i: usize = 0;
        let n = self.objects.len();
        while i < n
            invariant
                n == self.objects@.len(),
                0 <= i <= n,
                wf_scene(*self),
                wf_ray(*r),
                wf_interval(ray_t),
                temp_rec == scene_hit_prefix(*self, *r, ray_t, i as int),
                closest == match temp_rec {
                    Some(rec) => rec.t,
                    None => ray_t.max,
                },
                match temp_rec {
                    Some(rec) => {
                        &&& wf_hit_record(rec)
                        &&& rec.mat < self.materials@.len()
                        &&& FX_ONE - NORMAL_TOL <= crate::vec3::ls_spec(rec.normal) <= FX_ONE
                            + NORMAL_TOL
                        &&& ray_t.min < rec.t < ray_t.max
                    },
                    None => true,
                },
            decreases n - i,
        {
            let s = self.objects[i];
            let shrunk = Interval::new(ray_t.min, closest);
            if let Some(rec) = s.hit(r, shrunk) {
                closest = rec.t;
                temp_rec = Some(rec);
            }
            i = i + 1;
        }
        temp_rec
    }
}

} // verus!
