//! Rays: an origin plus a direction, evaluated at a parameter.

use vstd::prelude::*;
use crate::fx::{fx_mul_spec, lemma_fxm_bound};
use crate::limits::{DIR_MAX, ORIGIN_MAX, T_MAX};
use crate::vec3::{Point3, Vec3, vec_bounded};

verus! {

/// A ray through `orig` along `dir`.
#[derive(Clone, Copy, Debug, Default)]
pub struct Ray {
    pub orig: Point3,
    pub dir: Vec3,
}

/// The origin lies within the world and the direction within the
/// direction bound: what the intersection math needs of a ray.
pub open spec fn wf_ray(r: Ray) -> bool {
    vec_bounded(r.orig, ORIGIN_MAX as int) && vec_bounded(r.dir, DIR_MAX as int)
}

/// The components of the point a parameter `t` along the ray:
/// `orig + t * dir`.
pub open spec fn ray_at_spec(r: Ray, t: int) -> (int, int, int) {
    (
        r.orig.x + fx_mul_spec(t, r.dir.x as int),
        r.orig.y + fx_mul_spec(t, r.dir.y as int),
        r.orig.z + fx_mul_spec(t, r.dir.z as int),
    )
}

impl Ray {
    /// A ray from its origin and direction.
    pub fn new(orig: Point3, dir: Vec3) -> (r: Ray)
        ensures
            r.orig == orig && r.dir == dir,
    {
        Ray { orig, dir }
    }

    /// The ray's origin.
    pub fn origin(&self) -> (r: Point3)
        ensures
            r == self.orig,
    {
        self.orig
    }

    /// The ray's direction.
    pub fn direction(&self) -> (r: Vec3)
        ensures
            r == self.dir,
    {
        self.dir
    }

    /// The point a parameter `t` along the ray.
    pub fn at(&self, t: i64) -> (p: Point3)
        requires
            wf_ray(*self),
            -T_MAX <= t <= T_MAX,
        ensures
            (p.x as int, p.y as int, p.z as int) == ray_at_spec(*self, t as int),
            vec_bounded(p, 0x41_0000_0000_0000),
    {
        proof {
            lemma_fxm_bound(t as int, self.dir.x as int, T_MAX as int, DIR_MAX as int);
            lemma_fxm_bound(t as int, self.dir.y as int, T_MAX as int, DIR_MAX as int);
            lemma_fxm_bound(t as int, self.dir.z as int, T_MAX as int, DIR_MAX as int);
        }
        self.orig.add(self.dir.scale(t))
    }
}

} // verus!
