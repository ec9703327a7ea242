//! Hit records: what an intersection test reports about the nearest hit.

use vstd::prelude::*;
use crate::limits::{NORMAL_MAX, ORIGIN_MAX, T_MAX};
use crate::ray::{Ray, wf_ray};
use crate::vec3::{Point3, Vec3, dot_spec, lemma_dot_bound, vec_bounded, vneg};

verus! {

/// What a successful intersection test hands back: the hit point, the
/// surface normal oriented against the incoming ray, the ray parameter,
/// which side of the surface was struck, and the index of the surface's
/// material in the scene's material list.
#[derive(Clone, Copy, Debug, PartialEq, Eq, Structural)]
pub struct HitRecord {
    pub p: Point3,
    pub normal: Vec3,
    pub mat: usize,
    pub t: i64,
    pub front_face: bool,
}

/// Bounds that every record produced by the intersection code satisfies:
/// the hit point stays inside the world (so a bounce may start there),
/// the stored normal is near unit length, and the parameter is in range.
pub open spec fn wf_hit_record(rec: HitRecord) -> bool {
    vec_bounded(rec.p, ORIGIN_MAX as int) && vec_bounded(rec.normal, NORMAL_MAX as int) && -T_MAX
        <= rec.t <= T_MAX
}

impl HitRecord {
    /// Orients the stored normal against the incoming ray: `front_face`
    /// records whether the ray struck the outward side, and the normal is
    /// flipped when it did not. The caller hands the outward normal.
    pub fn set_face_normal(&mut self, r: &Ray, outward_normal: Vec3)
        requires
            wf_ray(*r),
            vec_bounded(outward_normal, NORMAL_MAX as int),
        ensures
            final(self).front_face == (dot_spec(r.dir, outward_normal) < 0),
            final(self).normal == if dot_spec(r.dir, outward_normal) < 0 {
                outward_normal
            } else {
                vneg(outward_normal)
            },
            vec_bounded(final(self).normal, NORMAL_MAX as int),
            final(self).p == old(self).p,
            final(self).t == old(self).t,
            final(self).mat == old(self).mat,
    {
        proof {
            lemma_dot_bound(r.dir, outward_normal, 0x400_0000, NORMAL_MAX as int);
        }
        let d = crate::vec3::dot(r.direction(), outward_normal);
        self.front_face = d < 0;
        self.normal = if self.front_face {
            outward_normal
        } else {
            outward_normal.neg()
        };
    }
}

} // verus!
