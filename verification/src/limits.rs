//! Size limits for the world that the renderer works in.
//!
//! The fixed-point scale leaves a finite range, so the geometry the tracer
//! accepts is bounded: sphere centers and camera points lie within
//! `COORD_MAX` of the origin, ray origins (including bounce points on
//! sphere surfaces) within `ORIGIN_MAX`, ray directions within `DIR_MAX`
//! per component, and ray parameters within `T_MAX`. These bounds are what
//! make every intermediate product of the intersection math fit in `i64`.

use vstd::prelude::*;

verus! {

/// Bound on sphere centers, radii and camera points: 1024 units.
pub const COORD_MAX: i64 = 0x400_0000;

/// Bound on ray origins and accepted hit points: 2048 units.
pub const ORIGIN_MAX: i64 = 0x800_0000;

/// Bound on ray direction components: 1024 units.
pub const DIR_MAX: i64 = 0x400_0000;

/// Smallest sphere radius the intersection math accepts: 1/64 unit.
pub const RADIUS_MIN: i64 = 1024;

/// Bound on ray-parameter interval endpoints.
pub const T_MAX: i64 = 0x1000_0000_0000;

/// Bound on stored surface normals: 1.5 units per component.
pub const NORMAL_MAX: i64 = 0x1_8000;

/// How far an accepted hit's normal may drift from unit squared length:
/// one tenth of a unit. An intersection whose fixed-point normal drifts
/// farther - possible only at extreme grazing incidence, where the
/// rounded root no longer lands near the surface - is rejected as
/// numerically meaningless.
pub const NORMAL_TOL: i64 = 6554;

} // verus!
