//! A Monte-Carlo ray tracer over fixed-point arithmetic.
//!
//! Scalars are fixed-point numbers: an `i64` holding `value * 65536`, so that
//! one unit of real length is `FX_ONE`. All geometry, materials and the
//! camera are written over this representation, and every public operation
//! carries a contract describing the exact integer result it computes.

pub mod camera;
pub mod colors;
pub mod common;
pub mod fx;
pub mod vec3;
pub mod hittable;
pub mod hittable_list;
pub mod interval;
pub mod limits;
pub mod material;
pub mod ray;
pub mod sphere;

pub use fx::FX_ONE;
