//! A small ray tracer over fixed-point coordinates.
//!
//! All geometry is carried in signed 64-bit fixed-point numbers with one
//! million units per world unit, so every arithmetic step is exact integer
//! arithmetic with stated flooring, and the whole pipeline — ray-sphere
//! intersection, nearest-hit selection, scattering and the render loop —
//! is verified against integer specifications.

pub mod camera;
pub mod fixed;
pub mod hittable;
pub mod image;
pub mod material;
pub mod interval;
pub mod ray;
pub mod rng;
pub mod sphere;
pub mod utils;
pub mod vec3;

use vstd::prelude::*;

verus! {

/// One world unit in fixed-point representation.
pub const ONE: i64 = 1_000_000;

/// The widest coordinate magnitude the vector operations accept; wide
/// enough for every value the pipeline produces.
pub const VEC_MAX: i64 = 2_000_000_000_000;

/// The widest coordinate magnitude accepted where two coordinates are
/// multiplied and rescaled.
pub const MUL_MAX: i64 = 3_000_000_000;

/// The widest position a ray origin or hit point may have: fifteen
/// hundred world units from the origin in each axis.
pub const POS_MAX: i64 = 1_500_000_000;

/// The widest component of a ray direction.
pub const DIR_MAX: i64 = 1_000_000_000;

/// The widest component of a sphere centre, and the largest radius: six
/// hundred world units.
pub const CEN_MAX: i64 = 600_000_000;

/// The lower hit bound for bounced rays: a thousandth of a unit, so a
/// scattered ray cannot re-meet the surface it just left.
pub const SHADOW_EPS: i64 = 1_000;

} // verus!
