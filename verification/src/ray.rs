//! Rays: an origin, a direction, and parametric evaluation along them.

use crate::fixed::floor_div;
use crate::fixed::lemma_abs_mul;
use crate::fixed::lemma_div_bounds;
use crate::vec3::in_range;
use crate::vec3::Point3;
use crate::vec3::Vec3;
use crate::ONE;
use vstd::prelude::*;

verus! {

/// A ray `P(t) = origin + t * direction`; the direction need not have
/// unit length.
#[derive(Clone, Copy, Debug, PartialEq, Eq, Structural)]
pub struct Ray {
    pub origin: Point3,
    pub direction: Vec3,
}

/// A ray the pipeline traces: origin within the positional bound and a
/// direction within the directional bound.
pub open spec fn wf_ray(r: Ray) -> bool {
    &&& in_range(r.origin@, crate::POS_MAX as int)
    &&& in_range(r.direction@, crate::DIR_MAX as int)
}

/// The point a fixed-point parameter `t` reaches along `r`.
pub open spec fn ray_at(r: Ray, t: int) -> (int, int, int) {
    (
        r.origin@.0 + t * r.direction@.0 / ONE as int,
        r.origin@.1 + t * r.direction@.1 / ONE as int,
        r.origin@.2 + t * r.direction@.2 / ONE as int,
    )
}

impl Ray {
    pub fn new(origin: Point3, direction: Vec3) -> (r: Self)
        ensures
            r.origin == origin,
            r.direction == direction,
    {
        Ray { origin, direction }
    }

    pub fn default() -> (r: Self)
        ensures
            r.origin@ == (0int, 0int, 0int),
            r.direction@ == (0int, 0int, 0int),
    {
        Ray { origin: Vec3::default(), direction: Vec3::default() }
    }

    /// The point at parameter `t`, exact at fixed-point scale.
    pub fn at(&self, t: i64) -> (r: Point3)
        requires
            in_range(self.origin@, 2_000_000_000_000),
            in_range(self.direction@, 1_000_000_000),
            -9_000_000_000_000 <= t <= 9_000_000_000_000,
        ensures
            r@ == ray_at(*self, t as int),
    {
        proof {
            lemma_abs_mul(t as int, self.direction@.0, 9_000_000_000_000, 1_000_000_000);
            lemma_abs_mul(t as int, self.direction@.1, 9_000_000_000_000, 1_000_000_000);
            lemma_abs_mul(t as int, self.direction@.2, 9_000_000_000_000, 1_000_000_000);
            lemma_div_bounds(t as int * self.direction@.0, 1_000_000, 9_000_000_000_000_000);
            lemma_div_bounds(t as int * self.direction@.1, 1_000_000, 9_000_000_000_000_000);
            lemma_div_bounds(t as int * self.direction@.2, 1_000_000, 9_000_000_000_000_000);
        }
        Vec3 {
            x: self.origin.x + floor_div(t as i128 * self.direction.x as i128, ONE as i128) as i64,
            y: self.origin.y + floor_div(t as i128 * self.direction.y as i128, ONE as i128) as i64,
            z: self.origin.z + floor_div(t as i128 * self.direction.z as i128, ONE as i128) as i64,
        }
    }
}

} // verus!
