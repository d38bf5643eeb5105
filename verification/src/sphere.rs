//! Spheres and the analytic ray-sphere intersection.
//!
//! The hit test solves the quadratic `|P(t) - C|^2 = radius^2` in the ray
//! parameter through the reduced discriminant, takes the nearer admissible
//! root, and reports the hit point and the against-ray unit normal. Every
//! arithmetic step is mirrored by a spec function, so the contract pins
//! the returned record exactly.

use crate::fixed::floor_div;
use crate::fixed::isqrt;
use crate::fixed::lemma_abs_mul;
use crate::fixed::lemma_div_bounds;
use crate::fixed::lemma_floor_div_range;
use crate::fixed::lemma_sqrt_lt;
use crate::fixed::sqrti;
use crate::hittable::spec_face_normal;
use crate::hittable::spec_front_face;
use crate::hittable::HitRecord;
use crate::interval::Interval;
use crate::material::mat_wf;
use crate::material::Material;
use crate::ray::ray_at;
use crate::ray::wf_ray;
use crate::ray::Ray;
use crate::vec3::dot;
use crate::vec3::in_range;
use crate::vec3::lemma_vdot_neg;
use crate::vec3::vdivs;
use crate::vec3::vdot;
use crate::vec3::vlen2;
use crate::vec3::vsub;
use crate::vec3::Point3;
use crate::vec3::Vec3;
use crate::CEN_MAX;
use crate::ONE;
use crate::POS_MAX;
use vstd::prelude::*;

verus! {

/// A sphere: centre, positive radius, and an optional material.
#[derive(Clone, Copy, Debug)]
pub struct Sphere {
    pub center: Point3,
    pub radius: i64,
    pub mat: Option<Material>,
}

/// A sphere the pipeline accepts: centre and radius within the scene
/// bound, radius at least one fixed-point unit, material well formed.
pub open spec fn wf_sphere(s: Sphere) -> bool {
    &&& in_range(s.center@, CEN_MAX as int)
    &&& 1 <= s.radius <= CEN_MAX
    &&& (s.mat matches Some(m) ==> mat_wf(m))
}

/// The quadratic's leading coefficient: the squared length of the ray
/// direction.
pub open spec fn hit_a(r: Ray) -> int {
    vlen2(r.direction@)
}

/// The vector from the sphere's centre to the ray's origin.
pub open spec fn hit_oc(s: Sphere, r: Ray) -> (int, int, int) {
    vsub(r.origin@, s.center@)
}

/// Half the quadratic's linear coefficient.
pub open spec fn hit_half_b(s: Sphere, r: Ray) -> int {
    vdot(hit_oc(s, r), r.direction@)
}

/// The quadratic's constant coefficient.
pub open spec fn hit_c(s: Sphere, r: Ray) -> int {
    vlen2(hit_oc(s, r)) - s.radius * s.radius
}

/// The reduced discriminant `half_b^2 - a c`; the ray meets the sphere
/// exactly when it is nonnegative.
pub open spec fn hit_disc(s: Sphere, r: Ray) -> int {
    hit_half_b(s, r) * hit_half_b(s, r) - hit_a(r) * hit_c(s, r)
}

/// The floored square root of the discriminant.
pub open spec fn hit_sqrtd(s: Sphere, r: Ray) -> int {
    sqrti(hit_disc(s, r))
}

/// The nearer root of the quadratic, at fixed-point scale.
pub open spec fn hit_root1(s: Sphere, r: Ray) -> int {
    (-hit_half_b(s, r) - hit_sqrtd(s, r)) * ONE as int / hit_a(r)
}

/// The farther root of the quadratic, at fixed-point scale.
pub open spec fn hit_root2(s: Sphere, r: Ray) -> int {
    (-hit_half_b(s, r) + hit_sqrtd(s, r)) * ONE as int / hit_a(r)
}

/// The point the ray reaches at parameter `t`.
pub open spec fn hit_point(s: Sphere, r: Ray, t: int) -> (int, int, int) {
    ray_at(r, t)
}

/// The outward unit normal at the hit point: the radius vector divided by
/// the radius.
pub open spec fn hit_outward(s: Sphere, r: Ray, t: int) -> (int, int, int) {
    vdivs(vsub(hit_point(s, r, t), s.center@), s.radius as int)
}

/// A root is reported only when the derived point and normal are sound:
/// the point within the positional bound, the normal bounded and nonzero.
/// Real hits inside the scene bound always satisfy this; it makes the
/// handling of degenerate rounding explicit instead of silent.
pub open spec fn hit_guard_ok(s: Sphere, r: Ray, t: int) -> bool {
    &&& in_range(hit_point(s, r, t), POS_MAX as int)
    &&& in_range(hit_outward(s, r, t), 2 * ONE as int)
    &&& vlen2(hit_outward(s, r, t)) >= 1
}

/// The parameter at which the ray first hits the sphere strictly between
/// `lo` and `hi`: the nearer root when it lies strictly inside, else the
/// farther root when it does, else nothing; a root whose derived point or
/// normal is degenerate is rejected.
pub open spec fn sphere_hit_t(s: Sphere, r: Ray, lo: int, hi: int) -> Option<int> {
    if hit_a(r) <= 0 {
        None
    } else if hit_disc(s, r) < 0 {
        None
    } else if lo < hit_root1(s, r) < hi {
        if hit_guard_ok(s, r, hit_root1(s, r)) {
            Some(hit_root1(s, r))
        } else {
            None
        }
    } else if lo < hit_root2(s, r) < hi {
        if hit_guard_ok(s, r, hit_root2(s, r)) {
            Some(hit_root2(s, r))
        } else {
            None
        }
    } else {
        None
    }
}

/// The nearer root never exceeds the farther one, and the root of the
/// discriminant is nonnegative.
pub proof fn lemma_roots_ordered(s: Sphere, r: Ray)
    requires
        hit_a(r) >= 1,
    ensures
        hit_sqrtd(s, r) >= 0,
        hit_root1(s, r) <= hit_root2(s, r),
{
    let hb = hit_half_b(s, r);
    let sq = hit_sqrtd(s, r);
    vstd::arithmetic::mul::lemma_mul_inequality(-hb - sq, -hb + sq, ONE as int);
    vstd::arithmetic::div_mod::lemma_div_is_ordered(
        (-hb - sq) * ONE as int,
        (-hb + sq) * ONE as int,
        hit_a(r),
    );
}

/// A reported hit parameter lies strictly between the bounds it was
/// searched in.
pub proof fn lemma_sphere_hit_in_bounds(s: Sphere, r: Ray, lo: int, hi: int)
    ensures
        sphere_hit_t(s, r, lo, hi) matches Some(t) ==> lo < t < hi,
{
}

/// Narrowing the upper bound from `hi` to `m` only discards hits at `m`
/// or beyond: a hit found under the narrow bound is the hit under the
/// wide one; a wide hit below `m` is also found under the narrow bound;
/// and where the wide search finds nothing, neither does the narrow one.
pub proof fn lemma_sphere_hit_narrow(s: Sphere, r: Ray, lo: int, m: int, hi: int)
    requires
        m <= hi,
    ensures
        sphere_hit_t(s, r, lo, m) matches Some(t) ==> sphere_hit_t(s, r, lo, hi) == Some(t),
        sphere_hit_t(s, r, lo, hi) matches Some(t) ==> (t < m ==> sphere_hit_t(s, r, lo, m)
            == Some(t)),
        sphere_hit_t(s, r, lo, hi) is None ==> sphere_hit_t(s, r, lo, m) is None,
{
    if hit_a(r) <= 0 || hit_disc(s, r) < 0 {
    } else {
        lemma_roots_ordered(s, r);
    }
}

/// A ray fired from the origin straight down the axis at a sphere centred
/// `d` units ahead hits it at exactly the distance to the centre minus the
/// radius, from outside, with the outward normal running straight back
/// against the ray.
pub proof fn lemma_axial_hit(s: Sphere, r: Ray, d: int)
    requires
        wf_sphere(s),
        r.origin@ == (0int, 0int, 0int),
        r.direction@ == (0int, 0int, -(ONE as int)),
        s.center@ == (0int, 0int, -d),
        s.radius < d,
    ensures
        sphere_hit_t(s, r, 0, i64::MAX as int) == Some(d - s.radius),
        hit_outward(s, r, d - s.radius) == (0int, 0int, ONE as int),
        spec_front_face(r.direction@, hit_outward(s, r, d - s.radius)) == true,
{
    let rad = s.radius as int;
    let se = ONE as int;
    let t = d - rad;
    assert(hit_oc(s, r) == (0int, 0int, d));
    assert(hit_a(r) == se * se && hit_a(r) == 1_000_000_000_000) by (nonlinear_arith)
        requires
            hit_a(r) == 0 * 0 + 0 * 0 + (-se) * (-se),
            se == 1_000_000,
    {
    }
    assert(hit_half_b(s, r) == -(se * d)) by (nonlinear_arith)
        requires
            hit_half_b(s, r) == 0 * 0 + 0 * 0 + d * (-se),
    {
    }
    assert(hit_c(s, r) == d * d - rad * rad) by (nonlinear_arith)
        requires
            hit_c(s, r) == 0 * 0 + 0 * 0 + d * d - rad * rad,
    {
    }
    let n = hit_disc(s, r);
    assert(n == (se * rad) * (se * rad)) by (nonlinear_arith)
        requires
            n == (-(se * d)) * (-(se * d)) - (se * se) * (d * d - rad * rad),
    {
    }
    assert(n >= 1 && 0 <= se * rad) by (nonlinear_arith)
        requires
            n == (se * rad) * (se * rad),
            se >= 1,
            rad >= 1,
    {
    }
    assert((se * rad) * (se * rad) <= n < (se * rad + 1) * (se * rad + 1)) by (nonlinear_arith)
        requires
            n == (se * rad) * (se * rad),
            se * rad >= 0,
    {
    }
    crate::fixed::lemma_sqrt_floor_unique(n as nat, (se * rad) as nat);
    assert(hit_sqrtd(s, r) == se * rad);
    assert((-hit_half_b(s, r) - hit_sqrtd(s, r)) * se == 1_000_000_000_000 * t)
        by (nonlinear_arith)
        requires
            hit_half_b(s, r) == -(se * d),
            hit_sqrtd(s, r) == se * rad,
            se == 1_000_000,
            t == d - rad,
    {
    }
    vstd::arithmetic::div_mod::lemma_div_multiples_vanish(t, 1_000_000_000_000);
    assert(hit_root1(s, r) == t);
    assert(0 < t < i64::MAX as int);
    // The hit point and outward normal at the accepted root.
    vstd::arithmetic::div_mod::lemma_div_of0(se);
    assert(t * 0 == 0 && t * (-se) == se * (-t)) by (nonlinear_arith);
    vstd::arithmetic::div_mod::lemma_div_multiples_vanish(-t, se);
    assert(hit_point(s, r, t) == (0int, 0int, -t));
    assert(vsub(hit_point(s, r, t), s.center@) == (0int, 0int, rad));
    vstd::arithmetic::div_mod::lemma_div_of0(rad);
    assert(0 * se == 0 && rad * se == rad * se) by (nonlinear_arith);
    vstd::arithmetic::div_mod::lemma_div_multiples_vanish(se, rad);
    assert(hit_outward(s, r, t) == (0int, 0int, se));
    assert(vlen2((0int, 0int, se)) >= 1 && in_range((0int, 0int, se), 2 * se)
        && vdot(r.direction@, (0int, 0int, se)) < 0) by (nonlinear_arith)
        requires
            se == 1_000_000,
            r.direction@ == (0int, 0int, -se),
    {
    }
    assert(in_range(hit_point(s, r, t), POS_MAX as int));
    assert(hit_guard_ok(s, r, t));
    assert(sphere_hit_t(s, r, 0, i64::MAX as int) == Some(t));
}

/// A ray fired from a sphere's centre down the axis hits it from inside,
/// at exactly the radius: the front face flag is off and the stored
/// normal is flipped to run against the ray.
pub proof fn lemma_hit_from_center(s: Sphere, r: Ray)
    requires
        wf_sphere(s),
        in_range(r.origin@, POS_MAX as int),
        r.origin@ == s.center@,
        r.direction@ == (0int, 0int, -(ONE as int)),
    ensures
        sphere_hit_t(s, r, 0, i64::MAX as int) == Some(s.radius as int),
        hit_outward(s, r, s.radius as int) == (0int, 0int, -(ONE as int)),
        spec_front_face(r.direction@, hit_outward(s, r, s.radius as int)) == false,
        spec_face_normal(r.direction@, hit_outward(s, r, s.radius as int)) == (
            0int,
            0int,
            ONE as int,
        ),
{
    let rad = s.radius as int;
    let se = ONE as int;
    assert(hit_oc(s, r) == (0int, 0int, 0int));
    assert(hit_a(r) == se * se && hit_a(r) == 1_000_000_000_000) by (nonlinear_arith)
        requires
            hit_a(r) == 0 * 0 + 0 * 0 + (-se) * (-se),
            se == 1_000_000,
    {
    }
    assert(hit_half_b(s, r) == 0 && hit_c(s, r) == -(rad * rad)) by (nonlinear_arith)
        requires
            hit_half_b(s, r) == 0 * 0 + 0 * 0 + 0 * (-se),
            hit_c(s, r) == 0 * 0 + 0 * 0 + 0 * 0 - rad * rad,
    {
    }
    let n = hit_disc(s, r);
    assert(n == (se * rad) * (se * rad)) by (nonlinear_arith)
        requires
            n == 0 * 0 - (se * se) * (-(rad * rad)),
    {
    }
    assert(n >= 1 && 0 <= se * rad) by (nonlinear_arith)
        requires
            n == (se * rad) * (se * rad),
            se >= 1,
            rad >= 1,
    {
    }
    assert((se * rad) * (se * rad) <= n < (se * rad + 1) * (se * rad + 1)) by (nonlinear_arith)
        requires
            n == (se * rad) * (se * rad),
            se * rad >= 0,
    {
    }
    crate::fixed::lemma_sqrt_floor_unique(n as nat, (se * rad) as nat);
    assert(hit_sqrtd(s, r) == se * rad);
    assert((0 - hit_sqrtd(s, r)) * se == 1_000_000_000_000 * (-rad) && (0 + hit_sqrtd(s, r)) * se
        == 1_000_000_000_000 * rad) by (nonlinear_arith)
        requires
            hit_sqrtd(s, r) == se * rad,
            se == 1_000_000,
    {
    }
    vstd::arithmetic::div_mod::lemma_div_multiples_vanish(-rad, 1_000_000_000_000);
    vstd::arithmetic::div_mod::lemma_div_multiples_vanish(rad, 1_000_000_000_000);
    assert(hit_root1(s, r) == -rad && hit_root2(s, r) == rad);
    // The nearer root lies behind the origin, so the farther one is taken.
    vstd::arithmetic::div_mod::lemma_div_of0(se);
    assert(rad * 0 == 0 && rad * (-se) == se * (-rad)) by (nonlinear_arith);
    vstd::arithmetic::div_mod::lemma_div_multiples_vanish(-rad, se);
    assert(hit_point(s, r, rad) == (r.origin@.0, r.origin@.1, r.origin@.2 - rad));
    assert(vsub(hit_point(s, r, rad), s.center@) == (0int, 0int, -rad));
    vstd::arithmetic::div_mod::lemma_div_of0(rad);
    assert(0 * se == 0 && (-rad) * se == rad * (-se)) by (nonlinear_arith);
    vstd::arithmetic::div_mod::lemma_div_multiples_vanish(-se, rad);
    assert(hit_outward(s, r, rad) == (0int, 0int, -se));
    assert(vlen2((0int, 0int, -se)) >= 1 && in_range((0int, 0int, -se), 2 * se) && vdot(
        r.direction@,
        (0int, 0int, -se),
    ) > 0) by (nonlinear_arith)
        requires
            se == 1_000_000,
            r.direction@ == (0int, 0int, -se),
    {
    }
    assert(in_range(hit_point(s, r, rad), POS_MAX as int));
    assert(hit_guard_ok(s, r, rad));
    assert(sphere_hit_t(s, r, 0, i64::MAX as int) == Some(rad));
}

/// All the fields a returned record must carry for the hit at `t`.
pub open spec fn hit_record_matches(s: Sphere, r: Ray, t: int, rec: HitRecord) -> bool {
    &&& rec.t as int == t
    &&& rec.p@ == hit_point(s, r, t)
    &&& rec.front_face == spec_front_face(r.direction@, hit_outward(s, r, t))
    &&& rec.normal@ == spec_face_normal(r.direction@, hit_outward(s, r, t))
    &&& rec.mat == s.mat
    &&& in_range(rec.p@, POS_MAX as int)
    &&& in_range(rec.normal@, 2 * ONE as int)
    &&& vlen2(rec.normal@) >= 1
}

impl Sphere {
    pub fn new(center: Point3, radius: i64, mat: Option<Material>) -> (r: Sphere)
        ensures
            r.center == center,
            r.radius == radius,
            r.mat == mat,
    {
        Sphere { center, radius, mat }
    }

    /// The analytic hit test: the record of the nearest intersection with
    /// parameter strictly inside `ray_t`, or nothing.
    pub fn hit(&self, r: &Ray, ray_t: Interval) -> (res: Option<HitRecord>)
        requires
            wf_sphere(*self),
            wf_ray(*r),
        ensures
            res is Some <==> sphere_hit_t(*self, *r, ray_t.min as int, ray_t.max as int) is Some,
            res matches Some(rec) ==> {
                &&& sphere_hit_t(*self, *r, ray_t.min as int, ray_t.max as int) == Some(
                    rec.t as int,
                )
                &&& hit_record_matches(*self, *r, rec.t as int, rec)
                &&& ray_t.min < rec.t < ray_t.max
            },
    {
        let a128: i128 = dot(r.direction, r.direction);
        if a128 <= 0 {
            return None;
        }
        let oc = r.origin.sub(self.center);
        proof {
            lemma_abs_mul(hit_oc(*self, *r).0, r.direction@.0, 2_100_000_000, 1_000_000_000);
            lemma_abs_mul(hit_oc(*self, *r).1, r.direction@.1, 2_100_000_000, 1_000_000_000);
            lemma_abs_mul(hit_oc(*self, *r).2, r.direction@.2, 2_100_000_000, 1_000_000_000);
            lemma_abs_mul(r.direction@.0, r.direction@.0, 1_000_000_000, 1_000_000_000);
            lemma_abs_mul(r.direction@.1, r.direction@.1, 1_000_000_000, 1_000_000_000);
            lemma_abs_mul(r.direction@.2, r.direction@.2, 1_000_000_000, 1_000_000_000);
            lemma_abs_mul(hit_oc(*self, *r).0, hit_oc(*self, *r).0, 2_100_000_000, 2_100_000_000);
            lemma_abs_mul(hit_oc(*self, *r).1, hit_oc(*self, *r).1, 2_100_000_000, 2_100_000_000);
            lemma_abs_mul(hit_oc(*self, *r).2, hit_oc(*self, *r).2, 2_100_000_000, 2_100_000_000);
            lemma_abs_mul(self.radius as int, self.radius as int, 600_000_000, 600_000_000);
            lemma_abs_mul(
                hit_half_b(*self, *r),
                hit_half_b(*self, *r),
                6_300_000_000_000_000_000,
                6_300_000_000_000_000_000,
            );
            lemma_abs_mul(
                hit_a(*r),
                hit_c(*self, *r),
                3_000_000_000_000_000_000,
                13_590_000_000_000_000_000,
            );
        }
        let half_b: i128 = dot(oc, r.direction);
        let c128: i128 = dot(oc, oc) - self.radius as i128 * self.radius as i128;
        let disc: i128 = half_b * half_b - a128 * c128;
        if disc < 0 {
            return None;
        }
        let sq128 = isqrt(disc as u128);
        proof {
            lemma_sqrt_lt(disc as int, sq128 as int, 9_100_000_000_000_000_000);
            assert(sq128 as int == hit_sqrtd(*self, *r));
        }
        let sq = sq128 as i128;
        proof {
            lemma_abs_mul(
                -hit_half_b(*self, *r) - hit_sqrtd(*self, *r),
                ONE as int,
                15_400_000_000_000_000_000,
                1_000_000,
            );
            lemma_abs_mul(
                -hit_half_b(*self, *r) + hit_sqrtd(*self, *r),
                ONE as int,
                15_400_000_000_000_000_000,
                1_000_000,
            );
        }
        let root1 = floor_div((-half_b - sq) * ONE as i128, a128);
        let root2 = floor_div((-half_b + sq) * ONE as i128, a128);
        let root: i128 = if (ray_t.min as i128) < root1 && root1 < (ray_t.max as i128) {
            root1
        } else if (ray_t.min as i128) < root2 && root2 < (ray_t.max as i128) {
            root2
        } else {
            return None;
        };
        self.finish_hit(r, ray_t, root)
    }

    /// Derive point, normal and orientation for an admissible root, or
    /// reject a degenerate one.
    fn finish_hit(&self, r: &Ray, ray_t: Interval, root: i128) -> (res: Option<HitRecord>)
        requires
            wf_sphere(*self),
            wf_ray(*r),
            hit_a(*r) >= 1,
            ray_t.min < root < ray_t.max,
            sphere_hit_t(*self, *r, ray_t.min as int, ray_t.max as int) == (if hit_guard_ok(
                *self,
                *r,
                root as int,
            ) {
                Some(root as int)
            } else {
                None::<int>
            }),
        ensures
            res is Some <==> sphere_hit_t(*self, *r, ray_t.min as int, ray_t.max as int) is Some,
            res matches Some(rec) ==> {
                &&& sphere_hit_t(*self, *r, ray_t.min as int, ray_t.max as int) == Some(
                    rec.t as int,
                )
                &&& hit_record_matches(*self, *r, rec.t as int, rec)
                &&& ray_t.min < rec.t < ray_t.max
            },
    {
        let ghost ti = root as int;
        proof {
            lemma_abs_mul(root as int, r.direction@.0, 9_223_372_036_854_775_807, 1_000_000_000);
            lemma_abs_mul(root as int, r.direction@.1, 9_223_372_036_854_775_807, 1_000_000_000);
            lemma_abs_mul(root as int, r.direction@.2, 9_223_372_036_854_775_807, 1_000_000_000);
            lemma_div_bounds(
                root as int * r.direction@.0,
                1_000_000,
                9_223_372_036_854_775_807_000,
            );
            lemma_div_bounds(
                root as int * r.direction@.1,
                1_000_000,
                9_223_372_036_854_775_807_000,
            );
            lemma_div_bounds(
                root as int * r.direction@.2,
                1_000_000,
                9_223_372_036_854_775_807_000,
            );
        }
        let px = r.origin.x as i128 + floor_div(root * r.direction.x as i128, ONE as i128);
        let py = r.origin.y as i128 + floor_div(root * r.direction.y as i128, ONE as i128);
        let pz = r.origin.z as i128 + floor_div(root * r.direction.z as i128, ONE as i128);
        proof {
            assert((px as int, py as int, pz as int) == hit_point(*self, *r, ti));
        }
        if px < -(POS_MAX as i128) || px > POS_MAX as i128 || py < -(POS_MAX as i128) || py
            > POS_MAX as i128 || pz < -(POS_MAX as i128) || pz > POS_MAX as i128 {
            return None;
        }
        let p = Vec3::new(px as i64, py as i64, pz as i64);
        proof {
            lemma_abs_mul((px as int) - self.center@.0, ONE as int, 2_100_000_000, 1_000_000);
            lemma_abs_mul((py as int) - self.center@.1, ONE as int, 2_100_000_000, 1_000_000);
            lemma_abs_mul((pz as int) - self.center@.2, ONE as int, 2_100_000_000, 1_000_000);
            lemma_floor_div_range(((px as int) - self.center@.0) * ONE as int, self.radius as int);
            lemma_floor_div_range(((py as int) - self.center@.1) * ONE as int, self.radius as int);
            lemma_floor_div_range(((pz as int) - self.center@.2) * ONE as int, self.radius as int);
        }
        let nx = floor_div((px - self.center.x as i128) * ONE as i128, self.radius as i128);
        let ny = floor_div((py - self.center.y as i128) * ONE as i128, self.radius as i128);
        let nz = floor_div((pz - self.center.z as i128) * ONE as i128, self.radius as i128);
        proof {
            assert((nx as int, ny as int, nz as int) == hit_outward(*self, *r, ti));
        }
        let two_one = 2 * ONE as i128;
        if nx < -two_one || nx > two_one || ny < -two_one || ny > two_one || nz < -two_one || nz
            > two_one {
            return None;
        }
        let outward = Vec3::new(nx as i64, ny as i64, nz as i64);
        let nlen2 = outward.length_squared();
        if nlen2 < 1 {
            return None;
        }
        let mut rec = HitRecord::new(p, outward, root as i64, false);
        rec.mat = self.mat;
        rec.set_face_normal(r, outward);
        proof {
            lemma_vdot_neg(outward@, outward@);
        }
        Some(rec)
    }
}

} // verus!
