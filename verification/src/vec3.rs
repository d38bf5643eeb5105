//! Three-component vectors over fixed-point coordinates.
//!
//! A component counts millionths of a world unit (`ONE` per unit), so a
//! vector is modelled by the integer triple of its components. Sums and
//! differences are exact; products and quotients floor at the fixed-point
//! resolution, and every executable operation states the exact integer it
//! returns.

use crate::fixed::floor_div;
use crate::fixed::isqrt;
use crate::fixed::lemma_abs_mul;
use crate::fixed::lemma_div_bounds;
use crate::fixed::lemma_floor_div_range;
use crate::fixed::lemma_scaled_div_bounds;
use crate::fixed::lemma_sqrt_floor_bounds;
use crate::fixed::lemma_sqrt_floor_pos;
use crate::fixed::lemma_sqrt_lt;
use crate::fixed::sqrti;
use crate::rng::random_in_range;
use crate::MUL_MAX;
use crate::ONE;
use crate::VEC_MAX;
use vstd::prelude::*;

verus! {

/// A point, direction or colour; `Color` and `Point3` are aliases for it.
#[derive(Clone, Copy, Debug, PartialEq, Eq, Structural)]
pub struct Vec3 {
    pub x: i64,
    pub y: i64,
    pub z: i64,
}

pub type Color = Vec3;

pub type Point3 = Vec3;

impl View for Vec3 {
    type V = (int, int, int);

    open spec fn view(&self) -> (int, int, int) {
        (self.x as int, self.y as int, self.z as int)
    }
}

/// Every component lies in `[-b, b]`.
pub open spec fn in_range(v: (int, int, int), b: int) -> bool {
    &&& -b <= v.0 <= b
    &&& -b <= v.1 <= b
    &&& -b <= v.2 <= b
}

/// Componentwise sum.
pub open spec fn vadd(a: (int, int, int), b: (int, int, int)) -> (int, int, int) {
    (a.0 + b.0, a.1 + b.1, a.2 + b.2)
}

/// Componentwise difference.
pub open spec fn vsub(a: (int, int, int), b: (int, int, int)) -> (int, int, int) {
    (a.0 - b.0, a.1 - b.1, a.2 - b.2)
}

/// Componentwise negation.
pub open spec fn vneg(a: (int, int, int)) -> (int, int, int) {
    (-a.0, -a.1, -a.2)
}

/// The raw dot product of the component triples; it carries the square of
/// the fixed-point scale.
pub open spec fn vdot(a: (int, int, int), b: (int, int, int)) -> int {
    a.0 * b.0 + a.1 * b.1 + a.2 * b.2
}

/// The squared length at raw scale: the dot product of a triple with
/// itself.
pub open spec fn vlen2(a: (int, int, int)) -> int {
    vdot(a, a)
}

/// The cross product of the component triples before rescaling.
pub open spec fn vcross_raw(a: (int, int, int), b: (int, int, int)) -> (int, int, int) {
    (a.1 * b.2 - a.2 * b.1, a.2 * b.0 - a.0 * b.2, a.0 * b.1 - a.1 * b.0)
}

/// The fixed-point cross product: the raw one scaled back down.
pub open spec fn vcross(a: (int, int, int), b: (int, int, int)) -> (int, int, int) {
    (
        vcross_raw(a, b).0 / ONE as int,
        vcross_raw(a, b).1 / ONE as int,
        vcross_raw(a, b).2 / ONE as int,
    )
}

/// Multiplication by a fixed-point scalar.
pub open spec fn vscale(a: (int, int, int), s: int) -> (int, int, int) {
    (a.0 * s / ONE as int, a.1 * s / ONE as int, a.2 * s / ONE as int)
}

/// Componentwise fixed-point product, as colours attenuate.
pub open spec fn vmul(a: (int, int, int), b: (int, int, int)) -> (int, int, int) {
    (a.0 * b.0 / ONE as int, a.1 * b.1 / ONE as int, a.2 * b.2 / ONE as int)
}

/// Division by a positive fixed-point scalar.
pub open spec fn vdivs(a: (int, int, int), s: int) -> (int, int, int) {
    (a.0 * ONE as int / s, a.1 * ONE as int / s, a.2 * ONE as int / s)
}

/// The unit vector of `a`: `a` divided by its length.
pub open spec fn vunit(a: (int, int, int)) -> (int, int, int) {
    vdivs(a, sqrti(vlen2(a)))
}

/// Reflection of `v` about the normal `n`: `v - 2 (v . n) n`.
pub open spec fn vreflect(v: (int, int, int), n: (int, int, int)) -> (int, int, int) {
    let d = vdot(v, n) / ONE as int;
    (
        v.0 - 2 * d * n.0 / ONE as int,
        v.1 - 2 * d * n.1 / ONE as int,
        v.2 - 2 * d * n.2 / ONE as int,
    )
}

/// A squared length is never negative, and no square exceeds the sum.
pub proof fn lemma_vlen2_nonneg(a: (int, int, int))
    ensures
        vlen2(a) >= 0,
        a.0 * a.0 <= vlen2(a),
        a.1 * a.1 <= vlen2(a),
        a.2 * a.2 <= vlen2(a),
{
    assert(a.0 * a.0 >= 0 && a.1 * a.1 >= 0 && a.2 * a.2 >= 0) by (nonlinear_arith);
}

/// A nonzero triple has squared length at least one.
pub proof fn lemma_vlen2_pos(a: (int, int, int))
    requires
        a != (0int, 0int, 0int),
    ensures
        vlen2(a) >= 1,
{
    lemma_vlen2_nonneg(a);
    assert(a.0 != 0 ==> a.0 * a.0 >= 1) by (nonlinear_arith);
    assert(a.1 != 0 ==> a.1 * a.1 >= 1) by (nonlinear_arith);
    assert(a.2 != 0 ==> a.2 * a.2 >= 1) by (nonlinear_arith);
}

/// A triple with positive squared length is not the zero triple.
pub proof fn lemma_nonzero_of_vlen2(a: (int, int, int))
    requires
        vlen2(a) >= 1,
    ensures
        a != (0int, 0int, 0int),
{
    if a == (0int, 0int, 0int) {
        assert(a.0 * a.0 == 0 && a.1 * a.1 == 0 && a.2 * a.2 == 0) by (nonlinear_arith)
            requires
                a.0 == 0 && a.1 == 0 && a.2 == 0,
        {
        }
    }
}

/// Each component is bounded by the square root of the squared length.
pub proof fn lemma_components_le_sqrt(a: (int, int, int))
    ensures
        in_range(a, sqrti(vlen2(a))),
{
    lemma_vlen2_nonneg(a);
    let q = vlen2(a);
    if q == 0 {
        assert(a.0 * a.0 == 0 ==> a.0 == 0) by (nonlinear_arith);
        assert(a.1 * a.1 == 0 ==> a.1 == 0) by (nonlinear_arith);
        assert(a.2 * a.2 == 0 ==> a.2 == 0) by (nonlinear_arith);
    } else {
        let l = sqrti(q);
        lemma_sqrt_floor_bounds(q as nat);
        assert(q < (l + 1) * (l + 1));
        assert(a.0 * a.0 < (l + 1) * (l + 1) ==> -l <= a.0 <= l) by (nonlinear_arith)
            requires
                l >= 0,
        {
        }
        assert(a.1 * a.1 < (l + 1) * (l + 1) ==> -l <= a.1 <= l) by (nonlinear_arith)
            requires
                l >= 0,
        {
        }
        assert(a.2 * a.2 < (l + 1) * (l + 1) ==> -l <= a.2 <= l) by (nonlinear_arith)
            requires
                l >= 0,
        {
        }
    }
}

/// Negating one side negates a dot product, and keeps a squared length.
pub proof fn lemma_vdot_neg(a: (int, int, int), b: (int, int, int))
    ensures
        vdot(vneg(a), b) == -vdot(a, b),
        vlen2(vneg(a)) == vlen2(a),
{
    assert((-a.0) * b.0 == -(a.0 * b.0)) by (nonlinear_arith);
    assert((-a.1) * b.1 == -(a.1 * b.1)) by (nonlinear_arith);
    assert((-a.2) * b.2 == -(a.2 * b.2)) by (nonlinear_arith);
    assert((-a.0) * (-a.0) == a.0 * a.0) by (nonlinear_arith);
    assert((-a.1) * (-a.1) == a.1 * a.1) by (nonlinear_arith);
    assert((-a.2) * (-a.2) == a.2 * a.2) by (nonlinear_arith);
}

/// A vector dotted with itself is its squared length.
pub proof fn lemma_dot_self_is_length_squared(a: (int, int, int))
    ensures
        vdot(a, a) == vlen2(a),
{
}

/// The raw cross product is orthogonal to both of its factors.
pub proof fn lemma_cross_orthogonal(a: (int, int, int), b: (int, int, int))
    ensures
        vdot(vcross_raw(a, b), a) == 0,
        vdot(vcross_raw(a, b), b) == 0,
{
    assert((a.1 * b.2 - a.2 * b.1) * a.0 + (a.2 * b.0 - a.0 * b.2) * a.1 + (a.0 * b.1 - a.1 * b.0)
        * a.2 == 0) by (nonlinear_arith);
    assert((a.1 * b.2 - a.2 * b.1) * b.0 + (a.2 * b.0 - a.0 * b.2) * b.1 + (a.0 * b.1 - a.1 * b.0)
        * b.2 == 0) by (nonlinear_arith);
}

/// Vector addition is commutative and associative, with the zero triple
/// as identity and negation as inverse.
pub proof fn lemma_vadd_laws(a: (int, int, int), b: (int, int, int), c: (int, int, int))
    ensures
        vadd(a, b) == vadd(b, a),
        vadd(vadd(a, b), c) == vadd(a, vadd(b, c)),
        vadd(a, (0int, 0int, 0int)) == a,
        vadd(a, vneg(a)) == (0int, 0int, 0int),
{
}

/// Unrounded scalar multiplication distributes over vector addition and
/// over scalar addition, and composes multiplicatively.
pub proof fn lemma_scalar_mul_laws(a: (int, int, int), b: (int, int, int), s: int, t: int)
    ensures
        (s * vadd(a, b).0, s * vadd(a, b).1, s * vadd(a, b).2) == vadd(
            (s * a.0, s * a.1, s * a.2),
            (s * b.0, s * b.1, s * b.2),
        ),
        ((s + t) * a.0, (s + t) * a.1, (s + t) * a.2) == vadd(
            (s * a.0, s * a.1, s * a.2),
            (t * a.0, t * a.1, t * a.2),
        ),
        (s * (t * a.0), s * (t * a.1), s * (t * a.2)) == ((s * t) * a.0, (s * t) * a.1, (s * t)
            * a.2),
        (1 * a.0, 1 * a.1, 1 * a.2) == a,
{
    assert(s * (a.0 + b.0) == s * a.0 + s * b.0 && s * (a.1 + b.1) == s * a.1 + s * b.1 && s * (
    a.2 + b.2) == s * a.2 + s * b.2) by (nonlinear_arith);
    assert((s + t) * a.0 == s * a.0 + t * a.0 && (s + t) * a.1 == s * a.1 + t * a.1 && (s + t)
        * a.2 == s * a.2 + t * a.2) by (nonlinear_arith);
    assert(s * (t * a.0) == (s * t) * a.0 && s * (t * a.1) == (s * t) * a.1 && s * (t * a.2) == (s
        * t) * a.2) by (nonlinear_arith);
    assert(1 * a.0 == a.0 && 1 * a.1 == a.1 && 1 * a.2 == a.2) by (nonlinear_arith);
}

/// Normalization gives a vector of unit length within the fixed-point
/// resolution: the squared length of `vunit(v)` misses one by at most a
/// few millionths, provided `v` itself is at least one unit long for the
/// upper bound.
pub proof fn lemma_unit_vector_length(v: (int, int, int))
    requires
        in_range(v, VEC_MAX as int),
        vlen2(v) >= 1,
    ensures
        vlen2(vunit(v)) >= 999_993_999_997,
        vlen2(v) >= 250_000_000_000 ==> vlen2(vunit(v)) <= 1_000_010_000_000,
{
    let q = vlen2(v);
    let l = sqrti(q);
    lemma_sqrt_floor_bounds(q as nat);
    lemma_sqrt_floor_pos(q as nat);
    lemma_components_le_sqrt(v);
    let s = ONE as int;
    let u = vunit(v);
    let r0 = v.0 * s % l;
    let r1 = v.1 * s % l;
    let r2 = v.2 * s % l;
    vstd::arithmetic::div_mod::lemma_fundamental_div_mod(v.0 * s, l);
    vstd::arithmetic::div_mod::lemma_fundamental_div_mod(v.1 * s, l);
    vstd::arithmetic::div_mod::lemma_fundamental_div_mod(v.2 * s, l);
    vstd::arithmetic::div_mod::lemma_mod_division_less_than_divisor(v.0 * s, l);
    vstd::arithmetic::div_mod::lemma_mod_division_less_than_divisor(v.1 * s, l);
    vstd::arithmetic::div_mod::lemma_mod_division_less_than_divisor(v.2 * s, l);
    lemma_scaled_div_bounds(v.0, l, s);
    lemma_scaled_div_bounds(v.1, l, s);
    lemma_scaled_div_bounds(v.2, l, s);
    // Square the three division identities and add them up.
    assert(v.0 * s * (v.0 * s) == l * l * (u.0 * u.0) + 2 * l * (u.0 * r0) + r0 * r0)
        by (nonlinear_arith)
        requires
            v.0 * s == l * u.0 + r0,
    {
    }
    assert(v.1 * s * (v.1 * s) == l * l * (u.1 * u.1) + 2 * l * (u.1 * r1) + r1 * r1)
        by (nonlinear_arith)
        requires
            v.1 * s == l * u.1 + r1,
    {
    }
    assert(v.2 * s * (v.2 * s) == l * l * (u.2 * u.2) + 2 * l * (u.2 * r2) + r2 * r2)
        by (nonlinear_arith)
        requires
            v.2 * s == l * u.2 + r2,
    {
    }
    assert(s * s * q == s * s * (v.0 * v.0) + s * s * (v.1 * v.1) + s * s * (v.2 * v.2))
        by (nonlinear_arith)
        requires
            q == v.0 * v.0 + v.1 * v.1 + v.2 * v.2,
    {
    }
    assert(v.0 * s * (v.0 * s) == s * s * (v.0 * v.0)) by (nonlinear_arith);
    assert(v.1 * s * (v.1 * s) == s * s * (v.1 * v.1)) by (nonlinear_arith);
    assert(v.2 * s * (v.2 * s) == s * s * (v.2 * v.2)) by (nonlinear_arith);
    let uu = vlen2(u);
    let rr = u.0 * r0 + u.1 * r1 + u.2 * r2;
    let pp = r0 * r0 + r1 * r1 + r2 * r2;
    assert(l * l * uu == l * l * (u.0 * u.0) + l * l * (u.1 * u.1) + l * l * (u.2 * u.2))
        by (nonlinear_arith)
        requires
            uu == u.0 * u.0 + u.1 * u.1 + u.2 * u.2,
    {
    }
    assert(2 * l * rr == 2 * l * (u.0 * r0) + 2 * l * (u.1 * r1) + 2 * l * (u.2 * r2))
        by (nonlinear_arith)
        requires
            rr == u.0 * r0 + u.1 * r1 + u.2 * r2,
    {
    }
    assert(s * s * q == l * l * uu + 2 * l * rr + pp);
    // Bound the cross terms and the squared remainders.
    lemma_abs_mul(u.0, r0, s, l);
    lemma_abs_mul(u.1, r1, s, l);
    lemma_abs_mul(u.2, r2, s, l);
    lemma_abs_mul(r0, r0, l, l);
    lemma_abs_mul(r1, r1, l, l);
    lemma_abs_mul(r2, r2, l, l);
    assert(r0 * r0 >= 0 && r1 * r1 >= 0 && r2 * r2 >= 0) by (nonlinear_arith);
    assert(-3 * (s * l) <= rr <= 3 * (s * l) && 0 <= pp <= 3 * (l * l));
    // Lower bound: the scaled squared length is at least the square of
    // the root, so the unit vector cannot be short.
    assert(uu >= s * s - 6 * s - 3) by (nonlinear_arith)
        requires
            s * s * q == l * l * uu + 2 * l * rr + pp,
            q >= l * l,
            rr <= 3 * (s * l),
            pp <= 3 * (l * l),
            l >= 1,
            s >= 1,
    {
    }
    assert(s * s - 6 * s - 3 == 999_993_999_997) by (nonlinear_arith)
        requires
            s == 1_000_000,
    {
    }
    if vlen2(v) >= 250_000_000_000 {
        // Above half a unit the root is at least half the scale, and the
        // unit vector cannot be long either.
        assert(2 * l >= s) by (nonlinear_arith)
            requires
                q >= 250_000_000_000,
                q < (l + 1) * (l + 1),
                l >= 1,
                s == 1_000_000,
        {
        }
        assert(uu <= s * s + 10 * s) by (nonlinear_arith)
            requires
                s * s * q == l * l * uu + 2 * l * rr + pp,
                q < (l + 1) * (l + 1),
                rr >= -3 * (s * l),
                pp >= 0,
                2 * l >= s,
                l >= 1,
                s >= 2,
        {
        }
        assert(s * s + 10 * s == 1_000_010_000_000) by (nonlinear_arith)
            requires
                s == 1_000_000,
        {
        }
    }
}

impl Vec3 {
    pub fn new(x: i64, y: i64, z: i64) -> (r: Self)
        ensures
            r@ == (x as int, y as int, z as int),
    {
        Vec3 { x, y, z }
    }

    pub fn default() -> (r: Self)
        ensures
            r@ == (0int, 0int, 0int),
    {
        Vec3 { x: 0, y: 0, z: 0 }
    }

    /// Each component drawn independently and uniformly from `[min, max)`.
    pub fn random(min: i64, max: i64) -> (r: Self)
        requires
            min < max,
        ensures
            min <= r.x < max,
            min <= r.y < max,
            min <= r.z < max,
    {
        Vec3 {
            x: random_in_range(min, max),
            y: random_in_range(min, max),
            z: random_in_range(min, max),
        }
    }

    /// The component selected by an index below three.
    pub fn index(&self, i: usize) -> (r: i64)
        requires
            i < 3,
        ensures
            i == 0 ==> r == self.x,
            i == 1 ==> r == self.y,
            i == 2 ==> r == self.z,
    {
        match i {
            0 => self.x,
            1 => self.y,
            _ => self.z,
        }
    }

    pub fn neg(self) -> (r: Self)
        requires
            in_range(self@, i64::MAX as int),
        ensures
            r@ == vneg(self@),
    {
        Vec3 { x: -self.x, y: -self.y, z: -self.z }
    }

    pub fn add(self, rhs: Self) -> (r: Self)
        requires
            i64::MIN <= self@.0 + rhs@.0 <= i64::MAX,
            i64::MIN <= self@.1 + rhs@.1 <= i64::MAX,
            i64::MIN <= self@.2 + rhs@.2 <= i64::MAX,
        ensures
            r@ == vadd(self@, rhs@),
    {
        Vec3 { x: self.x + rhs.x, y: self.y + rhs.y, z: self.z + rhs.z }
    }

    pub fn sub(self, rhs: Self) -> (r: Self)
        requires
            i64::MIN <= self@.0 - rhs@.0 <= i64::MAX,
            i64::MIN <= self@.1 - rhs@.1 <= i64::MAX,
            i64::MIN <= self@.2 - rhs@.2 <= i64::MAX,
        ensures
            r@ == vsub(self@, rhs@),
    {
        Vec3 { x: self.x - rhs.x, y: self.y - rhs.y, z: self.z - rhs.z }
    }

    /// Componentwise fixed-point product.
    pub fn mul(self, rhs: Self) -> (r: Self)
        requires
            in_range(self@, MUL_MAX as int),
            in_range(rhs@, MUL_MAX as int),
        ensures
            r@ == vmul(self@, rhs@),
    {
        proof {
            lemma_abs_mul(self@.0, rhs@.0, 3_000_000_000, 3_000_000_000);
            lemma_abs_mul(self@.1, rhs@.1, 3_000_000_000, 3_000_000_000);
            lemma_abs_mul(self@.2, rhs@.2, 3_000_000_000, 3_000_000_000);
            lemma_div_bounds(self@.0 * rhs@.0, 1_000_000, 9_000_000_000_000);
            lemma_div_bounds(self@.1 * rhs@.1, 1_000_000, 9_000_000_000_000);
            lemma_div_bounds(self@.2 * rhs@.2, 1_000_000, 9_000_000_000_000);
        }
        Vec3 {
            x: floor_div(self.x as i128 * rhs.x as i128, ONE as i128) as i64,
            y: floor_div(self.y as i128 * rhs.y as i128, ONE as i128) as i64,
            z: floor_div(self.z as i128 * rhs.z as i128, ONE as i128) as i64,
        }
    }

    /// Multiplication by a fixed-point scalar.
    pub fn scale(self, s: i64) -> (r: Self)
        requires
            in_range(self@, MUL_MAX as int),
            -MUL_MAX <= s <= MUL_MAX,
        ensures
            r@ == vscale(self@, s as int),
    {
        proof {
            lemma_abs_mul(self@.0, s as int, 3_000_000_000, 3_000_000_000);
            lemma_abs_mul(self@.1, s as int, 3_000_000_000, 3_000_000_000);
            lemma_abs_mul(self@.2, s as int, 3_000_000_000, 3_000_000_000);
            lemma_div_bounds(self@.0 * s, 1_000_000, 9_000_000_000_000);
            lemma_div_bounds(self@.1 * s, 1_000_000, 9_000_000_000_000);
            lemma_div_bounds(self@.2 * s, 1_000_000, 9_000_000_000_000);
        }
        Vec3 {
            x: floor_div(self.x as i128 * s as i128, ONE as i128) as i64,
            y: floor_div(self.y as i128 * s as i128, ONE as i128) as i64,
            z: floor_div(self.z as i128 * s as i128, ONE as i128) as i64,
        }
    }

    /// Division by a positive fixed-point scalar.
    pub fn div(self, s: i64) -> (r: Self)
        requires
            in_range(self@, VEC_MAX as int),
            1 <= s,
        ensures
            r@ == vdivs(self@, s as int),
    {
        proof {
            lemma_abs_mul(self@.0, ONE as int, 2_000_000_000_000, 1_000_000);
            lemma_abs_mul(self@.1, ONE as int, 2_000_000_000_000, 1_000_000);
            lemma_abs_mul(self@.2, ONE as int, 2_000_000_000_000, 1_000_000);
            lemma_floor_div_range(self@.0 * ONE as int, s as int);
            lemma_floor_div_range(self@.1 * ONE as int, s as int);
            lemma_floor_div_range(self@.2 * ONE as int, s as int);
        }
        Vec3 {
            x: floor_div(self.x as i128 * ONE as i128, s as i128) as i64,
            y: floor_div(self.y as i128 * ONE as i128, s as i128) as i64,
            z: floor_div(self.z as i128 * ONE as i128, s as i128) as i64,
        }
    }

    pub fn add_assign(&mut self, rhs: Self)
        requires
            i64::MIN <= old(self)@.0 + rhs@.0 <= i64::MAX,
            i64::MIN <= old(self)@.1 + rhs@.1 <= i64::MAX,
            i64::MIN <= old(self)@.2 + rhs@.2 <= i64::MAX,
        ensures
            final(self)@ == vadd(old(self)@, rhs@),
    {
        *self = self.add(rhs);
    }

    pub fn sub_assign(&mut self, rhs: Self)
        requires
            i64::MIN <= old(self)@.0 - rhs@.0 <= i64::MAX,
            i64::MIN <= old(self)@.1 - rhs@.1 <= i64::MAX,
            i64::MIN <= old(self)@.2 - rhs@.2 <= i64::MAX,
        ensures
            final(self)@ == vsub(old(self)@, rhs@),
    {
        *self = self.sub(rhs);
    }

    pub fn mul_assign(&mut self, rhs: Self)
        requires
            in_range(old(self)@, MUL_MAX as int),
            in_range(rhs@, MUL_MAX as int),
        ensures
            final(self)@ == vmul(old(self)@, rhs@),
    {
        *self = self.mul(rhs);
    }

    pub fn div_assign(&mut self, s: i64)
        requires
            in_range(old(self)@, VEC_MAX as int),
            1 <= s,
        ensures
            final(self)@ == vdivs(old(self)@, s as int),
    {
        *self = self.div(s);
    }

    /// The squared length at raw scale, exact.
    pub fn length_squared(&self) -> (r: i128)
        requires
            in_range(self@, VEC_MAX as int),
        ensures
            r == vlen2(self@),
    {
        dot(*self, *self)
    }

    /// The length at fixed-point scale: the floored square root of the
    /// raw squared length.
    pub fn length(&self) -> (r: i64)
        requires
            in_range(self@, VEC_MAX as int),
        ensures
            r == sqrti(vlen2(self@)),
            0 <= r,
    {
        let q = self.length_squared();
        proof {
            lemma_vlen2_nonneg(self@);
            lemma_abs_mul(self@.0, self@.0, 2_000_000_000_000, 2_000_000_000_000);
            lemma_abs_mul(self@.1, self@.1, 2_000_000_000_000, 2_000_000_000_000);
            lemma_abs_mul(self@.2, self@.2, 2_000_000_000_000, 2_000_000_000_000);
        }
        let s = isqrt(q as u128);
        proof {
            lemma_sqrt_lt(q as int, s as int, 4_000_000_000_000);
            if q > 0 {
                assert(s == sqrti(vlen2(self@)));
            } else {
                assert(s == sqrti(vlen2(self@)));
            }
        }
        s as i64
    }

    /// True exactly on the zero vector: the fixed-point resolution is the
    /// smallest representable magnitude.
    pub fn near_zero(&self) -> (r: bool)
        ensures
            r == (self@ == (0int, 0int, 0int)),
    {
        self.x == 0 && self.y == 0 && self.z == 0
    }
}

/// The raw dot product, exact.
pub fn dot(lhs: Vec3, rhs: Vec3) -> (r: i128)
    requires
        in_range(lhs@, VEC_MAX as int),
        in_range(rhs@, VEC_MAX as int),
    ensures
        r == vdot(lhs@, rhs@),
{
    proof {
        lemma_abs_mul(lhs@.0, rhs@.0, 2_000_000_000_000, 2_000_000_000_000);
        lemma_abs_mul(lhs@.1, rhs@.1, 2_000_000_000_000, 2_000_000_000_000);
        lemma_abs_mul(lhs@.2, rhs@.2, 2_000_000_000_000, 2_000_000_000_000);
    }
    lhs.x as i128 * rhs.x as i128 + lhs.y as i128 * rhs.y as i128 + lhs.z as i128 * rhs.z as i128
}

/// The fixed-point cross product, exact at its flooring scale.
pub fn cross(lhs: Vec3, rhs: Vec3) -> (r: Vec3)
    requires
        in_range(lhs@, MUL_MAX as int),
        in_range(rhs@, MUL_MAX as int),
    ensures
        r@ == vcross(lhs@, rhs@),
{
    proof {
        lemma_abs_mul(lhs@.1, rhs@.2, 3_000_000_000, 3_000_000_000);
        lemma_abs_mul(lhs@.2, rhs@.1, 3_000_000_000, 3_000_000_000);
        lemma_abs_mul(lhs@.2, rhs@.0, 3_000_000_000, 3_000_000_000);
        lemma_abs_mul(lhs@.0, rhs@.2, 3_000_000_000, 3_000_000_000);
        lemma_abs_mul(lhs@.0, rhs@.1, 3_000_000_000, 3_000_000_000);
        lemma_abs_mul(lhs@.1, rhs@.0, 3_000_000_000, 3_000_000_000);
        lemma_div_bounds(vcross_raw(lhs@, rhs@).0, 1_000_000, 18_000_000_000_000);
        lemma_div_bounds(vcross_raw(lhs@, rhs@).1, 1_000_000, 18_000_000_000_000);
        lemma_div_bounds(vcross_raw(lhs@, rhs@).2, 1_000_000, 18_000_000_000_000);
    }
    Vec3 {
        x: floor_div(lhs.y as i128 * rhs.z as i128 - lhs.z as i128 * rhs.y as i128, ONE as i128)
            as i64,
        y: floor_div(lhs.z as i128 * rhs.x as i128 - lhs.x as i128 * rhs.z as i128, ONE as i128)
            as i64,
        z: floor_div(lhs.x as i128 * rhs.y as i128 - lhs.y as i128 * rhs.x as i128, ONE as i128)
            as i64,
    }
}

/// The unit vector of a nonzero vector: every component divided by the
/// fixed-point length. The result's components stay within one unit.
pub fn unit_vector(v: Vec3) -> (r: Vec3)
    requires
        in_range(v@, VEC_MAX as int),
        vlen2(v@) >= 1,
    ensures
        r@ == vunit(v@),
        in_range(r@, ONE as int),
{
    let q = v.length_squared();
    proof {
        lemma_abs_mul(v@.0, v@.0, 2_000_000_000_000, 2_000_000_000_000);
        lemma_abs_mul(v@.1, v@.1, 2_000_000_000_000, 2_000_000_000_000);
        lemma_abs_mul(v@.2, v@.2, 2_000_000_000_000, 2_000_000_000_000);
    }
    let l128 = isqrt(q as u128);
    proof {
        lemma_sqrt_lt(q as int, l128 as int, 4_000_000_000_000);
        lemma_sqrt_floor_pos(q as nat);
        lemma_components_le_sqrt(v@);
        assert(l128 as int == sqrti(vlen2(v@)));
    }
    let l = l128 as i128;
    proof {
        let li = l as int;
        lemma_abs_mul(v@.0, ONE as int, 2_000_000_000_000, 1_000_000);
        lemma_abs_mul(v@.1, ONE as int, 2_000_000_000_000, 1_000_000);
        lemma_abs_mul(v@.2, ONE as int, 2_000_000_000_000, 1_000_000);
        lemma_scaled_div_bounds(v@.0, li, ONE as int);
        lemma_scaled_div_bounds(v@.1, li, ONE as int);
        lemma_scaled_div_bounds(v@.2, li, ONE as int);
    }
    Vec3 {
        x: floor_div(v.x as i128 * ONE as i128, l) as i64,
        y: floor_div(v.y as i128 * ONE as i128, l) as i64,
        z: floor_div(v.z as i128 * ONE as i128, l) as i64,
    }
}

/// A random point strictly inside the unit sphere and away from the
/// centre, by bounded rejection sampling with a fixed fallback.
pub fn random_in_unit_sphere() -> (r: Vec3)
    ensures
        1 <= vlen2(r@) < 1_000_000_000_000,
        in_range(r@, ONE as int),
{
    let mut i: u64 = 0;
    while i < 64
        invariant
            i <= 64,
        decreases 64 - i,
    {
        let p = Vec3::random(-ONE, ONE);
        let q = p.length_squared();
        if 1 <= q && q < 1_000_000_000_000 {
            return p;
        }
        i = i + 1;
    }
    // Sixty-four rejections in a row: fall back to half a unit along x.
    Vec3 { x: 500_000, y: 0, z: 0 }
}

/// A random vector of unit length within the fixed-point resolution,
/// uniform over directions: draws shorter than half a unit are rejected,
/// since normalizing them would lose too much precision.
pub fn random_unit_vector() -> (r: Vec3)
    ensures
        in_range(r@, ONE as int),
        999_993_999_997 <= vlen2(r@) <= 1_000_010_000_000,
{
    let mut i: u64 = 0;
    while i < 64
        invariant
            i <= 64,
        decreases 64 - i,
    {
        let p = random_in_unit_sphere();
        let q = p.length_squared();
        if q >= 250_000_000_000 {
            let u = unit_vector(p);
            proof {
                lemma_unit_vector_length(p@);
            }
            return u;
        }
        i = i + 1;
    }
    // Sixty-four short draws in a row: fall back to the unit x axis.
    let f = Vec3 { x: ONE, y: 0, z: 0 };
    proof {
        assert(vlen2(f@) == 1_000_000_000_000) by (nonlinear_arith)
            requires
                f@ == (1_000_000int, 0int, 0int),
                vlen2(f@) == f@.0 * f@.0 + f@.1 * f@.1 + f@.2 * f@.2,
        {
        }
    }
    f
}

/// A random unit vector on the hemisphere around `normal`: the dot
/// product with the normal never comes out negative.
pub fn random_on_hemisphere(normal: Vec3) -> (r: Vec3)
    requires
        in_range(normal@, VEC_MAX as int),
    ensures
        in_range(r@, ONE as int),
        1 <= vlen2(r@),
        vdot(r@, normal@) >= 0,
{
    let on_unit_sphere = random_unit_vector();
    let d = dot(on_unit_sphere, normal);
    if d > 0 {
        on_unit_sphere
    } else {
        proof {
            lemma_vdot_neg(on_unit_sphere@, normal@);
        }
        on_unit_sphere.neg()
    }
}

/// Reflection of `v` about the normal `n`, exact at fixed-point scale.
pub fn reflect(v: Vec3, n: Vec3) -> (r: Vec3)
    requires
        in_range(v@, 2 * ONE as int),
        in_range(n@, 2 * ONE as int),
    ensures
        r@ == vreflect(v@, n@),
        in_range(r@, 60 * ONE as int),
{
    let d128 = dot(v, n);
    proof {
        lemma_abs_mul(v@.0, n@.0, 2_000_000, 2_000_000);
        lemma_abs_mul(v@.1, n@.1, 2_000_000, 2_000_000);
        lemma_abs_mul(v@.2, n@.2, 2_000_000, 2_000_000);
        lemma_div_bounds(vdot(v@, n@), 1_000_000, 12_000_000);
    }
    let d = floor_div(d128, ONE as i128);
    proof {
        let di = d as int;
        lemma_abs_mul(2 * di, n@.0, 24_000_000, 2_000_000);
        lemma_abs_mul(2 * di, n@.1, 24_000_000, 2_000_000);
        lemma_abs_mul(2 * di, n@.2, 24_000_000, 2_000_000);
        lemma_div_bounds(2 * di * n@.0, 1_000_000, 48_000_000);
        lemma_div_bounds(2 * di * n@.1, 1_000_000, 48_000_000);
        lemma_div_bounds(2 * di * n@.2, 1_000_000, 48_000_000);
    }
    Vec3 {
        x: v.x - floor_div(2 * d * n.x as i128, ONE as i128) as i64,
        y: v.y - floor_div(2 * d * n.y as i128, ONE as i128) as i64,
        z: v.z - floor_div(2 * d * n.z as i128, ONE as i128) as i64,
    }
}

} // verus!
