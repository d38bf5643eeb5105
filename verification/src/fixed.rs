//! Scalar fixed-point arithmetic: flooring division and integer square
//! roots, with exact contracts over mathematical integers.

use vstd::arithmetic::div_mod::lemma_div_is_ordered;
use vstd::arithmetic::div_mod::lemma_div_nonincreasing;
use vstd::arithmetic::div_mod::lemma_div_of0;
use vstd::arithmetic::div_mod::lemma_div_pos_is_pos;
use vstd::arithmetic::div_mod::lemma_fundamental_div_mod;
use vstd::arithmetic::div_mod::lemma_mod_division_less_than_divisor;
use vstd::prelude::*;

verus! {

/// The flooring quotient of `n` and a positive `d` lies between `n` and 0
/// (inclusive on the side of `n`), so it always fits the dividend's type.
pub proof fn lemma_floor_div_range(n: int, d: int)
    requires
        d > 0,
    ensures
        n >= 0 ==> 0 <= n / d <= n,
        n < 0 ==> n <= n / d <= 0,
{
    if n >= 0 {
        lemma_div_pos_is_pos(n, d);
        lemma_div_nonincreasing(n, d);
    } else {
        let q = n / d;
        lemma_div_of0(d);
        lemma_div_is_ordered(n, 0, d);
        lemma_fundamental_div_mod(n, d);
        lemma_mod_division_less_than_divisor(n, d);
        assert(q >= n) by (nonlinear_arith)
            requires
                n == d * q + (n % d),
                0 <= n % d < d,
                d >= 1,
                q <= 0,
                n < 0,
        {
        }
    }
}

/// Flooring division of a signed 128-bit value by a positive divisor;
/// the result agrees with Verus's Euclidean `/` on `int`.
pub fn floor_div(n: i128, d: i128) -> (q: i128)
    requires
        d > 0,
    ensures
        q == n as int / d as int,
{
    proof {
        lemma_floor_div_range(n as int, d as int);
    }
    match n.checked_div_euclid(d) {
        Some(q) => q,
        None => {
            proof {
                assert(false);
            }
            0
        },
    }
}

/// A product is bounded by the product of the bounds.
pub proof fn lemma_abs_mul(x: int, y: int, a: int, b: int)
    requires
        -a <= x <= a,
        -b <= y <= b,
    ensures
        -(a * b) <= x * y <= a * b,
{
    assert(-(a * b) <= x * y <= a * b) by (nonlinear_arith)
        requires
            -a <= x <= a,
            -b <= y <= b,
    {
    }
}

/// A nonnegative value whose square is below `b * b` is below `b`.
pub proof fn lemma_sqrt_lt(q: int, r: int, b: int)
    requires
        r >= 0,
        b >= 0,
        r * r <= q,
        q < b * b,
    ensures
        r < b,
{
    assert(r < b) by (nonlinear_arith)
        requires
            r >= 0,
            b >= 0,
            r * r <= q,
            q < b * b,
    {
    }
}

/// Scaling a value bounded by `l` up by `s` and flooring the quotient by
/// `l` lands in `[-s, s]`.
pub proof fn lemma_scaled_div_bounds(x: int, l: int, s: int)
    requires
        -l <= x <= l,
        l >= 1,
        s >= 0,
    ensures
        -s <= (x * s) / l <= s,
{
    vstd::arithmetic::mul::lemma_mul_inequality(x, l, s);
    vstd::arithmetic::mul::lemma_mul_inequality(-l, x, s);
    lemma_div_is_ordered((-l) * s, x * s, l);
    lemma_div_is_ordered(x * s, l * s, l);
    vstd::arithmetic::div_mod::lemma_div_multiples_vanish(s, l);
    vstd::arithmetic::div_mod::lemma_div_multiples_vanish(-s, l);
    assert(l * s == s * l) by (nonlinear_arith);
    assert((-l) * s == l * (-s)) by (nonlinear_arith);
}

/// A dividend within `b` times a positive divisor floors to within `b`.
pub proof fn lemma_div_bounds(n: int, d: int, b: int)
    requires
        d >= 1,
        b >= 0,
        -(b * d) <= n <= b * d,
    ensures
        -b <= n / d <= b,
{
    lemma_div_is_ordered(-(b * d), n, d);
    lemma_div_is_ordered(n, b * d, d);
    vstd::arithmetic::div_mod::lemma_div_multiples_vanish(b, d);
    vstd::arithmetic::div_mod::lemma_div_multiples_vanish(-b, d);
    assert(b * d == d * b) by (nonlinear_arith);
    assert(-(b * d) == d * (-b)) by (nonlinear_arith);
}

/// The integer square root, defined by counting up; `sqrt_floor(n)` is the
/// greatest `r` with `r * r <= n`.
pub open spec fn sqrt_floor(n: nat) -> nat
    decreases n,
{
    if n == 0 {
        0
    } else {
        let r = sqrt_floor((n - 1) as nat);
        if (r + 1) * (r + 1) <= n {
            r + 1
        } else {
            r
        }
    }
}

/// `sqrt_floor(n)` squares to at most `n`, and is the last value to do so.
pub proof fn lemma_sqrt_floor_bounds(n: nat)
    ensures
        sqrt_floor(n) * sqrt_floor(n) <= n,
        n < (sqrt_floor(n) + 1) * (sqrt_floor(n) + 1),
    decreases n,
{
    if n == 0 {
        assert(sqrt_floor(n) == 0);
        assert((sqrt_floor(n) + 1) * (sqrt_floor(n) + 1) == 1) by (nonlinear_arith)
            requires
                sqrt_floor(n) == 0,
        {
        }
    } else {
        let r = sqrt_floor((n - 1) as nat);
        lemma_sqrt_floor_bounds((n - 1) as nat);
        assert(sqrt_floor(n) == if (r + 1) * (r + 1) <= n {
            r + 1
        } else {
            r
        });
        if (r + 1) * (r + 1) <= n {
            assert(n < (r + 2) * (r + 2)) by (nonlinear_arith)
                requires
                    n >= 1,
                    (n - 1) < (r + 1) * (r + 1),
                    r >= 0,
            {
            }
        }
    }
}

/// Any value whose square brackets `n` is exactly `sqrt_floor(n)`.
pub proof fn lemma_sqrt_floor_unique(n: nat, r: nat)
    requires
        r * r <= n,
        n < (r + 1) * (r + 1),
    ensures
        r == sqrt_floor(n),
{
    lemma_sqrt_floor_bounds(n);
    let s = sqrt_floor(n);
    if r < s {
        assert((r + 1) * (r + 1) <= s * s) by (nonlinear_arith)
            requires
                r + 1 <= s,
                r >= 0,
        {
        }
    }
    if s < r {
        assert((s + 1) * (s + 1) <= r * r) by (nonlinear_arith)
            requires
                s + 1 <= r,
                s >= 0,
        {
        }
    }
}

/// A dividend between `lo` and `hi` times a positive divisor floors to
/// between `lo` and `hi`.
pub proof fn lemma_div_between(n: int, d: int, lo: int, hi: int)
    requires
        d >= 1,
        lo * d <= n <= hi * d,
    ensures
        lo <= n / d <= hi,
{
    lemma_div_is_ordered(lo * d, n, d);
    lemma_div_is_ordered(n, hi * d, d);
    vstd::arithmetic::div_mod::lemma_div_multiples_vanish(lo, d);
    vstd::arithmetic::div_mod::lemma_div_multiples_vanish(hi, d);
    assert(lo * d == d * lo) by (nonlinear_arith);
    assert(hi * d == d * hi) by (nonlinear_arith);
}

/// The integer square root of a positive number is positive.
pub proof fn lemma_sqrt_floor_pos(n: nat)
    requires
        n >= 1,
    ensures
        sqrt_floor(n) >= 1,
{
    lemma_sqrt_floor_bounds(n);
    let s = sqrt_floor(n);
    if s == 0 {
        assert((s + 1) * (s + 1) == 1) by (nonlinear_arith)
            requires
                s == 0nat,
        {
        }
    }
}

/// Integer square root over `int`, zero below zero.
pub open spec fn sqrti(n: int) -> int {
    if n <= 0 {
        0
    } else {
        sqrt_floor(n as nat) as int
    }
}

/// Integer square root of an unsigned 128-bit value, by binary search.
pub fn isqrt(x: u128) -> (r: u128)
    ensures
        r == sqrt_floor(x as nat),
        r * r <= x,
{
    let mut lo: u128 = 0;
    let mut hi: u128 = 0x1_0000_0000_0000_0000;
    assert(x < hi * hi) by (nonlinear_arith)
        requires
            hi == 0x1_0000_0000_0000_0000u128,
            x <= u128::MAX,
    {
    }
    while lo + 1 < hi
        invariant
            lo < hi,
            hi <= 0x1_0000_0000_0000_0000,
            lo * lo <= x,
            x < hi * hi,
        decreases hi - lo,
    {
        let mid = lo + (hi - lo) / 2;
        assert(lo < mid < hi);
        assert(mid * mid < 0x1_0000_0000_0000_0000 * 0x1_0000_0000_0000_0000) by (nonlinear_arith)
            requires
                0 <= mid < 0x1_0000_0000_0000_0000u128,
        {
        }
        if mid * mid <= x {
            lo = mid;
        } else {
            hi = mid;
        }
    }
    proof {
        lemma_sqrt_floor_unique(x as nat, lo as nat);
    }
    lo
}

} // verus!
