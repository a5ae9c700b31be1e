//! Fixed-point scalar arithmetic: the truncating multiply-divide and the
//! integer square roots that every stage of the simulation is specified over.

use vstd::prelude::*;

verus! {

use vstd::arithmetic::div_mod::{lemma_div_is_ordered, lemma_div_nonincreasing, lemma_div_pos_is_pos};
use vstd::arithmetic::mul::lemma_mul_upper_bound;

/// Absolute value of a mathematical integer.
pub open spec fn sabs(a: int) -> int {
    if a >= 0 {
        a
    } else {
        -a
    }
}

/// `a * b / d` rounded toward zero, for `b >= 0` and `d >= 1`: the one
/// rounding rule used by every scaled product and quotient of the engine.
pub open spec fn mdiv(a: int, b: int, d: int) -> int
    recommends
        b >= 0,
        d >= 1,
{
    if a >= 0 {
        (a * b) / d
    } else {
        -(((-a) * b) / d)
    }
}

/// Floor of the square root of `x` (zero for negative arguments).
pub open spec fn sqrt_floor(x: int) -> int
    decreases x,
{
    if x <= 0 {
        0
    } else {
        let r = sqrt_floor(x - 1);
        if (r + 1) * (r + 1) <= x {
            r + 1
        } else {
            r
        }
    }
}

/// Ceiling of the square root of `x`.
pub open spec fn sqrt_ceil(x: int) -> int {
    let r = sqrt_floor(x);
    if r * r == x {
        r
    } else {
        r + 1
    }
}

/// `sqrt_floor` is the floor of the real square root.
pub proof fn lemma_sqrt_floor_bounds(x: int)
    requires
        x >= 0,
    ensures
        0 <= sqrt_floor(x),
        sqrt_floor(x) * sqrt_floor(x) <= x,
        x < (sqrt_floor(x) + 1) * (sqrt_floor(x) + 1),
    decreases x,
{
    if x == 0 {
    } else {
        lemma_sqrt_floor_bounds(x - 1);
        let r = sqrt_floor(x - 1);
        if (r + 1) * (r + 1) <= x {
            assert((r + 1) * (r + 1) < (r + 2) * (r + 2)) by (nonlinear_arith)
                requires
                    r >= 0,
            ;
        }
    }
}

/// Any `r` with `r^2 <= x < (r+1)^2` is `sqrt_floor(x)`.
pub proof fn lemma_sqrt_floor_unique(x: int, r: int)
    requires
        x >= 0,
        r >= 0,
        r * r <= x,
        x < (r + 1) * (r + 1),
    ensures
        r == sqrt_floor(x),
{
    lemma_sqrt_floor_bounds(x);
    let s = sqrt_floor(x);
    if r < s {
        assert(false) by (nonlinear_arith)
            requires
                r >= 0,
                s >= 0,
                r < s,
                s * s <= x,
                x < (r + 1) * (r + 1),
        ;
    }
    if r > s {
        assert(false) by (nonlinear_arith)
            requires
                r >= 0,
                s >= 0,
                s < r,
                r * r <= x,
                x < (s + 1) * (s + 1),
        ;
    }
}

/// Squares respect order on nonnegative integers.
pub proof fn lemma_square_order(a: int, b: int)
    by (nonlinear_arith)
    requires
        0 <= a,
        0 <= b,
        a * a <= b * b,
    ensures
        a <= b,
{
}

/// A lower bound under the square root: `c^2 <= x` forces `sqrt_floor(x) >= c`.
pub proof fn lemma_sqrt_floor_at_least(x: int, c: int)
    requires
        x >= 0,
        c >= 0,
        c * c <= x,
    ensures
        sqrt_floor(x) >= c,
{
    lemma_sqrt_floor_bounds(x);
    let s = sqrt_floor(x);
    if s < c {
        assert(false) by (nonlinear_arith)
            requires
                s >= 0,
                c >= 0,
                s < c,
                c * c <= x,
                x < (s + 1) * (s + 1),
        ;
    }
}

/// A component is never longer than the vector: `v^2 <= x` bounds `|v|` by
/// `sqrt_floor(x)`.
pub proof fn lemma_abs_le_sqrt_floor(v: int, x: int)
    requires
        0 <= x,
        v * v <= x,
    ensures
        sabs(v) <= sqrt_floor(x),
{
    lemma_sqrt_floor_bounds(x);
    let s = sqrt_floor(x);
    let m = sabs(v);
    assert(m * m == v * v) by (nonlinear_arith)
        requires
            m == v || m == -v,
    ;
    if m > s {
        assert(false) by (nonlinear_arith)
            requires
                m >= s + 1,
                s >= 0,
                m * m <= x,
                x < (s + 1) * (s + 1),
        ;
    }
}

/// The magnitude of `mdiv(a, b, d)` is `sabs(a) * b / d`, and is bounded by
/// any product of bounds on `a` and `b`.
pub proof fn lemma_mdiv_bound(a: int, b: int, d: int, ca: int, cb: int)
    requires
        sabs(a) <= ca,
        0 <= b <= cb,
        1 <= d,
    ensures
        sabs(mdiv(a, b, d)) == (sabs(a) * b) / d,
        sabs(mdiv(a, b, d)) <= (ca * cb) / d,
        sabs(mdiv(a, b, d)) <= ca * cb,
{
    let m = sabs(a);
    lemma_div_pos_is_pos(m * b, d);
    lemma_mul_upper_bound(m, ca, b, cb);
    lemma_div_is_ordered(m * b, ca * cb, d);
    lemma_div_pos_is_pos(ca * cb, d);
    lemma_div_nonincreasing(ca * cb, d);
}

/// Truncating fixed-point multiply-divide: `a * b / d` rounded toward zero.
pub fn mul_div(a: i64, b: i64, d: i64) -> (r: i64)
    requires
        b >= 0,
        d >= 1,
        (sabs(a as int) * (b as int)) / (d as int) <= i64::MAX,
    ensures
        r as int == mdiv(a as int, b as int, d as int),
        sabs(r as int) == (sabs(a as int) * (b as int)) / (d as int),
{
    let neg = a < 0;
    let m: u128 = if a >= 0 {
        a as u128
    } else {
        (-(a as i128)) as u128
    };
    assert(m as int == sabs(a as int));
    assert(m * (b as u128) < u128::MAX) by {
        lemma_mul_upper_bound(m as int, 0x8000_0000_0000_0000, b as int, 0x8000_0000_0000_0000);
    }
    let p: u128 = m * (b as u128);
    let q: u128 = p / (d as u128);
    proof {
        lemma_div_pos_is_pos(p as int, d as int);
    }
    assert(q <= i64::MAX as u128);
    let qi: i64 = q as i64;
    if neg {
        -qi
    } else {
        qi
    }
}

/// Floor square root of a `u128`, by binary search.
pub fn isqrt(x: u128) -> (r: u128)
    ensures
        r as int == sqrt_floor(x as int),
        (r as int) * (r as int) <= x as int,
        (x as int) < ((r as int) + 1) * ((r as int) + 1),
        r < 0x1_0000_0000_0000_0000u128,
{
    let mut lo: u128 = 0;
    let mut hi: u128 = 0x1_0000_0000_0000_0000u128;
    proof {
        assert((hi as int) * (hi as int) > x as int) by (nonlinear_arith)
            requires
                hi as int == 0x1_0000_0000_0000_0000,
                x as int <= 0xffff_ffff_ffff_ffff_ffff_ffff_ffff_ffff,
        ;
    }
    while lo + 1 < hi
        invariant
            lo < hi,
            hi <= 0x1_0000_0000_0000_0000u128,
            (lo as int) * (lo as int) <= x as int,
            (x as int) < (hi as int) * (hi as int),
        decreases hi - lo,
    {
        let mid = lo + (hi - lo) / 2;
        assert(lo < mid < hi);
        assert(mid * mid < u128::MAX) by {
            lemma_mul_upper_bound(
                mid as int,
                0xffff_ffff_ffff_ffff,
                mid as int,
                0xffff_ffff_ffff_ffff,
            );
        }
        if mid * mid <= x {
            lo = mid;
        } else {
            hi = mid;
        }
    }
    proof {
        lemma_sqrt_floor_unique(x as int, lo as int);
    }
    lo
}

/// Ceiling square root of a `u128`.
pub fn isqrt_ceil(x: u128) -> (r: u128)
    ensures
        r as int == sqrt_ceil(x as int),
        (x as int) <= (r as int) * (r as int),
        x > 0 ==> r >= 1,
        r <= 0x1_0000_0000_0000_0000u128,
{
    let f = isqrt(x);
    assert(f * f < u128::MAX) by {
        lemma_mul_upper_bound(f as int, 0xffff_ffff_ffff_ffff, f as int, 0xffff_ffff_ffff_ffff);
    }
    if f * f == x {
        f
    } else {
        f + 1
    }
}

} // verus!
