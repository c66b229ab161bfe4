//! 16.16 fixed-point arithmetic: the numeric base of the renderer.
//!
//! A world coordinate, distance or scale factor is an `i64` holding the real
//! value times `FP_ONE`.  Products and quotients round toward zero, as the
//! specs below state exactly.

use vstd::prelude::*;
use vstd::arithmetic::div_mod::{
    lemma_div_is_ordered, lemma_div_multiples_vanish, lemma_div_pos_is_pos,
    lemma_fundamental_div_mod, lemma_fundamental_div_mod_converse,
};

verus! {

/// Fixed-point scale: one world unit.
pub const FP_ONE: i64 = 65536;

/// Largest magnitude the fixed-point routines accept; the product of two
/// values within it stays inside `i64`.
pub const FP_BOUND: i64 = 0x7fff_ffff;

/// Division of `p` by positive `q`, rounding toward zero.
pub open spec fn div_trunc(p: int, q: int) -> int {
    if p >= 0 {
        p / q
    } else {
        -((-p) / q)
    }
}

/// The fixed-point product: `a * b` scaled back down by `FP_ONE`.
pub open spec fn fp_mul_spec(a: int, b: int) -> int {
    div_trunc(a * b, FP_ONE as int)
}

/// The fixed-point quotient: `a / b` scaled up by `FP_ONE`.
pub open spec fn fp_div_spec(a: int, b: int) -> int {
    div_trunc(a * (FP_ONE as int), b)
}

/// Truncating division of an `i64` by a positive divisor, computed on
/// magnitudes so that only unsigned machine division is needed.
pub fn div_trunc_i64(p: i64, q: i64) -> (r: i64)
    requires
        q > 0,
        p > i64::MIN,
    ensures
        r == div_trunc(p as int, q as int),
{
    if p >= 0 {
        (((p as u64) / (q as u64)) as i64)
    } else {
        let m: u64 = (-p) as u64;
        let d: u64 = m / (q as u64);
        proof {
            lemma_div_is_ordered(d as int, m as int, 1);
            assert((m as int) / 1int == m as int);
        }
        -(d as i64)
    }
}

/// Fixed-point multiplication, rounding toward zero.
pub fn fp_mul(a: i64, b: i64) -> (r: i64)
    requires
        -FP_BOUND <= a <= FP_BOUND,
        -FP_BOUND <= b <= FP_BOUND,
    ensures
        r == fp_mul_spec(a as int, b as int),
{
    proof {
        lemma_mul_bound(a as int, b as int, FP_BOUND as int);
    }
    let p: i64 = a * b;
    div_trunc_i64(p, FP_ONE)
}

/// Fixed-point division by a positive divisor, rounding toward zero.
pub fn fp_div(a: i64, b: i64) -> (r: i64)
    requires
        -FP_BOUND <= a <= FP_BOUND,
        0 < b,
    ensures
        r == fp_div_spec(a as int, b as int),
{
    proof {
        lemma_mul_bound(a as int, FP_ONE as int, FP_BOUND as int);
    }
    let p: i64 = a * FP_ONE;
    div_trunc_i64(p, b)
}

/// `|a * b| <= bound * bound` whenever both factors stay within `bound`.
pub proof fn lemma_mul_bound(a: int, b: int, bound: int)
    requires
        -bound <= a <= bound,
        -bound <= b <= bound,
        0 <= bound,
    ensures
        -(bound * bound) <= a * b <= bound * bound,
{
    assert(-(bound * bound) <= a * b <= bound * bound) by (nonlinear_arith)
        requires
            -bound <= a <= bound,
            -bound <= b <= bound,
            0 <= bound,
    ;
}

/// Truncating division never grows magnitude: `|div_trunc(p, q)| <= |p|`.
pub proof fn lemma_div_trunc_bound(p: int, q: int)
    requires
        q >= 1,
    ensures
        p >= 0 ==> 0 <= div_trunc(p, q) <= p,
        p < 0 ==> p <= div_trunc(p, q) <= 0,
{
    if p >= 0 {
        lemma_div_pos_is_pos(p, q);
        lemma_div_is_ordered_by_denominator_one(p, q);
    } else {
        lemma_div_pos_is_pos(-p, q);
        lemma_div_is_ordered_by_denominator_one(-p, q);
    }
}

/// For `x >= 0` and `q >= 1`: `x / q <= x`.
proof fn lemma_div_is_ordered_by_denominator_one(x: int, q: int)
    requires
        x >= 0,
        q >= 1,
    ensures
        x / q <= x,
{
    assert(x / q <= x) by (nonlinear_arith)
        requires
            x >= 0,
            q >= 1,
    ;
}

/// Scaling by a factor of magnitude at most `FP_ONE` never grows magnitude.
pub proof fn lemma_fp_mul_contract(a: int, b: int)
    requires
        -(FP_ONE as int) <= b <= FP_ONE as int,
        a >= 0,
    ensures
        -a <= fp_mul_spec(a, b) <= a,
{
    let p = a * b;
    assert(-(a * 65536int) <= a * b <= a * 65536int) by (nonlinear_arith)
        requires
            -65536int <= b <= 65536int,
            a >= 0,
    ;
    if p >= 0 {
        lemma_div_pos_is_pos(p, FP_ONE as int);
        lemma_div_is_ordered(p, a * (FP_ONE as int), FP_ONE as int);
        lemma_div_multiples_vanish(a, FP_ONE as int);
    } else {
        lemma_div_pos_is_pos(-p, FP_ONE as int);
        lemma_div_is_ordered(-p, a * (FP_ONE as int), FP_ONE as int);
        lemma_div_multiples_vanish(a, FP_ONE as int);
    }
}

/// A nonnegative value at most `b * d` divides by `d` to at most `b`.
pub proof fn lemma_div_le(x: int, b: int, d: int)
    requires
        0 <= x,
        0 < d,
        0 <= b,
        x <= b * d,
    ensures
        0 <= x / d <= b,
{
    lemma_div_pos_is_pos(x, d);
    assert(b * d == d * b) by (nonlinear_arith);
    lemma_div_is_ordered(x, d * b, d);
    lemma_div_multiples_vanish(b, d);
}

/// Floor division of an `i64` by a positive divisor: the mathematical
/// quotient, which rounds toward negative infinity.
pub fn div_floor_i64(a: i64, b: i64) -> (r: i64)
    requires
        0 < b <= 0x4000_0000_0000,
        -0x2000_0000_0000_0000 < a < 0x2000_0000_0000_0000,
    ensures
        r == (a as int) / (b as int),
        a >= 0 ==> 0 <= r <= a,
        a < 0 ==> a <= r <= 0,
{
    proof {
        lemma_fundamental_div_mod(a as int, b as int);
        vstd::arithmetic::div_mod::lemma_mod_bound(a as int, b as int);
        assert({
            let q = (a as int) / (b as int);
            (a >= 0 ==> 0 <= q <= a) && (a < 0 ==> a <= q <= 0)
        }) by (nonlinear_arith)
            requires
                a as int == (b as int) * ((a as int) / (b as int)) + (a as int) % (b as int),
                0 <= (a as int) % (b as int) < b as int,
                1 <= b as int,
        ;
    }
    if a >= 0 {
        (((a as u64) / (b as u64)) as i64)
    } else {
        proof {
            lemma_fundamental_div_mod(a as int, b as int);
            vstd::arithmetic::div_mod::lemma_mod_bound(a as int, b as int);
            let q = (a as int) / (b as int);
            let m = (a as int) % (b as int);
            assert(-q <= 0x2000_0000_0000_0000) by (nonlinear_arith)
                requires
                    a as int == (b as int) * q + m,
                    0 <= m < b as int,
                    a as int > -0x2000_0000_0000_0000,
                    b as int >= 1,
            ;
            assert((-q) * (b as int) == -((b as int) * q)) by (nonlinear_arith);
            if m == 0 {
                lemma_fundamental_div_mod_converse(-(a as int), b as int, -q, 0);
            } else {
                assert((-q - 1) * (b as int) == -((b as int) * q) - (b as int))
                    by (nonlinear_arith);
                lemma_fundamental_div_mod_converse(-(a as int), b as int, -q - 1, b - m);
                lemma_fundamental_div_mod_converse(
                    -(a as int) + b - 1,
                    b as int,
                    -q,
                    b - 1 - m,
                );
            }
        }
        let m: u64 = ((-a) as u64) % (b as u64);
        if m == 0 {
            -((((-a) as u64) / (b as u64)) as i64)
        } else {
            -(((((-a) as u64) + (b as u64) - 1) / (b as u64)) as i64)
        }
    }
}

/// Euclidean remainder of an `i64` by a positive divisor: always in `[0, b)`.
pub fn mod_floor_i64(a: i64, b: i64) -> (r: i64)
    requires
        0 < b <= 0x4000_0000_0000,
        -0x2000_0000_0000_0000 < a < 0x2000_0000_0000_0000,
    ensures
        r == (a as int) % (b as int),
        0 <= r < b,
{
    proof {
        lemma_fundamental_div_mod(a as int, b as int);
        vstd::arithmetic::div_mod::lemma_mod_bound(a as int, b as int);
        lemma_div_trunc_bound(a as int, b as int);
    }
    let q = div_floor_i64(a, b);
    a - b * q
}

/// The integer square root: the largest value whose square does not exceed
/// the argument.
pub fn isqrt_u64(n: u64) -> (r: u64)
    ensures
        (r as int) * (r as int) <= n as int,
        (r as int + 1) * (r as int + 1) > n as int,
{
    if n == 0 {
        return 0;
    }
    let mut lo: u64 = 0;
    let mut hi: u64 = 4294967296;
    proof {
        assert((4294967296int) * (4294967296int) > u64::MAX as int) by (nonlinear_arith);
    }
    while lo + 1 < hi
        invariant
            lo < hi <= 4294967296,
            (lo as int) * (lo as int) <= n as int,
            (hi as int) * (hi as int) > n as int,
        decreases hi - lo,
    {
        let mid: u64 = lo + (hi - lo) / 2;
        proof {
            assert((mid as int) * (mid as int) <= u64::MAX as int) by (nonlinear_arith)
                requires
                    0 <= (mid as int) <= 4294967295int,
            ;
        }
        if mid * mid <= n {
            lo = mid;
        } else {
            hi = mid;
        }
    }
    lo
}

/// Multiplying by `FP_ONE` in fixed point is the identity.
pub proof fn lemma_fp_mul_one(a: int)
    ensures
        fp_mul_spec(a, FP_ONE as int) == a,
{
    if a >= 0 {
        lemma_div_multiples_vanish(a, FP_ONE as int);
    } else {
        lemma_div_multiples_vanish(-a, FP_ONE as int);
        assert((-a) * (FP_ONE as int) == -(a * (FP_ONE as int))) by (nonlinear_arith);
    }
}

} // verus!
