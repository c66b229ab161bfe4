//! Angles in binary angle units and the integer trigonometry built on them.
//!
//! A full turn is `ANGLE_FULL` units, so angles wrap by plain addition and
//! subtraction.  The sine uses the classical rational approximation that is
//! exact at every multiple of a quarter turn; the arctangent uses an octant
//! split with a quadratic correction.  Both are total integer functions whose
//! contracts give the result exactly.

use vstd::prelude::*;
use vstd::arithmetic::div_mod::{
    lemma_div_is_ordered, lemma_div_multiples_vanish, lemma_div_pos_is_pos,
};
use crate::fixed::FP_ONE;

verus! {

/// One full turn in angle units.
pub const ANGLE_FULL: i64 = 65536;

/// Half a turn.
pub const ANGLE_HALF: i64 = 32768;

/// A quarter turn.
pub const ANGLE_QUARTER: i64 = 16384;

/// An eighth of a turn.
pub const ANGLE_EIGHTH: i64 = 8192;

/// A normalized angle: at least zero, below one full turn.
pub open spec fn valid_angle(a: int) -> bool {
    0 <= a < ANGLE_FULL as int
}

/// The rational sine approximation on a half turn, scaled to `FP_ONE`:
/// zero at both ends and exactly `FP_ONE` at the quarter turn.
pub open spec fn spec_sin_half(t: int) -> int {
    let u = t * (ANGLE_HALF as int - t);
    (16 * u * (FP_ONE as int)) / (5 * (ANGLE_HALF as int) * (ANGLE_HALF as int) - 4 * u)
}

/// Sine of a normalized angle, in fixed point.
pub open spec fn spec_sin(a: int) -> int {
    if a < ANGLE_HALF as int {
        spec_sin_half(a)
    } else {
        -spec_sin_half(a - ANGLE_HALF as int)
    }
}

/// Cosine of a normalized angle: the sine a quarter turn ahead.
pub open spec fn spec_cos(a: int) -> int {
    spec_sin(spec_add_angle(a, ANGLE_QUARTER as int))
}

/// Wrapping sum of two normalized angles.
pub open spec fn spec_add_angle(a: int, b: int) -> int {
    if a + b < ANGLE_FULL as int {
        a + b
    } else {
        a + b - ANGLE_FULL as int
    }
}

/// Wrapping difference of two normalized angles.
pub open spec fn spec_sub_angle(a: int, b: int) -> int {
    if a - b >= 0 {
        a - b
    } else {
        a - b + ANGLE_FULL as int
    }
}

/// The difference `a - b` folded into the signed range `(-half, half]`.
pub open spec fn spec_signed_diff(a: int, b: int) -> int {
    let d = spec_sub_angle(a, b);
    if d > ANGLE_HALF as int {
        d - ANGLE_FULL as int
    } else {
        d
    }
}

/// Wrapping sum of two normalized angles.
pub fn add_angle(a: i64, b: i64) -> (r: i64)
    requires
        valid_angle(a as int),
        valid_angle(b as int),
    ensures
        r == spec_add_angle(a as int, b as int),
        valid_angle(r as int),
{
    let s = a + b;
    if s < ANGLE_FULL {
        s
    } else {
        s - ANGLE_FULL
    }
}

/// Wrapping difference of two normalized angles.
pub fn sub_angle(a: i64, b: i64) -> (r: i64)
    requires
        valid_angle(a as int),
        valid_angle(b as int),
    ensures
        r == spec_sub_angle(a as int, b as int),
        valid_angle(r as int),
{
    if a >= b {
        a - b
    } else {
        a - b + ANGLE_FULL
    }
}

/// The difference `a - b` as a signed angle in `(-half, half]`.
pub fn signed_diff(a: i64, b: i64) -> (r: i64)
    requires
        valid_angle(a as int),
        valid_angle(b as int),
    ensures
        r == spec_signed_diff(a as int, b as int),
        -(ANGLE_HALF as int) < r <= ANGLE_HALF as int,
{
    let d = sub_angle(a, b);
    if d > ANGLE_HALF {
        d - ANGLE_FULL
    } else {
        d
    }
}

/// A signed angle in `[-half, half]` folded back into `[0, full)`.
pub fn wrap_signed(s: i64) -> (r: i64)
    requires
        -(ANGLE_HALF as int) <= s <= ANGLE_HALF as int,
    ensures
        valid_angle(r as int),
        r == if s >= 0 { s as int } else { s + ANGLE_FULL as int },
{
    if s >= 0 {
        s
    } else {
        s + ANGLE_FULL
    }
}

/// The quadratic form `t * (half - t)` stays within a quarter of `half`
/// squared; this pins the sine approximation inside `[-FP_ONE, FP_ONE]`.
proof fn lemma_hump_bound(t: int)
    requires
        0 <= t <= ANGLE_HALF as int,
    ensures
        0 <= t * (ANGLE_HALF as int - t),
        4 * (t * (ANGLE_HALF as int - t)) <= (ANGLE_HALF as int) * (ANGLE_HALF as int),
{
    assert(0 <= t * (32768int - t) && 4 * (t * (32768int - t)) <= 32768int * 32768int)
        by (nonlinear_arith)
        requires
            0 <= t <= 32768int,
    ;
}

/// The sine approximation on `[0, half]` lies in `[0, FP_ONE]`.
pub proof fn lemma_sin_half_bounds(t: int)
    requires
        0 <= t <= ANGLE_HALF as int,
    ensures
        0 <= spec_sin_half(t) <= FP_ONE as int,
{
    lemma_hump_bound(t);
    let u = t * (ANGLE_HALF as int - t);
    let num = 16 * u * (FP_ONE as int);
    let den = 5 * (ANGLE_HALF as int) * (ANGLE_HALF as int) - 4 * u;
    assert(den >= 4 * (ANGLE_HALF as int) * (ANGLE_HALF as int));
    lemma_div_pos_is_pos(num, den);
    assert(num <= (FP_ONE as int) * den);
    lemma_div_is_ordered(num, (FP_ONE as int) * den, den);
    lemma_div_multiples_vanish(FP_ONE as int, den);
}

/// The sine of every normalized angle lies in `[-FP_ONE, FP_ONE]`.
pub proof fn lemma_sin_bounds(a: int)
    requires
        valid_angle(a),
    ensures
        -(FP_ONE as int) <= spec_sin(a) <= FP_ONE as int,
{
    if a < ANGLE_HALF as int {
        lemma_sin_half_bounds(a);
    } else {
        lemma_sin_half_bounds(a - ANGLE_HALF as int);
    }
}

/// The cosine of every normalized angle lies in `[-FP_ONE, FP_ONE]`.
pub proof fn lemma_cos_bounds(a: int)
    requires
        valid_angle(a),
    ensures
        -(FP_ONE as int) <= spec_cos(a) <= FP_ONE as int,
{
    lemma_sin_bounds(spec_add_angle(a, ANGLE_QUARTER as int));
}

/// The cosine of the zero angle is exactly one.
pub proof fn lemma_cos_zero()
    ensures
        spec_cos(0) == FP_ONE as int,
{
    assert(16384int * (32768int - 16384int) == 268435456int);
    assert(16 * 268435456int * 65536int == 281474976710656int);
    assert(5 * 32768int * 32768int - 4 * 268435456int == 4294967296int);
    assert(281474976710656int / 4294967296int == 65536int);
}

/// The sine of the zero angle is exactly zero.
pub proof fn lemma_sin_zero()
    ensures
        spec_sin(0) == 0,
{
    assert(0int * (32768int - 0int) == 0int);
    assert((16 * 0int * 65536int) / (5 * 32768int * 32768int - 4 * 0int) == 0int);
}

/// Sine of a normalized angle, in fixed point.
pub fn sin_angle(a: i64) -> (r: i64)
    requires
        valid_angle(a as int),
    ensures
        r == spec_sin(a as int),
        -(FP_ONE as int) <= r <= FP_ONE as int,
{
    proof {
        lemma_sin_bounds(a as int);
    }
    if a < ANGLE_HALF {
        sin_half(a)
    } else {
        -sin_half(a - ANGLE_HALF)
    }
}

/// Cosine of a normalized angle, in fixed point.
pub fn cos_angle(a: i64) -> (r: i64)
    requires
        valid_angle(a as int),
    ensures
        r == spec_cos(a as int),
        -(FP_ONE as int) <= r <= FP_ONE as int,
{
    let b = add_angle(a, ANGLE_QUARTER);
    sin_angle(b)
}

/// The rational sine approximation on `[0, half]`.
fn sin_half(t: i64) -> (r: i64)
    requires
        0 <= t <= ANGLE_HALF as int,
    ensures
        r == spec_sin_half(t as int),
{
    proof {
        lemma_hump_bound(t as int);
    }
    let u: i64 = t * (ANGLE_HALF - t);
    let num: i64 = 16 * u * FP_ONE;
    let den: i64 = 5 * ANGLE_HALF * ANGLE_HALF - 4 * u;
    (((num as u64) / (den as u64)) as i64)
}

/// The arctangent correction constant: roughly 0.273 radians in angle units.
pub const ATAN_K: i64 = 2847;

/// Arctangent of a ratio `z` in `[0, FP_ONE]`, in angle units: linear term
/// plus a quadratic correction, exact at both endpoints of the octant.
pub open spec fn spec_atan_octant(z: int) -> int {
    (ANGLE_EIGHTH as int) * z / (FP_ONE as int)
        + (ATAN_K as int) * z * ((FP_ONE as int) - z) / ((FP_ONE as int) * (FP_ONE as int))
}

/// The octant arctangent stays within `[0, quarter)`.
pub proof fn lemma_atan_octant_bounds(z: int)
    requires
        0 <= z <= FP_ONE as int,
    ensures
        0 <= spec_atan_octant(z) < ANGLE_QUARTER as int,
{
    assert(0 <= 8192int * z <= 8192int * 65536int) by (nonlinear_arith)
        requires
            0 <= z <= 65536int,
    ;
    assert(0 <= 2847int * z * (65536int - z) <= 2847int * 65536int * 65536int)
        by (nonlinear_arith)
        requires
            0 <= z <= 65536int,
    ;
    let lin = (ANGLE_EIGHTH as int) * z;
    let quad = (ATAN_K as int) * z * ((FP_ONE as int) - z);
    lemma_div_pos_is_pos(lin, FP_ONE as int);
    lemma_div_pos_is_pos(quad, (FP_ONE as int) * (FP_ONE as int));
    lemma_div_is_ordered(lin, 8192int * 65536int, FP_ONE as int);
    lemma_div_multiples_vanish(8192int, FP_ONE as int);
    lemma_div_is_ordered(quad, 2847int * 65536int * 65536int, (FP_ONE as int) * (FP_ONE as int));
    lemma_div_multiples_vanish(2847int, (FP_ONE as int) * (FP_ONE as int));
}

/// Arctangent of `dy/dx` as a signed angle in `[-half, half]`: octant split
/// on the magnitudes, then placed into the right quadrant by the signs.
pub open spec fn spec_atan2(dy: int, dx: int) -> int {
    let ax = if dx >= 0 { dx } else { -dx };
    let ay = if dy >= 0 { dy } else { -dy };
    if ax == 0 && ay == 0 {
        0
    } else {
        let base = if ay <= ax {
            spec_atan_octant(ay * (FP_ONE as int) / ax)
        } else {
            (ANGLE_QUARTER as int) - spec_atan_octant(ax * (FP_ONE as int) / ay)
        };
        if dx >= 0 && dy >= 0 {
            base
        } else if dx < 0 && dy >= 0 {
            (ANGLE_HALF as int) - base
        } else if dx < 0 {
            -((ANGLE_HALF as int) - base)
        } else {
            -base
        }
    }
}

/// The ratio of the smaller magnitude to the larger stays in `[0, FP_ONE]`.
proof fn lemma_ratio_in_unit(ay: int, ax: int)
    requires
        0 <= ay <= ax,
        0 < ax,
    ensures
        0 <= ay * (FP_ONE as int) / ax <= FP_ONE as int,
{
    assert(0 <= ay * 65536int <= ax * 65536int) by (nonlinear_arith)
        requires
            0 <= ay <= ax,
    ;
    lemma_div_pos_is_pos(ay * (FP_ONE as int), ax);
    lemma_div_is_ordered(ay * (FP_ONE as int), ax * (FP_ONE as int), ax);
    lemma_div_multiples_vanish(FP_ONE as int, ax);
}

/// Arctangent of `dy/dx` as a signed angle in `[-half, half]`.  The angle of
/// a point straight along the positive x axis is exactly zero.
pub fn atan2_angle(dy: i64, dx: i64) -> (r: i64)
    requires
        -0x7fff_ffff <= dy <= 0x7fff_ffff,
        -0x7fff_ffff <= dx <= 0x7fff_ffff,
    ensures
        r == spec_atan2(dy as int, dx as int),
        -(ANGLE_HALF as int) <= r <= ANGLE_HALF as int,
{
    let ax: i64 = if dx >= 0 { dx } else { -dx };
    let ay: i64 = if dy >= 0 { dy } else { -dy };
    if ax == 0 && ay == 0 {
        return 0;
    }
    let base: i64 = if ay <= ax {
        proof {
            lemma_ratio_in_unit(ay as int, ax as int);
        }
        let z: i64 = (ay * FP_ONE) / ax;
        atan_octant(z)
    } else {
        proof {
            lemma_ratio_in_unit(ax as int, ay as int);
        }
        let z: i64 = (ax * FP_ONE) / ay;
        ANGLE_QUARTER - atan_octant(z)
    };
    if dx >= 0 && dy >= 0 {
        base
    } else if dx < 0 && dy >= 0 {
        ANGLE_HALF - base
    } else if dx < 0 {
        -(ANGLE_HALF - base)
    } else {
        -base
    }
}

/// Arctangent of a ratio in `[0, FP_ONE]`, in angle units.
fn atan_octant(z: i64) -> (r: i64)
    requires
        0 <= z <= FP_ONE as int,
    ensures
        r == spec_atan_octant(z as int),
        0 <= r < ANGLE_QUARTER as int,
{
    proof {
        lemma_atan_octant_bounds(z as int);
    }
    let lin: i64 = (ANGLE_EIGHTH * z) / FP_ONE;
    let quad: i64 = (ATAN_K * z * (FP_ONE - z)) / (FP_ONE * FP_ONE);
    lin + quad
}

} // verus!
