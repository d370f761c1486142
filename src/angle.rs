//! Angles in binary units and fixed-point trigonometry.
//!
//! A full turn is `FULL_TURN` units. Heading 0 points "up" (towards negative
//! y) and angles grow clockwise. Sines and cosines are fixed-point numbers
//! with `ONE` standing for 1.

use vstd::prelude::*;
use vstd::arithmetic::div_mod::{lemma_div_by_multiple, lemma_div_is_ordered, lemma_div_pos_is_pos};

verus! {

/// Angle units in one full turn.
pub const FULL_TURN: i64 = 65536;

/// Angle units in half a turn.
pub const HALF_TURN: i64 = 32768;

/// Angle units in a quarter turn.
pub const QUARTER_TURN: i64 = 16384;

/// Angle units in an eighth of a turn.
pub const EIGHTH_TURN: i64 = 8192;

/// The fixed-point value of 1 for sines and cosines.
pub const ONE: i64 = 16384;

/// Resolution of the tangent ratio fed to the arctangent approximation.
pub const RATIO_SCALE: i64 = 65536;

/// Curvature term of the arctangent approximation, in angle units.
pub const ATAN_BEND: i64 = 2847;

/// Largest magnitude accepted by `atan2` for either coordinate.
pub const MAX_ATAN_ARG: i128 = 0x1_0000_0000_0000_0000_0000_0000;

/// Integer division rounding toward zero.
pub open spec fn tdiv(a: int, d: int) -> int {
    if a >= 0 {
        a / d
    } else {
        -((-a) / d)
    }
}

/// Integer division rounding to the nearest integer, halves away from zero.
pub open spec fn rdiv(a: int, d: int) -> int {
    if a >= 0 {
        (a + d / 2) / d
    } else {
        -((-a + d / 2) / d)
    }
}

pub open spec fn abs(a: int) -> int {
    if a >= 0 {
        a
    } else {
        -a
    }
}

/// Fixed-point scale of the sine polynomial: its argument and coefficients.
pub const POLY_SCALE: i128 = 0x4000_0000;

/// Coefficients of the sine series in `x = u / QUARTER_TURN`:
/// `(pi/2)^k / k!` for k = 1, 3, 5, 7, 9, scaled by `POLY_SCALE`.
pub const SINE_C1: i128 = 1686629713;

pub const SINE_C3: i128 = 693598668;

pub const SINE_C5: i128 = 85569306;

pub const SINE_C7: i128 = 5026995;

pub const SINE_C9: i128 = 172272;

/// One Horner step of the series: `c - x2 * t`, in `POLY_SCALE` fixed point.
pub open spec fn horner(c: int, x2: int, t: int) -> int {
    c - x2 * t / (POLY_SCALE as int)
}

/// Sine on a quarter turn `[0, QUARTER_TURN]`: the series up to the ninth
/// power, rounded to `ONE` fixed point and capped at `ONE`.
pub open spec fn quarter_sine(u: int) -> int {
    let x = u * (POLY_SCALE as int / QUARTER_TURN as int);
    let x2 = x * x / (POLY_SCALE as int);
    let t = horner(
        SINE_C1 as int,
        x2,
        horner(SINE_C3 as int, x2, horner(SINE_C5 as int, x2, horner(SINE_C7 as int, x2, SINE_C9 as int))),
    );
    let shift = POLY_SCALE as int / ONE as int;
    let r = (x * t / (POLY_SCALE as int) + shift / 2) / shift;
    if r > ONE {
        ONE as int
    } else {
        r
    }
}

/// Sine on a half turn `[0, HALF_TURN]`, symmetric about the quarter turn.
pub open spec fn half_sine(u: int) -> int {
    if u <= QUARTER_TURN {
        quarter_sine(u)
    } else {
        quarter_sine(HALF_TURN - u)
    }
}

/// Fixed-point sine of an angle given in units.
pub open spec fn sine(a: int) -> int {
    let u = a % (FULL_TURN as int);
    if u <= HALF_TURN {
        half_sine(u)
    } else {
        -half_sine(u - HALF_TURN)
    }
}

/// Fixed-point cosine: the sine a quarter turn ahead.
pub open spec fn cosine(a: int) -> int {
    sine(a + QUARTER_TURN)
}

/// A quotient of a non-negative `n` that is at most `c * d` lies in `[0, c]`.
pub(crate) proof fn lemma_div_between(n: int, d: int, c: int)
    requires
        0 <= n <= c * d,
        0 < d,
        0 <= c,
    ensures
        0 <= n / d <= c,
{
    lemma_div_is_ordered(n, c * d, d);
    lemma_div_by_multiple(c, d);
    lemma_div_pos_is_pos(n, d);
}

proof fn lemma_horner_bounds(c: int, x2: int, t: int)
    requires
        0 <= x2 <= POLY_SCALE,
        0 <= t,
    ensures
        c - t <= horner(c, x2, t) <= c,
{
    assert(x2 * t <= t * POLY_SCALE) by (nonlinear_arith)
        requires
            0 <= x2 <= POLY_SCALE,
            0 <= t,
    ;
    assert(0 <= x2 * t) by (nonlinear_arith)
        requires
            0 <= x2,
            0 <= t,
    ;
    lemma_div_between(x2 * t, POLY_SCALE as int, t);
}

fn horner_exec(c: i128, x2: i128, t: i128) -> (r: i128)
    requires
        0 <= x2 <= POLY_SCALE,
        0 <= t <= c <= SINE_C1,
    ensures
        r == horner(c as int, x2 as int, t as int),
        c - t <= r <= c,
{
    proof {
        lemma_horner_bounds(c as int, x2 as int, t as int);
        assert(x2 * t <= POLY_SCALE * SINE_C1) by (nonlinear_arith)
            requires
                0 <= x2 <= POLY_SCALE,
                0 <= t <= SINE_C1,
        ;
        assert(0 <= x2 * t) by (nonlinear_arith)
            requires
                0 <= x2,
                0 <= t,
        ;
    }
    c - x2 * t / POLY_SCALE
}

fn quarter_sine_exec(u: i64) -> (r: i64)
    requires
        0 <= u <= QUARTER_TURN,
    ensures
        r == quarter_sine(u as int),
        0 <= r <= ONE,
{
    let x: i128 = (u as i128) * (POLY_SCALE / QUARTER_TURN as i128);
    proof {
        assert(0 <= x * x <= POLY_SCALE * POLY_SCALE) by (nonlinear_arith)
            requires
                0 <= x <= POLY_SCALE,
        ;
        lemma_div_between(x * x, POLY_SCALE as int, POLY_SCALE as int);
    }
    let x2: i128 = x * x / POLY_SCALE;
    let t9: i128 = SINE_C9;
    let t7: i128 = horner_exec(SINE_C7, x2, t9);
    let t5: i128 = horner_exec(SINE_C5, x2, t7);
    let t3: i128 = horner_exec(SINE_C3, x2, t5);
    let t1: i128 = horner_exec(SINE_C1, x2, t3);
    proof {
        assert(0 <= x * t1 <= POLY_SCALE * SINE_C1) by (nonlinear_arith)
            requires
                0 <= x <= POLY_SCALE,
                0 <= t1 <= SINE_C1,
        ;
        lemma_div_between(x * t1, POLY_SCALE as int, SINE_C1 as int);
    }
    let shift: i128 = POLY_SCALE / (ONE as i128);
    let y: i128 = x * t1 / POLY_SCALE;
    proof {
        lemma_div_pos_is_pos(y + shift / 2, shift as int);
    }
    let r: i128 = (y + shift / 2) / shift;
    if r > ONE as i128 {
        ONE
    } else {
        r as i64
    }
}

/// The sine is exactly 0 at angle 0 and exactly `ONE` at a quarter turn.
pub proof fn lemma_sine_at_zero_and_quarter()
    ensures
        sine(0) == 0,
        sine(QUARTER_TURN as int) == ONE,
{
    let sc = POLY_SCALE as int;
    assert(0int % (FULL_TURN as int) == 0);
    assert(QUARTER_TURN as int % (FULL_TURN as int) == QUARTER_TURN);
    assert(quarter_sine(0) == 0) by {
        assert(0int * (sc / QUARTER_TURN as int) == 0);
        vstd::arithmetic::div_mod::lemma_div_of0(sc);
        assert(0int * 0int == 0);
        let t = horner(
            SINE_C1 as int,
            0,
            horner(SINE_C3 as int, 0, horner(SINE_C5 as int, 0, horner(SINE_C7 as int, 0, SINE_C9 as int))),
        );
        assert(0 * t == 0);
        vstd::arithmetic::div_mod::lemma_basic_div(sc / ONE as int / 2, sc / ONE as int);
    }
    assert(quarter_sine(QUARTER_TURN as int) == ONE) by {
        let x = QUARTER_TURN * (sc / QUARTER_TURN as int);
        assert(x == sc);
        vstd::arithmetic::div_mod::lemma_div_by_multiple(sc, sc);
        assert(x * x / sc == sc);
        let t7 = SINE_C7 - SINE_C9;
        vstd::arithmetic::div_mod::lemma_div_by_multiple(SINE_C9 as int, sc);
        assert(horner(SINE_C7 as int, sc, SINE_C9 as int) == t7);
        let t5 = SINE_C5 - t7;
        vstd::arithmetic::div_mod::lemma_div_by_multiple(t7, sc);
        assert(horner(SINE_C5 as int, sc, t7) == t5);
        let t3 = SINE_C3 - t5;
        vstd::arithmetic::div_mod::lemma_div_by_multiple(t3, sc);
        vstd::arithmetic::div_mod::lemma_div_by_multiple(t5, sc);
        assert(horner(SINE_C3 as int, sc, t5) == t3);
        let t1 = SINE_C1 - t3;
        assert(horner(SINE_C1 as int, sc, t3) == t1);
        assert(t1 == 1073745628);
        vstd::arithmetic::div_mod::lemma_div_by_multiple(t1, sc);
        assert(x * t1 / sc == t1);
        vstd::arithmetic::div_mod::lemma_div_multiples_vanish_fancy(16384, 36572, 65536);
        assert((t1 + 32768) / 65536 == 16384);
    }
}

fn half_sine_exec(u: i64) -> (r: i64)
    requires
        0 <= u <= HALF_TURN,
    ensures
        r == half_sine(u as int),
        0 <= r <= ONE,
{
    if u <= QUARTER_TURN {
        quarter_sine_exec(u)
    } else {
        quarter_sine_exec(HALF_TURN - u)
    }
}

/// Fixed-point sine of an angle in `[0, FULL_TURN)`.
pub fn sin(a: i64) -> (r: i64)
    requires
        0 <= a < FULL_TURN,
    ensures
        r == sine(a as int),
        -ONE <= r <= ONE,
{
    if a <= HALF_TURN {
        half_sine_exec(a)
    } else {
        -half_sine_exec(a - HALF_TURN)
    }
}

/// Fixed-point cosine of an angle in `[0, FULL_TURN)`.
pub fn cos(a: i64) -> (r: i64)
    requires
        0 <= a < FULL_TURN,
    ensures
        r == cosine(a as int),
        -ONE <= r <= ONE,
{
    let b: i64 = if a + QUARTER_TURN < FULL_TURN {
        a + QUARTER_TURN
    } else {
        a + QUARTER_TURN - FULL_TURN
    };
    proof {
        assert(b as int == (a + QUARTER_TURN) % (FULL_TURN as int));
    }
    sin(b)
}

/// Arctangent of `n / d` for `0 <= n <= d` and `0 < d`: a rational
/// approximation, exact at both ends of the first octant `[0, EIGHTH_TURN]`.
pub open spec fn octant_atan(n: int, d: int) -> int {
    let t = n * RATIO_SCALE / d;
    (EIGHTH_TURN * RATIO_SCALE * t + ATAN_BEND * t * (RATIO_SCALE - t)) / (RATIO_SCALE
        * RATIO_SCALE)
}

/// Angle of the point `(x, y)` measured from the positive x axis towards the
/// positive y axis, in `[-HALF_TURN, HALF_TURN]`; the origin has angle 0.
pub open spec fn angle_of(y: int, x: int) -> int {
    if x == 0 && y == 0 {
        0
    } else {
        let a1 = if abs(y) <= abs(x) {
            octant_atan(abs(y), abs(x))
        } else {
            QUARTER_TURN - octant_atan(abs(x), abs(y))
        };
        let a2 = if x < 0 {
            HALF_TURN - a1
        } else {
            a1
        };
        if y < 0 {
            -a2
        } else {
            a2
        }
    }
}

fn octant_atan_exec(n: i128, d: i128) -> (r: i128)
    requires
        0 <= n <= d <= MAX_ATAN_ARG,
        0 < d,
    ensures
        r == octant_atan(n as int, d as int),
        0 <= r <= EIGHTH_TURN,
        n == 0 ==> r == 0,
{
    proof {
        assert(n * RATIO_SCALE <= d * RATIO_SCALE) by (nonlinear_arith)
            requires
                n <= d,
        ;
        assert(0 <= n * RATIO_SCALE) by (nonlinear_arith)
            requires
                0 <= n,
        ;
        lemma_div_between(n * RATIO_SCALE, d as int, RATIO_SCALE as int);
    }
    let t: i128 = n * (RATIO_SCALE as i128) / d;
    let scale: i128 = RATIO_SCALE as i128;
    proof {
        assert(0 <= t * (scale - t) <= scale * scale) by (nonlinear_arith)
            requires
                0 <= t <= scale,
        ;
        assert(0 <= EIGHTH_TURN * scale * t <= EIGHTH_TURN * scale * scale) by (nonlinear_arith)
            requires
                0 <= t <= scale,
                scale == RATIO_SCALE,
        ;
    }
    let num: i128 = (EIGHTH_TURN as i128) * scale * t + (ATAN_BEND as i128) * (t * (scale - t));
    proof {
        assert(num <= EIGHTH_TURN * (scale * scale)) by (nonlinear_arith)
            requires
                num == EIGHTH_TURN * scale * t + ATAN_BEND * (t * (scale - t)),
                0 <= t <= scale,
                scale == RATIO_SCALE,
        ;
        assert(0 <= num) by (nonlinear_arith)
            requires
                num == EIGHTH_TURN * scale * t + ATAN_BEND * (t * (scale - t)),
                0 <= t <= scale,
                scale == RATIO_SCALE,
        ;
        assert(ATAN_BEND * t * (scale - t) == ATAN_BEND * (t * (scale - t))) by (nonlinear_arith);
        lemma_div_between(num as int, scale * scale, EIGHTH_TURN as int);
        if n == 0 {
            assert(t == 0);
            assert(num == 0);
        }
    }
    num / (scale * scale)
}

/// Angle of the point `(x, y)` from the positive x axis, as `f64::atan2`
/// measures it, in angle units; `atan2(0, 0)` is 0.
pub fn atan2(y: i128, x: i128) -> (r: i64)
    requires
        -MAX_ATAN_ARG <= y <= MAX_ATAN_ARG,
        -MAX_ATAN_ARG <= x <= MAX_ATAN_ARG,
    ensures
        r == angle_of(y as int, x as int),
        -HALF_TURN <= r <= HALF_TURN,
        y > 0 ==> r >= 0,
        y < 0 ==> r <= 0,
        y == 0 && x >= 0 ==> r == 0,
        y == 0 && x < 0 ==> r == HALF_TURN,
        x == 0 && y > 0 ==> r == QUARTER_TURN,
        x == 0 && y < 0 ==> r == -QUARTER_TURN,
{
    if x == 0 && y == 0 {
        return 0;
    }
    let ax: i128 = if x >= 0 {
        x
    } else {
        -x
    };
    let ay: i128 = if y >= 0 {
        y
    } else {
        -y
    };
    let a1: i128 = if ay <= ax {
        octant_atan_exec(ay, ax)
    } else {
        (QUARTER_TURN as i128) - octant_atan_exec(ax, ay)
    };
    let a2: i128 = if x < 0 {
        (HALF_TURN as i128) - a1
    } else {
        a1
    };
    let r: i128 = if y < 0 {
        -a2
    } else {
        a2
    };
    r as i64
}

/// Integer division rounding toward zero, as Rust's `/` does.
pub fn div_toward_zero(a: i128, d: i128) -> (r: i128)
    requires
        a > i128::MIN,
        d > 0,
    ensures
        r == tdiv(a as int, d as int),
        abs(r as int) <= abs(a as int),
        a >= 0 ==> r >= 0,
        a <= 0 ==> r <= 0,
{
    if a >= 0 {
        proof {
            lemma_div_is_ordered(0, a as int, d as int);
            vstd::arithmetic::div_mod::lemma_div_nonincreasing(a as int, d as int);
        }
        a / d
    } else {
        proof {
            vstd::arithmetic::div_mod::lemma_div_nonincreasing(-a, d as int);
            lemma_div_pos_is_pos(-a, d as int);
        }
        -((-a) / d)
    }
}

/// The remainder of `v` modulo `m` in `[0, m)`, also for negative `v`.
pub fn wrap(v: i64, m: i64) -> (r: i64)
    requires
        m > 0,
    ensures
        r == v % m,
        0 <= r < m,
{
    match v.checked_rem_euclid(m) {
        Some(r) => r,
        None => 0,
    }
}

/// Integer division rounding to the nearest integer, halves away from zero.
pub fn div_round(a: i128, d: i128) -> (r: i128)
    requires
        -0x1000_0000_0000_0000_0000_0000_0000_0000 <= a <= 0x1000_0000_0000_0000_0000_0000_0000_0000,
        0 < d <= 0x1000_0000_0000_0000_0000_0000_0000_0000,
    ensures
        r == rdiv(a as int, d as int),
        abs(r as int) == (abs(a as int) + d as int / 2) / (d as int),
        a >= 0 ==> r >= 0,
        a <= 0 ==> r <= 0,
{
    if a >= 0 {
        proof {
            lemma_div_pos_is_pos(a + d / 2, d as int);
            if a == 0 {
                vstd::arithmetic::div_mod::lemma_basic_div(d / 2, d as int);
            }
        }
        (a + d / 2) / d
    } else {
        proof {
            lemma_div_pos_is_pos(-a + d / 2, d as int);
        }
        -((-a + d / 2) / d)
    }
}

} // verus!
