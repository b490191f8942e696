//! Fixed-point trigonometry on milliradian angles.
//!
//! Angles are integers in milliradians; one full turn is `TWO_PI_MR`
//! milliradians. Results are scaled by `SCALE` (so `1000` stands for `1.0`).
//! The sine of an angle in the first half-turn is given by the rational
//! approximation `16*x*(pi - x) / (5*pi^2 - 4*x*(pi - x))`, extended to all
//! angles by periodicity and odd symmetry; the cosine is the sine shifted a
//! quarter turn. The approximation is exact at multiples of a quarter turn.

use vstd::prelude::*;
use vstd::arithmetic::div_mod::{
    lemma_div_is_ordered, lemma_div_multiples_vanish, lemma_fundamental_div_mod,
    lemma_fundamental_div_mod_converse_mod,
};

verus! {

/// Half a turn in milliradians.
pub const PI_MR: i64 = 3142;

/// A quarter turn in milliradians.
pub const HALF_PI_MR: i64 = 1571;

/// A full turn in milliradians.
pub const TWO_PI_MR: i64 = 6284;

/// Largest magnitude of angle the trigonometric functions accept; far more
/// than any rotation the world model can accumulate.
pub const ANGLE_ARG_MAX: i64 = 0x2000_0000_0000_0000;

/// Sine on the first half-turn: `16*x*(pi - x) / (5*pi^2 - 4*x*(pi - x))`,
/// scaled by `SCALE`.
pub open spec fn spec_half_sin(x: int) -> int {
    let t = x * (PI_MR - x);
    (16000 * t) / (49360820 - 4 * t)
}

/// Sine of an angle in milliradians, scaled by `SCALE`: the half-turn
/// approximation extended by periodicity and odd symmetry.
pub open spec fn spec_sin_mr(a: int) -> int {
    let r = a % (TWO_PI_MR as int);
    if r <= PI_MR {
        spec_half_sin(r)
    } else {
        -spec_half_sin(r - PI_MR)
    }
}

/// Cosine of an angle in milliradians, scaled by `SCALE`: the sine shifted a
/// quarter turn.
pub open spec fn spec_cos_mr(a: int) -> int {
    spec_sin_mr(a + HALF_PI_MR)
}

/// The product `x * (pi - x)` peaks at the quarter turn.
proof fn lemma_half_sin_product_bounds(x: int)
    requires
        0 <= x <= PI_MR,
    ensures
        0 <= x * (PI_MR - x) <= 2468041,
{
    assert(0 <= x * (3142 - x) <= 2468041) by (nonlinear_arith)
        requires
            0 <= x <= 3142,
    {
        assert((x - 1571) * (x - 1571) >= 0);
    }
}

/// The half-turn sine stays within one scaled unit.
pub proof fn lemma_half_sin_bounds(x: int)
    requires
        0 <= x <= PI_MR,
    ensures
        0 <= spec_half_sin(x) <= 1000,
{
    lemma_half_sin_product_bounds(x);
    let t = x * (PI_MR - x);
    let num = 16000 * t;
    let den = 49360820 - 4 * t;
    assert(den >= 39488656);
    assert(num <= 1000 * den);
    lemma_div_is_ordered(num, 1000 * den, den);
    lemma_div_multiples_vanish(1000, den);
    lemma_div_is_ordered(0, num, den);
    assert(0int / den == 0);
}

fn half_sin(x: i64) -> (r: i64)
    requires
        0 <= x <= PI_MR,
    ensures
        r == spec_half_sin(x as int),
        0 <= r <= 1000,
{
    proof {
        lemma_half_sin_product_bounds(x as int);
        lemma_half_sin_bounds(x as int);
    }
    let t: i64 = x * (PI_MR - x);
    (16000 * t) / (49360820 - 4 * t)
}

/// Euclidean remainder of an angle by a full turn.
fn reduce_turn(a: i64) -> (r: i64)
    requires
        -ANGLE_ARG_MAX - 2000 <= a <= ANGLE_ARG_MAX + 2000,
    ensures
        r == (a as int) % (TWO_PI_MR as int),
        0 <= r < TWO_PI_MR,
{
    if a >= 0 {
        let m: u64 = (a as u64) % (TWO_PI_MR as u64);
        proof {
            lemma_fundamental_div_mod(a as int, TWO_PI_MR as int);
        }
        m as i64
    } else {
        let n: u64 = ((-a) as u64) % (TWO_PI_MR as u64);
        let r: i64 = if n == 0 {
            0
        } else {
            TWO_PI_MR - (n as i64)
        };
        proof {
            let q = ((-a) as int) / (TWO_PI_MR as int);
            lemma_fundamental_div_mod((-a) as int, TWO_PI_MR as int);
            if n == 0 {
                lemma_fundamental_div_mod_converse_mod(a as int, TWO_PI_MR as int, -q, 0);
            } else {
                lemma_fundamental_div_mod_converse_mod(
                    a as int,
                    TWO_PI_MR as int,
                    -q - 1,
                    TWO_PI_MR - n,
                );
            }
        }
        r
    }
}

/// Sine of an angle in milliradians, scaled by `SCALE`.
pub fn sin_mr(a: i64) -> (r: i64)
    requires
        -ANGLE_ARG_MAX - 2000 <= a <= ANGLE_ARG_MAX + 2000,
    ensures
        r == spec_sin_mr(a as int),
        -1000 <= r <= 1000,
{
    let m = reduce_turn(a);
    if m <= PI_MR {
        half_sin(m)
    } else {
        proof {
            lemma_half_sin_bounds(m - PI_MR);
        }
        -half_sin(m - PI_MR)
    }
}

/// Cosine of an angle in milliradians, scaled by `SCALE`.
pub fn cos_mr(a: i64) -> (r: i64)
    requires
        -ANGLE_ARG_MAX <= a <= ANGLE_ARG_MAX,
    ensures
        r == spec_cos_mr(a as int),
        -1000 <= r <= 1000,
{
    sin_mr(a + HALF_PI_MR)
}

} // verus!
