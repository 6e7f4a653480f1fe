//! Angle utilities: wrapped angular difference and range clamping.
//!
//! Angles are fixed-point radians (micro-radians, see [`crate::fixed`]).
//! [`sub_angle`] normalizes the difference of two angles into the half-open
//! interval `(-pi, pi]`, so a regulator never sees a spurious jump when an
//! angle crosses the `+-pi` boundary. [`restraint_in_range`] saturates a
//! value to a closed interval.

use vstd::prelude::*;

use crate::fixed::spec_sub_sat;
use crate::fixed::sub_sat;

verus! {

/// One half turn (pi radians) in micro-radians, rounded to the nearest step.
pub const PI_FX: i64 = 3_141_593;

/// One full turn (two pi radians) in micro-radians.
pub const TWO_PI_FX: i64 = 2 * PI_FX;

/// The unique value congruent to `d` modulo a full turn that lies in the
/// half-open interval `(-PI_FX, PI_FX]`.
pub open spec fn spec_wrapped(d: int) -> int {
    d - (TWO_PI_FX as int) * ((d + (PI_FX as int) - 1) / (TWO_PI_FX as int))
}

/// The wrapped angle lies in `(-PI_FX, PI_FX]` and differs from the original
/// by a whole number of turns.
pub proof fn lemma_wrapped_in_range(d: int)
    ensures
        -(PI_FX as int) < spec_wrapped(d) <= PI_FX as int,
        (d - spec_wrapped(d)) % (TWO_PI_FX as int) == 0,
{
    let two_pi = TWO_PI_FX as int;
    let q = (d + (PI_FX as int) - 1) / two_pi;
    vstd::arithmetic::div_mod::lemma_fundamental_div_mod(d + (PI_FX as int) - 1, two_pi);
    vstd::arithmetic::div_mod::lemma_mod_bound(d + (PI_FX as int) - 1, two_pi);
    assert(d - spec_wrapped(d) == two_pi * q);
    vstd::arithmetic::div_mod::lemma_mod_multiples_basic(q, two_pi);
}

/// Wrapping is invariant under shifting the input by a full turn.
pub proof fn lemma_wrapped_shift(d: int)
    ensures
        spec_wrapped(d + TWO_PI_FX as int) == spec_wrapped(d),
        spec_wrapped(d - TWO_PI_FX as int) == spec_wrapped(d),
{
    let two_pi = TWO_PI_FX as int;
    let e = d + (PI_FX as int) - 1;
    vstd::arithmetic::div_mod::lemma_div_plus_one(e, two_pi);
    vstd::arithmetic::div_mod::lemma_div_minus_one(e, two_pi);
    assert(two_pi * (e / two_pi + 1) == two_pi * (e / two_pi) + two_pi) by (nonlinear_arith);
    assert(two_pi * (e / two_pi - 1) == two_pi * (e / two_pi) - two_pi) by (nonlinear_arith);
}

/// A value already in `(-PI_FX, PI_FX]` wraps to itself.
pub proof fn lemma_wrapped_fixed(w: int)
    requires
        -(PI_FX as int) < w <= PI_FX as int,
    ensures
        spec_wrapped(w) == w,
{
    let two_pi = TWO_PI_FX as int;
    vstd::arithmetic::div_mod::lemma_basic_div(w + (PI_FX as int) - 1, two_pi);
}

/// Returns the angular difference `x - y` normalized into `(-PI_FX, PI_FX]`
/// by repeatedly adding or subtracting a full turn. The raw difference
/// saturates at the `i64` range before normalization.
pub fn sub_angle(x: i64, y: i64) -> (r: i64)
    ensures
        r as int == spec_wrapped(spec_sub_sat(x as int, y as int)),
        -PI_FX < r <= PI_FX,
{
    let d: i64 = sub_sat(x, y);
    let mut a: i64 = d;
    while a <= -PI_FX
        invariant
            spec_wrapped(a as int) == spec_wrapped(d as int),
        decreases i64::MAX as int - a as int,
    {
        proof {
            lemma_wrapped_shift(a as int);
        }
        a = a + TWO_PI_FX;
    }
    while a > PI_FX
        invariant
            spec_wrapped(a as int) == spec_wrapped(d as int),
            a > -PI_FX,
        decreases a as int - i64::MIN as int,
    {
        proof {
            lemma_wrapped_shift(a as int);
        }
        a = a - TWO_PI_FX;
    }
    proof {
        lemma_wrapped_fixed(a as int);
        assert(spec_sub_sat(x as int, y as int) == d as int);
    }
    a
}

/// Saturates `x` to the closed interval `[low, high]`: values above `high`
/// map to `high`, values below `low` map to `low`, and values inside the
/// interval are returned unchanged.
pub open spec fn spec_clamp(x: int, low: int, high: int) -> int {
    if high < x {
        high
    } else if x < low {
        low
    } else {
        x
    }
}

/// Clamps `x` into the closed interval `[low, high]`.
pub fn restraint_in_range(x: i64, low: i64, high: i64) -> (r: i64)
    requires
        low <= high,
    ensures
        r as int == spec_clamp(x as int, low as int, high as int),
        low <= r <= high,
        x > high ==> r == high,
        x < low ==> r == low,
        low <= x <= high ==> r == x,
{
    if high < x {
        high
    } else if x < low {
        low
    } else {
        x
    }
}

} // verus!
