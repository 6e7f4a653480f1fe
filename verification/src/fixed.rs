//! Saturating fixed-point arithmetic on signed 64-bit micro-units.
//!
//! A quantity `q` (metres, radians, seconds, thrust) is stored as the `i64`
//! count of millionths, i.e. the number `q * 1_000_000` truncated to an
//! integer. Multiplication and division rescale by [`SCALE`] and truncate
//! toward zero, as the corresponding real-number operations would after
//! rounding; every operation saturates at the `i64` range instead of
//! overflowing, so all functions here are total and deterministic.

use vstd::prelude::*;

verus! {

/// Number of fixed-point steps per whole unit.
pub const SCALE: i64 = 1_000_000;

/// Absolute value of a mathematical integer.
pub open spec fn abs_int(x: int) -> int {
    if x >= 0 {
        x
    } else {
        -x
    }
}

/// Saturation of a mathematical integer to the `i64` range.
pub open spec fn sat_i64(x: int) -> int {
    if x > i64::MAX {
        i64::MAX as int
    } else if x < i64::MIN {
        i64::MIN as int
    } else {
        x
    }
}

/// Quotient of `n / d` truncated toward zero (the rounding Rust's integer
/// division uses), defined for `d != 0`.
pub open spec fn div_trunc(n: int, d: int) -> int {
    let q = abs_int(n) / abs_int(d);
    if (n < 0) == (d < 0) {
        q
    } else {
        -q
    }
}

/// Saturating sum of two fixed-point values.
pub open spec fn spec_add_sat(a: int, b: int) -> int {
    sat_i64(a + b)
}

/// Saturating difference of two fixed-point values.
pub open spec fn spec_sub_sat(a: int, b: int) -> int {
    sat_i64(a - b)
}

/// Saturating negation of a fixed-point value.
pub open spec fn spec_neg_sat(a: int) -> int {
    sat_i64(-a)
}

/// Saturating fixed-point product: `a * b` rescaled by [`SCALE`] and
/// truncated toward zero.
pub open spec fn spec_mul_fx(a: int, b: int) -> int {
    sat_i64(div_trunc(a * b, SCALE as int))
}

/// Saturating fixed-point quotient: `a / b` rescaled by [`SCALE`] and
/// truncated toward zero, defined for `b != 0`.
pub open spec fn spec_div_fx(a: int, b: int) -> int {
    sat_i64(div_trunc(a * (SCALE as int), b))
}

/// A fixed-point product with a zero factor is zero.
pub proof fn lemma_mul_fx_zero(a: int)
    ensures
        spec_mul_fx(a, 0) == 0,
        spec_mul_fx(0, a) == 0,
{
    assert(a * 0 == 0);
    assert(0 * a == 0);
    vstd::arithmetic::div_mod::lemma_basic_div(0, SCALE as int);
}

/// A zero numerator divides to zero.
pub proof fn lemma_div_fx_zero(b: int)
    requires
        b != 0,
    ensures
        spec_div_fx(0, b) == 0,
{
    assert(0 * (SCALE as int) == 0);
    vstd::arithmetic::div_mod::lemma_basic_div(0, abs_int(b));
}

/// Saturates an `i128` intermediate result back to `i64`.
fn sat_from_i128(x: i128) -> (r: i64)
    ensures
        r as int == sat_i64(x as int),
{
    if x > i64::MAX as i128 {
        i64::MAX
    } else if x < i64::MIN as i128 {
        i64::MIN
    } else {
        x as i64
    }
}

/// Saturating addition.
pub fn add_sat(a: i64, b: i64) -> (r: i64)
    ensures
        r as int == spec_add_sat(a as int, b as int),
{
    let s: i128 = a as i128 + b as i128;
    sat_from_i128(s)
}

/// Saturating subtraction.
pub fn sub_sat(a: i64, b: i64) -> (r: i64)
    ensures
        r as int == spec_sub_sat(a as int, b as int),
{
    let s: i128 = a as i128 - b as i128;
    sat_from_i128(s)
}

/// Saturating negation.
pub fn neg_sat(a: i64) -> (r: i64)
    ensures
        r as int == spec_neg_sat(a as int),
{
    let s: i128 = -(a as i128);
    sat_from_i128(s)
}

/// Quotient of `n / d` truncated toward zero, computed on magnitudes so the
/// rounding direction is explicit; saturated to `i64`.
fn div_trunc_sat(n: i128, d: i128) -> (r: i64)
    requires
        d != 0,
        n != i128::MIN,
        d != i128::MIN,
    ensures
        r as int == sat_i64(div_trunc(n as int, d as int)),
{
    let neg: bool = (n < 0) != (d < 0);
    let mag_n: u128 = if n < 0 {
        (-n) as u128
    } else {
        n as u128
    };
    let mag_d: u128 = if d < 0 {
        (-d) as u128
    } else {
        d as u128
    };
    let q: u128 = mag_n / mag_d;
    assert(mag_n as int == abs_int(n as int));
    assert(mag_d as int == abs_int(d as int));
    assert(q as int == abs_int(n as int) / abs_int(d as int)) by {
        vstd::arithmetic::div_mod::lemma_div_pos_is_pos(mag_n as int, mag_d as int);
    };
    assert(q <= mag_n) by {
        vstd::arithmetic::div_mod::lemma_div_is_ordered_by_denominator(
            mag_n as int,
            1,
            mag_d as int,
        );
    };
    let signed_q: i128 = if neg {
        -(q as i128)
    } else {
        q as i128
    };
    sat_from_i128(signed_q)
}

/// Saturating fixed-point multiplication.
pub fn mul_fx(a: i64, b: i64) -> (r: i64)
    ensures
        r as int == spec_mul_fx(a as int, b as int),
{
    assert(-0x4000_0000_0000_0000_0000_0000_0000_0000 <= (a as int) * (b as int) && (a as int) * (
    b as int) <= 0x4000_0000_0000_0000_0000_0000_0000_0000) by (nonlinear_arith)
        requires
            i64::MIN <= a <= i64::MAX,
            i64::MIN <= b <= i64::MAX,
    ;
    let p: i128 = (a as i128) * (b as i128);
    div_trunc_sat(p, SCALE as i128)
}

/// Saturating fixed-point division, defined for `b != 0`.
pub fn div_fx(a: i64, b: i64) -> (r: i64)
    requires
        b != 0,
    ensures
        r as int == spec_div_fx(a as int, b as int),
{
    assert(-0x4000_0000_0000_0000_0000_0000_0000_0000 <= (a as int) * (SCALE as int) && (a as int)
        * (SCALE as int) <= 0x4000_0000_0000_0000_0000_0000_0000_0000) by (nonlinear_arith)
        requires
            i64::MIN <= a <= i64::MAX,
    ;
    let p: i128 = (a as i128) * (SCALE as i128);
    div_trunc_sat(p, b as i128)
}

} // verus!
