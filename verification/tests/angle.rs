//! Tests for angle wrapping and range clamping.
//!
//! Angles are micro-radians: `PI_FX = 3_141_593` is a half turn.

use drone_controller::angle::restraint_in_range;
use drone_controller::angle::sub_angle;
use drone_controller::angle::PI_FX;
use drone_controller::angle::TWO_PI_FX;

/// 179 degrees in micro-radians.
const DEG_179: i64 = 3_124_139;

/// Crossing the boundary: the difference between 179 and -179 degrees is a
/// small angle of magnitude about 2 degrees (negative, going the short way
/// round), never about 358 degrees.
#[test]
fn wrap_crosses_pi_boundary() {
    let wrapped = sub_angle(DEG_179, -DEG_179);
    // 358 degrees normalized: 6_248_278 - TWO_PI_FX.
    assert_eq!(wrapped, -34_908);
    assert!(wrapped.abs() < 100_000);
}

/// The difference of equal angles is zero.
#[test]
fn wrap_of_zero_is_zero() {
    assert_eq!(sub_angle(0, 0), 0);
    assert_eq!(sub_angle(DEG_179, DEG_179), 0);
    assert_eq!(sub_angle(-PI_FX, -PI_FX), 0);
}

/// A full turn wraps back to zero, in both directions.
#[test]
fn wrap_full_turn_is_zero() {
    assert_eq!(sub_angle(PI_FX, -PI_FX), 0);
    assert_eq!(sub_angle(-PI_FX, PI_FX), 0);
    assert_eq!(sub_angle(TWO_PI_FX, 0), 0);
    assert_eq!(sub_angle(0, TWO_PI_FX), 0);
}

/// The wrapped difference always lies in `(-PI_FX, PI_FX]`.
#[test]
fn wrap_stays_in_range() {
    let samples = [
        0i64,
        1,
        -1,
        PI_FX,
        -PI_FX,
        TWO_PI_FX,
        -TWO_PI_FX,
        10 * TWO_PI_FX + 17,
        -10 * TWO_PI_FX - 17,
        1_000 * TWO_PI_FX + 123_456,
        -1_000 * TWO_PI_FX - 654_321,
    ];
    for &x in &samples {
        for &y in &samples {
            let w = sub_angle(x, y);
            assert!(-PI_FX < w && w <= PI_FX, "{} - {} wrapped to {}", x, y, w);
        }
    }
}

/// An in-range difference is returned unchanged.
#[test]
fn wrap_identity_in_range() {
    assert_eq!(sub_angle(500_000, 200_000), 300_000);
    assert_eq!(sub_angle(-500_000, 200_000), -700_000);
    assert_eq!(sub_angle(PI_FX, 0), PI_FX);
}

/// Clamping: inside the interval the value is unchanged, outside it
/// saturates to the nearer bound.
#[test]
fn clamp_within_and_outside() {
    let lo: i64 = -3_000_000;
    let hi: i64 = 3_000_000;
    assert_eq!(restraint_in_range(0, lo, hi), 0);
    assert_eq!(restraint_in_range(hi, lo, hi), hi);
    assert_eq!(restraint_in_range(lo, lo, hi), lo);
    assert_eq!(restraint_in_range(hi + 1, lo, hi), hi);
    assert_eq!(restraint_in_range(lo - 1, lo, hi), lo);
    assert_eq!(restraint_in_range(i64::MAX, lo, hi), hi);
    assert_eq!(restraint_in_range(i64::MIN, lo, hi), lo);
}

/// Clamping respects both bounds independently, also on one-sided and
/// degenerate intervals.
#[test]
fn clamp_degenerate_interval() {
    assert_eq!(restraint_in_range(5, 7, 7), 7);
    assert_eq!(restraint_in_range(9, 7, 7), 7);
    assert_eq!(restraint_in_range(7, 7, 7), 7);
    assert_eq!(restraint_in_range(-10, -20, -15), -15);
    assert_eq!(restraint_in_range(-17, -20, -15), -17);
    assert_eq!(restraint_in_range(-30, -20, -15), -20);
}
