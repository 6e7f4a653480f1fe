//! Tests for the single-axis PID regulator.
//!
//! All values are fixed-point micro-units: `1_000_000` is one unit.

use drone_controller::pid::PID_Controller;

/// A fresh regulator stepped once ignores the derivative gain entirely:
/// with error 5.0 and dt 1.0 the output is `kp * 5 + ki * 5`.
#[test]
fn first_call_derivative_is_zero() {
    let mut pid = PID_Controller::new(2_000_000, 1_000_000, 3_000_000);
    let out = pid.ctrl(5_000_000, 1_000_000);
    assert_eq!(out, 15_000_000);
    assert_eq!(pid.integration, 5_000_000);
    assert_eq!(pid.prev_e, Some(5_000_000));
}

/// The second call computes the derivative from the recorded error.
#[test]
fn second_call_uses_derivative() {
    let mut pid = PID_Controller::new(2_000_000, 1_000_000, 3_000_000);
    let _ = pid.ctrl(5_000_000, 1_000_000);
    let out = pid.ctrl(6_000_000, 1_000_000);
    // kp*6 + ki*(5+6) + kd*(6-5)/1 = 12 + 11 + 3 units.
    assert_eq!(out, 26_000_000);
    assert_eq!(pid.integration, 11_000_000);
    assert_eq!(pid.prev_e, Some(6_000_000));
}

/// The same sequence of `(error, dt)` pairs gives the same outputs and the
/// same final state, run to run.
#[test]
fn pid_is_deterministic() {
    let inputs = [
        (5_000_000i64, 1_000_000i64),
        (-2_500_000, 500_000),
        (0, 2_000_000),
        (7_777_777, 333_333),
        (-1, 1),
    ];
    let mut a = PID_Controller::new(123_456, -78_910, 1_112_131);
    let mut b = PID_Controller::new(123_456, -78_910, 1_112_131);
    for (e, dt) in inputs {
        let ra = a.ctrl(e, dt);
        let rb = b.ctrl(e, dt);
        assert_eq!(ra, rb);
    }
    assert_eq!(a, b);
}

/// `new` records the gains and starts with empty accumulator state.
#[test]
fn new_sets_gains_and_empty_state() {
    let pid = PID_Controller::new(1, 2, 3);
    assert_eq!(pid.kp, 1);
    assert_eq!(pid.ki, 2);
    assert_eq!(pid.kd, 3);
    assert_eq!(pid.integration, 0);
    assert_eq!(pid.prev_e, None);
}

/// `from_tuple` is `new` on the three components.
#[test]
fn from_tuple_matches_new() {
    let pid = PID_Controller::from_tuple((4, 5, 6));
    assert_eq!(pid, PID_Controller::new(4, 5, 6));
}

/// The default regulator has all gains zero.
#[test]
fn default_is_all_zero_gains() {
    let pid = PID_Controller::default();
    assert_eq!(pid, PID_Controller::new(0, 0, 0));
}

/// Zero error keeps the integral empty and the output zero, tick after
/// tick.
#[test]
fn zero_error_outputs_zero() {
    let mut pid = PID_Controller::new(8_000_000, 1_000_000, 1_000_000);
    for _ in 0..5 {
        assert_eq!(pid.ctrl(0, 1_000_000), 0);
    }
    assert_eq!(pid.integration, 0);
    assert_eq!(pid.prev_e, Some(0));
}

/// With the opt-in anti-windup limit set, the integral accumulator is
/// clamped to that magnitude after every step; by default it is unbounded.
#[test]
fn integral_limit_clamps_windup() {
    let mut unbounded = PID_Controller::new(0, 1_000_000, 0);
    let mut clamped = PID_Controller::new(0, 1_000_000, 0);
    clamped.integral_limit = Some(1_500_000);
    for _ in 0..3 {
        let _ = unbounded.ctrl(1_000_000, 1_000_000);
        let _ = clamped.ctrl(1_000_000, 1_000_000);
    }
    assert_eq!(unbounded.integration, 3_000_000);
    assert_eq!(clamped.integration, 1_500_000);
    let out = clamped.ctrl(0, 1_000_000);
    assert_eq!(out, 1_500_000);
}

/// A negative anti-windup limit is ignored: the accumulator stays
/// unbounded.
#[test]
fn negative_integral_limit_ignored() {
    let mut pid = PID_Controller::new(0, 1_000_000, 0);
    pid.integral_limit = Some(-5);
    let _ = pid.ctrl(2_000_000, 1_000_000);
    assert_eq!(pid.integration, 2_000_000);
}

/// The integral accumulates error times dt across ticks.
#[test]
fn integral_accumulates() {
    let mut pid = PID_Controller::new(0, 1_000_000, 0);
    let _ = pid.ctrl(1_000_000, 500_000);
    assert_eq!(pid.integration, 500_000);
    let _ = pid.ctrl(1_000_000, 500_000);
    assert_eq!(pid.integration, 1_000_000);
}
