//! Tests for the flight-controller cascade and the motor mixer.

use drone_controller::config::ConfigError;
use drone_controller::config::PidName;
use drone_controller::controller::mix_motors;
use drone_controller::controller::Attitude;
use drone_controller::controller::Controller;
use drone_controller::controller::MotorThrusts;
use drone_controller::controller::Vec3;
use drone_controller::pid::PID_Controller;

const DT_ONE: i64 = 1_000_000;

fn level() -> Attitude {
    Attitude { roll: 0, pitch: 0, yaw: 0 }
}

/// A proportional-only controller with unit gains on every axis, for
/// hand-computable outputs.
fn unit_controller() -> Controller {
    Controller {
        x_pid: PID_Controller::new(1_000_000, 0, 0),
        z_pid: PID_Controller::new(1_000_000, 0, 0),
        roll_pid: PID_Controller::new(1_000_000, 0, 0),
        pitch_pid: PID_Controller::new(1_000_000, 0, 0),
        yaw_pid: PID_Controller::new(1_000_000, 0, 0),
        h_pid: PID_Controller::new(1_000_000, 0, 0),
        yaw_enabled: false,
    }
}

/// Mixer symmetry for roll and thrust only: the right motors get
/// `thrust + roll`, the left motors `thrust - roll`, front equal to rear.
#[test]
fn mixer_roll_symmetry() {
    let m = mix_motors(2_000_000, 500_000, 0, 0);
    assert_eq!(
        m,
        MotorThrusts {
            front_right: 2_500_000,
            front_left: 1_500_000,
            rear_right: 2_500_000,
            rear_left: 1_500_000,
        }
    );
}

/// Pitch tilts front against rear.
#[test]
fn mixer_pitch_symmetry() {
    let m = mix_motors(2_000_000, 0, 500_000, 0);
    assert_eq!(
        m,
        MotorThrusts {
            front_right: 2_500_000,
            front_left: 2_500_000,
            rear_right: 1_500_000,
            rear_left: 1_500_000,
        }
    );
}

/// Yaw splits the diagonal pairs: front-right with rear-left against
/// front-left with rear-right.
#[test]
fn mixer_yaw_splits_diagonals() {
    let m = mix_motors(2_000_000, 0, 0, 500_000);
    assert_eq!(
        m,
        MotorThrusts {
            front_right: 2_500_000,
            front_left: 1_500_000,
            rear_right: 1_500_000,
            rear_left: 2_500_000,
        }
    );
}

/// Each motor output is clamped to the motor thrust range as the final
/// step.
#[test]
fn mixer_clamps_each_output() {
    let m = mix_motors(6_000_000, 0, 0, 0);
    assert_eq!(m.front_right, 5_000_000);
    assert_eq!(m.front_left, 5_000_000);
    assert_eq!(m.rear_right, 5_000_000);
    assert_eq!(m.rear_left, 5_000_000);
    let m = mix_motors(-6_000_000, 0, 0, 0);
    assert_eq!(m.front_right, -5_000_000);
    let m = mix_motors(4_000_000, 3_000_000, 0, 0);
    assert_eq!(m.front_right, 5_000_000);
    assert_eq!(m.front_left, 1_000_000);
}

/// One full cascade tick with proportional unit gains, computed by hand.
#[test]
fn cascade_tick_exact_values() {
    let mut c = unit_controller();
    let target = Vec3 { x: 1_000_000, y: 2_000_000, z: 500_000 };
    let pos = Vec3 { x: 0, y: 0, z: 0 };
    let out = c.ctrl_drone(&target, &pos, &level(), DT_ONE).unwrap();
    // desired_roll = 0.5; desired_pitch = clamp(-1.0) = -0.523598;
    // roll_cmd = 0.5, pitch_cmd = -0.523598, thrust_cmd = 2.0.
    assert_eq!(
        out,
        MotorThrusts {
            front_right: 1_976_402,
            front_left: 976_402,
            rear_right: 3_023_598,
            rear_left: 2_023_598,
        }
    );
}

/// Zero-error steady state: with the target at the current pose and a
/// level attitude, every motor output is zero and stays zero.
#[test]
fn hover_steady_state() {
    let mut c = Controller::new();
    let here = Vec3 { x: 3_000_000, y: 7_000_000, z: -2_000_000 };
    for _ in 0..10 {
        let out = c.ctrl_drone(&here, &here, &level(), DT_ONE).unwrap();
        assert_eq!(
            out,
            MotorThrusts { front_right: 0, front_left: 0, rear_right: 0, rear_left: 0 }
        );
    }
    assert_eq!(c.h_pid.integration, 0);
}

/// A zero time step is a complete no-op: no output, and every accumulator
/// keeps the value it had after the previous tick.
#[test]
fn zero_dt_is_a_no_op() {
    let mut c = Controller::new();
    let target = Vec3 { x: 1_000_000, y: 2_000_000, z: 500_000 };
    let pos = Vec3 { x: -500_000, y: 1_000_000, z: 250_000 };
    let att = Attitude { roll: 100_000, pitch: -50_000, yaw: 25_000 };
    let _ = c.ctrl_drone(&target, &pos, &att, DT_ONE).unwrap();
    let snapshot = c.clone();
    let out = c.ctrl_drone(&target, &pos, &att, 0);
    assert!(out.is_none());
    assert_eq!(c, snapshot);
}

/// The whole cascade is deterministic: identical controllers fed the same
/// tick sequence produce identical outputs and states.
#[test]
fn cascade_is_deterministic() {
    let mut a = Controller::new();
    let mut b = Controller::new();
    let ticks = [
        (Vec3 { x: 1, y: 2, z: 3 }, Vec3 { x: 0, y: 0, z: 0 }, 50_000i64),
        (Vec3 { x: -1_000_000, y: 5_000_000, z: 0 }, Vec3 { x: 7, y: -7, z: 7 }, 16_667),
        (Vec3 { x: 0, y: 0, z: 0 }, Vec3 { x: 0, y: 0, z: 0 }, 1),
    ];
    let att = Attitude { roll: 12_345, pitch: -54_321, yaw: 98_765 };
    for (target, pos, dt) in ticks {
        assert_eq!(a.ctrl_drone(&target, &pos, &att, dt), b.ctrl_drone(&target, &pos, &att, dt));
    }
    assert_eq!(a, b);
}

/// With yaw regulation off the yaw regulator never advances.
#[test]
fn yaw_disabled_leaves_yaw_pid_untouched() {
    let mut c = Controller::new();
    let target = Vec3 { x: 1_000_000, y: 0, z: 0 };
    let pos = Vec3 { x: 0, y: 0, z: 0 };
    let att = Attitude { roll: 0, pitch: 0, yaw: 500_000 };
    let _ = c.ctrl_drone(&target, &pos, &att, DT_ONE).unwrap();
    assert_eq!(c.yaw_pid, Controller::new().yaw_pid);
}

/// With yaw regulation on, the controller holds the zero heading: a pure
/// yaw offset yields the diagonal split with the expected sign.
#[test]
fn yaw_enabled_holds_heading() {
    let mut c = unit_controller();
    c.yaw_enabled = true;
    let origin = Vec3 { x: 0, y: 0, z: 0 };
    let att = Attitude { roll: 0, pitch: 0, yaw: -500_000 };
    // yaw error = wrap(0 - (-0.5)) = 0.5, so yaw_cmd = 0.5.
    let out = c.ctrl_drone(&origin, &origin, &att, DT_ONE).unwrap();
    assert_eq!(
        out,
        MotorThrusts {
            front_right: 500_000,
            front_left: -500_000,
            rear_right: -500_000,
            rear_left: 500_000,
        }
    );
    assert_eq!(c.yaw_pid.prev_e, Some(500_000));
}

/// The desired tilt angles are clamped to thirty degrees before the
/// attitude stage, and the thrust command to its own range.
#[test]
fn command_clamps_apply() {
    let mut c = unit_controller();
    let target = Vec3 { x: 0, y: 100_000_000, z: 100_000_000 };
    let pos = Vec3 { x: 0, y: 0, z: 0 };
    let out = c.ctrl_drone(&target, &pos, &level(), DT_ONE).unwrap();
    // desired_roll clamps to 0.523598, thrust_cmd clamps to 3.0.
    assert_eq!(
        out,
        MotorThrusts {
            front_right: 3_523_598,
            front_left: 2_476_402,
            rear_right: 3_523_598,
            rear_left: 2_476_402,
        }
    );
}

/// Default gains of `new` match the documented fixed tuning.
#[test]
fn new_has_default_gains() {
    let c = Controller::new();
    assert_eq!((c.x_pid.kp, c.x_pid.ki, c.x_pid.kd), (50_000, 10_000, 100_000));
    assert_eq!((c.z_pid.kp, c.z_pid.ki, c.z_pid.kd), (50_000, 10_000, 100_000));
    assert_eq!((c.pitch_pid.kp, c.pitch_pid.ki, c.pitch_pid.kd), (100_000, 0, 100_000));
    assert_eq!((c.roll_pid.kp, c.roll_pid.ki, c.roll_pid.kd), (100_000, 0, 100_000));
    assert_eq!((c.yaw_pid.kp, c.yaw_pid.ki, c.yaw_pid.kd), (20_000, 0, 10_000));
    assert_eq!((c.h_pid.kp, c.h_pid.ki, c.h_pid.kd), (8_000_000, 1_000_000, 1_000_000));
    assert!(!c.yaw_enabled);
}

/// A controller built from parsed bytes carries exactly the parsed gains
/// and empty accumulator state.
#[test]
fn controller_from_config_bytes() {
    let text = "x_pid: (0.05, 0.01, 0.1)\n\
                z_pid: (0.05, 0.01, 0.1)\n\
                h_pid: (8.0, 1.0, 1.0)\n\
                pitch_pid: (0.1, 0.0, 0.1)\n\
                roll_pid: (0.1, 0.0, 0.1)\n\
                yaw_pid: (0.02, 0.0, 0.01)\n";
    let c = Controller::from_config_bytes(&text.as_bytes().to_vec()).unwrap();
    assert_eq!(c, Controller::new());
}

/// A file missing a controller name builds no controller at all.
#[test]
fn controller_from_bad_config_fails() {
    let text = "x_pid: (0.05, 0.01, 0.1)\n";
    let err = Controller::from_config_bytes(&text.as_bytes().to_vec()).unwrap_err();
    assert_eq!(err, ConfigError::MissingController { name: PidName::Z });
}
