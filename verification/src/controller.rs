//! Flight controller: the per-tick PID cascade and the motor mixer.
//!
//! A [`Controller`] owns six PID regulators, one per axis: two lateral
//! position axes, altitude, and the three attitude axes. Each tick it turns
//! a target position and the vehicle's current pose into four per-motor
//! thrust commands: lateral position errors become desired tilt angles,
//! wrapped attitude errors feed the attitude regulators, the altitude
//! regulator produces a thrust command, and the mixer combines the command
//! axes into the four clamped motor outputs.
//!
//! All quantities are fixed-point micro-units: positions in micro-metres,
//! angles in micro-radians, time in micro-seconds, thrust in micro-units of
//! force (see [`crate::fixed`]).

use vstd::prelude::*;

use crate::angle::restraint_in_range;
use crate::angle::spec_clamp;
use crate::angle::spec_wrapped;
use crate::angle::sub_angle;
use crate::config::matches_fault;
use crate::config::parse_config;
use crate::config::spec_parse_config;
use crate::config::ConfigError;
use crate::config::TuningConfig;
use crate::fixed::add_sat;
use crate::fixed::neg_sat;
use crate::fixed::spec_add_sat;
use crate::fixed::spec_neg_sat;
use crate::fixed::spec_sub_sat;
use crate::fixed::sub_sat;
use crate::pid::spec_pid_derivative;
use crate::pid::spec_pid_integral;
use crate::pid::spec_pid_new;
use crate::pid::spec_pid_next;
use crate::pid::spec_pid_output;
use crate::pid::PID_Controller;

verus! {

/// Largest desired tilt angle the lateral-position stage may command, in
/// micro-radians: one sixth of a half turn (30 degrees), `PI_FX / 6`
/// truncated.
pub const ANGLE_LIMIT: i64 = 523_598;

/// Lower end of the per-motor thrust range, in micro-units of force.
pub const MOTOR_THRUST_MIN: i64 = -5_000_000;

/// Upper end of the per-motor thrust range, in micro-units of force.
pub const MOTOR_THRUST_MAX: i64 = 5_000_000;

/// Largest magnitude the altitude stage may command before mixing: six
/// tenths of the per-motor thrust range.
pub const THRUST_CMD_LIMIT: i64 = 3_000_000;

/// A position or displacement in space, in micro-metres. `y` is height.
#[derive(Debug, Clone, Copy, PartialEq, Eq)]
pub struct Vec3 {
    /// First horizontal axis.
    pub x: i64,
    /// Vertical axis (height).
    pub y: i64,
    /// Second horizontal axis.
    pub z: i64,
}

/// An orientation as roll, pitch and yaw Euler angles, in micro-radians.
#[derive(Debug, Clone, Copy, PartialEq, Eq)]
pub struct Attitude {
    /// Rotation about the longitudinal axis.
    pub roll: i64,
    /// Rotation about the lateral axis.
    pub pitch: i64,
    /// Rotation about the vertical axis.
    pub yaw: i64,
}

/// The four per-motor thrust commands of one tick, in micro-units of force,
/// each already clamped to the motor thrust range.
#[derive(Debug, Clone, Copy, PartialEq, Eq)]
pub struct MotorThrusts {
    /// Front-right motor.
    pub front_right: i64,
    /// Front-left motor.
    pub front_left: i64,
    /// Rear-right motor.
    pub rear_right: i64,
    /// Rear-left motor.
    pub rear_left: i64,
}

/// The aggregate flight controller: six PID regulators, one per axis, and
/// the yaw-regulation switch.
#[derive(Debug, Clone, PartialEq, Eq)]
pub struct Controller {
    /// Lateral position regulator along `x`; its output becomes the desired
    /// pitch angle (sign inverted).
    pub x_pid: PID_Controller,
    /// Lateral position regulator along `z`; its output becomes the desired
    /// roll angle.
    pub z_pid: PID_Controller,
    /// Roll attitude regulator.
    pub roll_pid: PID_Controller,
    /// Pitch attitude regulator.
    pub pitch_pid: PID_Controller,
    /// Yaw attitude regulator; stepped only when `yaw_enabled` is set.
    pub yaw_pid: PID_Controller,
    /// Altitude regulator.
    pub h_pid: PID_Controller,
    /// Whether the yaw regulator runs (holding the initial zero heading) or
    /// the yaw command is forced to zero.
    pub yaw_enabled: bool,
}

/// The four raw mixer sums for the given command axes, each clamped to the
/// motor thrust range as the final step: front-right, front-left,
/// rear-right, rear-left. Pitch tilts front against rear, roll tilts right
/// against left, and yaw splits the diagonal motor pairs.
pub open spec fn spec_mix(thrust: int, roll: int, pitch: int, yaw: int) -> (int, int, int, int) {
    let lo = MOTOR_THRUST_MIN as int;
    let hi = MOTOR_THRUST_MAX as int;
    let fr = spec_clamp(
        spec_add_sat(spec_add_sat(spec_add_sat(thrust, pitch), roll), yaw),
        lo,
        hi,
    );
    let fl = spec_clamp(
        spec_sub_sat(spec_sub_sat(spec_add_sat(thrust, pitch), roll), yaw),
        lo,
        hi,
    );
    let rr = spec_clamp(
        spec_sub_sat(spec_add_sat(spec_sub_sat(thrust, pitch), roll), yaw),
        lo,
        hi,
    );
    let rl = spec_clamp(
        spec_add_sat(spec_sub_sat(spec_sub_sat(thrust, pitch), roll), yaw),
        lo,
        hi,
    );
    (fr, fl, rr, rl)
}

/// Combines the thrust, roll, pitch and yaw commands into the four motor
/// thrusts and clamps each to the motor thrust range.
pub fn mix_motors(thrust: i64, roll: i64, pitch: i64, yaw: i64) -> (m: MotorThrusts)
    ensures
        m.front_right as int == spec_mix(thrust as int, roll as int, pitch as int, yaw as int).0,
        m.front_left as int == spec_mix(thrust as int, roll as int, pitch as int, yaw as int).1,
        m.rear_right as int == spec_mix(thrust as int, roll as int, pitch as int, yaw as int).2,
        m.rear_left as int == spec_mix(thrust as int, roll as int, pitch as int, yaw as int).3,
        MOTOR_THRUST_MIN <= m.front_right <= MOTOR_THRUST_MAX,
        MOTOR_THRUST_MIN <= m.front_left <= MOTOR_THRUST_MAX,
        MOTOR_THRUST_MIN <= m.rear_right <= MOTOR_THRUST_MAX,
        MOTOR_THRUST_MIN <= m.rear_left <= MOTOR_THRUST_MAX,
{
    let fr = restraint_in_range(
        add_sat(add_sat(add_sat(thrust, pitch), roll), yaw),
        MOTOR_THRUST_MIN,
        MOTOR_THRUST_MAX,
    );
    let fl = restraint_in_range(
        sub_sat(sub_sat(add_sat(thrust, pitch), roll), yaw),
        MOTOR_THRUST_MIN,
        MOTOR_THRUST_MAX,
    );
    let rr = restraint_in_range(
        sub_sat(add_sat(sub_sat(thrust, pitch), roll), yaw),
        MOTOR_THRUST_MIN,
        MOTOR_THRUST_MAX,
    );
    let rl = restraint_in_range(
        add_sat(sub_sat(sub_sat(thrust, pitch), roll), yaw),
        MOTOR_THRUST_MIN,
        MOTOR_THRUST_MAX,
    );
    MotorThrusts { front_right: fr, front_left: fl, rear_right: rr, rear_left: rl }
}

/// One tick of the cascade on controller `c` with target position `target`,
/// current position `pos`, current attitude `att` and nonzero time step
/// `dt`: the controller state after the tick and the four motor outputs.
pub open spec fn spec_ctrl_drone(
    c: Controller,
    target: Vec3,
    pos: Vec3,
    att: Attitude,
    dt: int,
) -> (Controller, (int, int, int, int)) {
    let e_z = spec_sub_sat(target.z as int, pos.z as int);
    let desired_roll = spec_clamp(
        spec_pid_output(c.z_pid, e_z, dt),
        -ANGLE_LIMIT as int,
        ANGLE_LIMIT as int,
    );
    let e_x = spec_sub_sat(target.x as int, pos.x as int);
    let desired_pitch = spec_clamp(
        spec_neg_sat(spec_pid_output(c.x_pid, e_x, dt)),
        -ANGLE_LIMIT as int,
        ANGLE_LIMIT as int,
    );
    let roll_err = spec_wrapped(spec_sub_sat(desired_roll, att.roll as int));
    let roll_cmd = spec_pid_output(c.roll_pid, roll_err, dt);
    let pitch_err = spec_wrapped(spec_sub_sat(desired_pitch, att.pitch as int));
    let pitch_cmd = spec_pid_output(c.pitch_pid, pitch_err, dt);
    let yaw_err = spec_wrapped(spec_sub_sat(0, att.yaw as int));
    let yaw_cmd = if c.yaw_enabled {
        spec_pid_output(c.yaw_pid, yaw_err, dt)
    } else {
        0
    };
    let e_h = spec_sub_sat(target.y as int, pos.y as int);
    let thrust_cmd = spec_clamp(
        spec_pid_output(c.h_pid, e_h, dt),
        -THRUST_CMD_LIMIT as int,
        THRUST_CMD_LIMIT as int,
    );
    let next = Controller {
        x_pid: spec_pid_next(c.x_pid, e_x, dt),
        z_pid: spec_pid_next(c.z_pid, e_z, dt),
        roll_pid: spec_pid_next(c.roll_pid, roll_err, dt),
        pitch_pid: spec_pid_next(c.pitch_pid, pitch_err, dt),
        yaw_pid: if c.yaw_enabled {
            spec_pid_next(c.yaw_pid, yaw_err, dt)
        } else {
            c.yaw_pid
        },
        h_pid: spec_pid_next(c.h_pid, e_h, dt),
        yaw_enabled: c.yaw_enabled,
    };
    (next, spec_mix(thrust_cmd, roll_cmd, pitch_cmd, yaw_cmd))
}

/// A regulator whose accumulator state is at rest: empty integral, and no
/// previous error other than zero.
pub open spec fn spec_pid_at_rest(c: PID_Controller) -> bool {
    c.integration == 0 && (c.prev_e is None || c.prev_e == Some(0i64))
}

/// A regulator at rest stepped with zero error outputs zero and stays at
/// rest (now with a recorded previous error of zero).
proof fn lemma_pid_zero_step(c: PID_Controller, dt: int)
    requires
        spec_pid_at_rest(c),
        dt != 0,
    ensures
        spec_pid_output(c, 0, dt) == 0,
        spec_pid_next(c, 0, dt) == (PID_Controller {
            kp: c.kp,
            ki: c.ki,
            kd: c.kd,
            prev_e: Some(0i64),
            integration: 0,
            integral_limit: c.integral_limit,
        }),
{
    crate::fixed::lemma_mul_fx_zero(dt);
    crate::fixed::lemma_mul_fx_zero(c.kp as int);
    crate::fixed::lemma_mul_fx_zero(c.ki as int);
    crate::fixed::lemma_mul_fx_zero(c.kd as int);
    crate::fixed::lemma_div_fx_zero(dt);
    assert(spec_pid_integral(c, 0, dt) == 0);
    assert(spec_pid_derivative(c, 0, dt) == 0);
}

/// The pure-hover steady state: with the target equal to the current
/// position, a level zero attitude, and all six regulators at rest (empty
/// integrals, no recorded error other than zero), a tick outputs zero
/// thrust on all four motors and leaves the controller in the same rest
/// state, so the outputs stay zero and equal tick after tick.
pub proof fn lemma_hover_steady_state(
    c: Controller,
    target: Vec3,
    pos: Vec3,
    att: Attitude,
    dt: int,
)
    requires
        target == pos,
        att.roll == 0 && att.pitch == 0 && att.yaw == 0,
        spec_pid_at_rest(c.x_pid),
        spec_pid_at_rest(c.z_pid),
        spec_pid_at_rest(c.roll_pid),
        spec_pid_at_rest(c.pitch_pid),
        spec_pid_at_rest(c.yaw_pid),
        spec_pid_at_rest(c.h_pid),
        dt != 0,
    ensures
        spec_ctrl_drone(c, target, pos, att, dt).1 == (0int, 0int, 0int, 0int),
        spec_pid_at_rest(spec_ctrl_drone(c, target, pos, att, dt).0.x_pid),
        spec_pid_at_rest(spec_ctrl_drone(c, target, pos, att, dt).0.z_pid),
        spec_pid_at_rest(spec_ctrl_drone(c, target, pos, att, dt).0.roll_pid),
        spec_pid_at_rest(spec_ctrl_drone(c, target, pos, att, dt).0.pitch_pid),
        spec_pid_at_rest(spec_ctrl_drone(c, target, pos, att, dt).0.yaw_pid),
        spec_pid_at_rest(spec_ctrl_drone(c, target, pos, att, dt).0.h_pid),
{
    lemma_pid_zero_step(c.z_pid, dt);
    lemma_pid_zero_step(c.x_pid, dt);
    lemma_pid_zero_step(c.roll_pid, dt);
    lemma_pid_zero_step(c.pitch_pid, dt);
    lemma_pid_zero_step(c.yaw_pid, dt);
    lemma_pid_zero_step(c.h_pid, dt);
    crate::angle::lemma_wrapped_fixed(0);
    assert(spec_neg_sat(0) == 0);
    assert(spec_clamp(0, -ANGLE_LIMIT as int, ANGLE_LIMIT as int) == 0);
    assert(spec_clamp(0, -THRUST_CMD_LIMIT as int, THRUST_CMD_LIMIT as int) == 0);
    assert(spec_add_sat(0, 0) == 0);
    assert(spec_sub_sat(0, 0) == 0);
}

/// Mixer symmetry for a pure roll-and-thrust command: with pitch and yaw
/// commands zero, and the sums within the motor thrust range, the right
/// motors get `thrust + roll` and the left motors `thrust - roll`, front
/// equal to rear.
pub proof fn lemma_mixer_symmetry(t: int, r: int)
    requires
        MOTOR_THRUST_MIN as int <= t + r <= MOTOR_THRUST_MAX as int,
        MOTOR_THRUST_MIN as int <= t - r <= MOTOR_THRUST_MAX as int,
    ensures
        spec_mix(t, r, 0, 0) == (t + r, t - r, t + r, t - r),
{
}

/// The controller a parsed tuning configuration denotes: its six gain
/// triples, empty accumulator state, yaw regulation off.
pub open spec fn spec_from_tuning(cfg: TuningConfig) -> Controller {
    Controller {
        x_pid: spec_pid_new(cfg.x_pid.0, cfg.x_pid.1, cfg.x_pid.2),
        z_pid: spec_pid_new(cfg.z_pid.0, cfg.z_pid.1, cfg.z_pid.2),
        pitch_pid: spec_pid_new(cfg.pitch_pid.0, cfg.pitch_pid.1, cfg.pitch_pid.2),
        roll_pid: spec_pid_new(cfg.roll_pid.0, cfg.roll_pid.1, cfg.roll_pid.2),
        yaw_pid: spec_pid_new(cfg.yaw_pid.0, cfg.yaw_pid.1, cfg.yaw_pid.2),
        h_pid: spec_pid_new(cfg.h_pid.0, cfg.h_pid.1, cfg.h_pid.2),
        yaw_enabled: false,
    }
}

impl Controller {
    /// Creates a controller with the fixed default gains and yaw regulation
    /// switched off.
    pub fn new() -> (r: Self)
        ensures
            r.x_pid == spec_pid_new(50_000, 10_000, 100_000),
            r.z_pid == spec_pid_new(50_000, 10_000, 100_000),
            r.pitch_pid == spec_pid_new(100_000, 0, 100_000),
            r.roll_pid == spec_pid_new(100_000, 0, 100_000),
            r.yaw_pid == spec_pid_new(20_000, 0, 10_000),
            r.h_pid == spec_pid_new(8_000_000, 1_000_000, 1_000_000),
            !r.yaw_enabled,
    {
        Self {
            x_pid: PID_Controller::new(50_000, 10_000, 100_000),
            z_pid: PID_Controller::new(50_000, 10_000, 100_000),
            pitch_pid: PID_Controller::new(100_000, 0, 100_000),
            roll_pid: PID_Controller::new(100_000, 0, 100_000),
            yaw_pid: PID_Controller::new(20_000, 0, 10_000),
            h_pid: PID_Controller::new(8_000_000, 1_000_000, 1_000_000),
            yaw_enabled: false,
        }
    }

    /// Creates a controller with the gains of a parsed tuning
    /// configuration, empty accumulator state, and yaw regulation switched
    /// off.
    pub fn from_tuning(cfg: &TuningConfig) -> (r: Self)
        ensures
            r == spec_from_tuning(*cfg),
    {
        Self {
            x_pid: PID_Controller::from_tuple(cfg.x_pid),
            z_pid: PID_Controller::from_tuple(cfg.z_pid),
            pitch_pid: PID_Controller::from_tuple(cfg.pitch_pid),
            roll_pid: PID_Controller::from_tuple(cfg.roll_pid),
            yaw_pid: PID_Controller::from_tuple(cfg.yaw_pid),
            h_pid: PID_Controller::from_tuple(cfg.h_pid),
            yaw_enabled: false,
        }
    }

    /// Parses the raw bytes of a tuning file and builds a controller from
    /// the six gain triples, or reports the configuration fault; no
    /// controller exists unless the whole file parsed and all six names
    /// were present.
    pub fn from_config_bytes(data: &Vec<u8>) -> (r: Result<Self, ConfigError>)
        ensures
            ({
                match spec_parse_config(data@) {
                    Ok(cfg) => r matches Ok(c) && c == spec_from_tuning(cfg),
                    Err(f) => r matches Err(e) && matches_fault(e, f),
                }
            }),
    {
        match parse_config(data) {
            Ok(cfg) => Ok(Self::from_tuning(&cfg)),
            Err(e) => Err(e),
        }
    }

    /// Runs one control tick: target position, current position and
    /// attitude in, four motor thrusts out.
    ///
    /// A zero time step is a complete no-op: no accumulator moves and no
    /// output is produced, so the caller must skip applying forces for that
    /// tick. A negative time step is a precondition violation and is
    /// rejected by `requires` rather than at run time.
    pub fn ctrl_drone(&mut self, target: &Vec3, pos: &Vec3, att: &Attitude, dt: i64) -> (r:
        Option<MotorThrusts>)
        requires
            dt >= 0,
        ensures
            dt == 0 ==> r is None && *final(self) == *old(self),
            dt != 0 ==> {
                let (next, out) = spec_ctrl_drone(*old(self), *target, *pos, *att, dt as int);
                &&& *final(self) == next
                &&& r is Some
                &&& r->0.front_right as int == out.0
                &&& r->0.front_left as int == out.1
                &&& r->0.rear_right as int == out.2
                &&& r->0.rear_left as int == out.3
            },
    {
        if dt == 0 {
            return None;
        }
        let e_z = sub_sat(target.z, pos.z);
        let desired_roll = restraint_in_range(self.z_pid.ctrl(e_z, dt), -ANGLE_LIMIT, ANGLE_LIMIT);
        let e_x = sub_sat(target.x, pos.x);
        let desired_pitch = restraint_in_range(
            neg_sat(self.x_pid.ctrl(e_x, dt)),
            -ANGLE_LIMIT,
            ANGLE_LIMIT,
        );
        let roll_cmd = self.roll_pid.ctrl(sub_angle(desired_roll, att.roll), dt);
        let pitch_cmd = self.pitch_pid.ctrl(sub_angle(desired_pitch, att.pitch), dt);
        // Desired yaw is fixed at zero: the controller holds the initial
        // heading when yaw regulation is enabled.
        let yaw_cmd = if self.yaw_enabled {
            self.yaw_pid.ctrl(sub_angle(0, att.yaw), dt)
        } else {
            0
        };
        let thrust_cmd = restraint_in_range(
            self.h_pid.ctrl(sub_sat(target.y, pos.y), dt),
            -THRUST_CMD_LIMIT,
            THRUST_CMD_LIMIT,
        );
        Some(mix_motors(thrust_cmd, roll_cmd, pitch_cmd, yaw_cmd))
    }
}

} // verus!
