//! Single-axis proportional-integral-derivative regulator.
//!
//! One [`PID_Controller`] owns the accumulator state for one control axis.
//! Gains, errors and time steps are fixed-point micro-units
//! (see [`crate::fixed`]). Each call to [`PID_Controller::ctrl`] advances the
//! integral accumulator, computes the derivative from the previously recorded
//! error (zero on the very first call, when no previous error exists yet),
//! and returns the weighted sum of the three terms. By default the integral
//! accumulator is not clamped — under sustained error it grows until it
//! saturates at the `i64` range — but an anti-windup magnitude can be opted
//! into per instance.

use vstd::prelude::*;

use crate::angle::restraint_in_range;
use crate::fixed::add_sat;
use crate::fixed::div_fx;
use crate::fixed::mul_fx;
use crate::fixed::spec_add_sat;
use crate::fixed::spec_div_fx;
use crate::fixed::spec_mul_fx;
use crate::fixed::spec_sub_sat;
use crate::fixed::sub_sat;

verus! {

/// One PID regulator instance: three immutable gains and the per-axis
/// accumulator state.
#[allow(non_camel_case_types)]
#[derive(Debug, Clone, PartialEq, Eq)]
pub struct PID_Controller {
    /// Proportional gain.
    pub kp: i64,
    /// Integral gain.
    pub ki: i64,
    /// Derivative gain.
    pub kd: i64,
    /// Error recorded by the previous call, absent before the first call.
    pub prev_e: Option<i64>,
    /// Accumulated error times time step.
    pub integration: i64,
    /// Opt-in anti-windup: a nonnegative magnitude the integral accumulator
    /// is clamped to after each step. `None` (the default) leaves the
    /// accumulator unbounded, so under sustained error it grows until it
    /// saturates at the `i64` range; a negative value is ignored.
    pub integral_limit: Option<i64>,
}

/// The integral accumulator after stepping `c` with error `e` and time
/// step `dt`: the accumulated sum, clamped to the anti-windup magnitude
/// when one is configured.
pub open spec fn spec_pid_integral(c: PID_Controller, e: int, dt: int) -> int {
    let raw = spec_add_sat(c.integration as int, spec_mul_fx(e, dt));
    match c.integral_limit {
        None => raw,
        Some(l) => if l >= 0 {
            crate::angle::spec_clamp(raw, -l as int, l as int)
        } else {
            raw
        },
    }
}

/// The derivative term input after stepping `c` with error `e` and time step
/// `dt`: zero when no previous error is recorded, else the error change
/// divided by the time step.
pub open spec fn spec_pid_derivative(c: PID_Controller, e: int, dt: int) -> int {
    match c.prev_e {
        None => 0,
        Some(p) => spec_div_fx(spec_sub_sat(e, p as int), dt),
    }
}

/// The output of stepping `c` with error `e` and time step `dt`:
/// `kp * e + ki * integral + kd * derivative` over the saturating
/// fixed-point operations, with the integral already advanced.
pub open spec fn spec_pid_output(c: PID_Controller, e: int, dt: int) -> int {
    spec_add_sat(
        spec_add_sat(
            spec_mul_fx(c.kp as int, e),
            spec_mul_fx(c.ki as int, spec_pid_integral(c, e, dt)),
        ),
        spec_mul_fx(c.kd as int, spec_pid_derivative(c, e, dt)),
    )
}

/// The regulator state after stepping `c` with error `e` and time step `dt`:
/// gains unchanged, integral advanced, `e` recorded as the previous error.
pub open spec fn spec_pid_next(c: PID_Controller, e: int, dt: int) -> PID_Controller {
    PID_Controller {
        kp: c.kp,
        ki: c.ki,
        kd: c.kd,
        prev_e: Some(e as i64),
        integration: spec_pid_integral(c, e, dt) as i64,
        integral_limit: c.integral_limit,
    }
}

/// A freshly constructed regulator: the given gains, an empty integral
/// accumulator, and no previous error.
pub open spec fn spec_pid_new(kp: i64, ki: i64, kd: i64) -> PID_Controller {
    PID_Controller { kp, ki, kd, prev_e: None, integration: 0, integral_limit: None }
}

impl PID_Controller {
    /// Creates a regulator with the given gains and empty accumulator state.
    pub fn new(kp: i64, ki: i64, kd: i64) -> (r: Self)
        ensures
            r == spec_pid_new(kp, ki, kd),
    {
        Self { kp, ki, kd, prev_e: None, integration: 0, integral_limit: None }
    }

    /// Creates a regulator from a `(kp, ki, kd)` gain triple.
    pub fn from_tuple(params: (i64, i64, i64)) -> (r: Self)
        ensures
            r == spec_pid_new(params.0, params.1, params.2),
    {
        Self::new(params.0, params.1, params.2)
    }

    /// Advances the regulator by one tick with the given error and time step
    /// and returns the control output. The time step must be nonzero, since
    /// the derivative term divides by it.
    pub fn ctrl(&mut self, error: i64, dt: i64) -> (r: i64)
        requires
            dt != 0,
        ensures
            *final(self) == spec_pid_next(*old(self), error as int, dt as int),
            r as int == spec_pid_output(*old(self), error as int, dt as int),
    {
        self.integration = add_sat(self.integration, mul_fx(error, dt));
        match self.integral_limit {
            Some(l) => if l >= 0 {
                self.integration = restraint_in_range(self.integration, -l, l);
            },
            None => {},
        }
        let diff: i64 = match self.prev_e {
            None => 0,
            Some(p) => div_fx(sub_sat(error, p), dt),
        };
        let res: i64 = add_sat(
            add_sat(mul_fx(self.kp, error), mul_fx(self.ki, self.integration)),
            mul_fx(self.kd, diff),
        );
        self.prev_e = Some(error);
        res
    }
}

/// The outputs and final state of running a regulator over a whole
/// sequence of `(error, dt)` pairs, first pair first.
pub open spec fn spec_pid_run(c: PID_Controller, inputs: Seq<(i64, i64)>) -> (
    PID_Controller,
    Seq<int>,
)
    decreases inputs.len(),
{
    if inputs.len() == 0 {
        (c, Seq::<int>::empty())
    } else {
        let e = inputs[0].0 as int;
        let dt = inputs[0].1 as int;
        let out = spec_pid_output(c, e, dt);
        let (cf, rest) = spec_pid_run(spec_pid_next(c, e, dt), inputs.drop_first());
        (cf, seq![out] + rest)
    }
}

/// A regulator is deterministic: two regulators in the same state, fed the
/// same sequence of `(error, dt)` pairs, return the same sequence of
/// outputs and end in the same internal state. Each step of [`spec_pid_run`]
/// is what [`PID_Controller::ctrl`] returns and leaves behind, so two runs
/// of the executable regulator agree run-to-run as well.
pub proof fn lemma_pid_deterministic(c1: PID_Controller, c2: PID_Controller, inputs: Seq<(i64, i64)>)
    requires
        c1 == c2,
    ensures
        spec_pid_run(c1, inputs) == spec_pid_run(c2, inputs),
{
}

/// On a freshly constructed regulator the derivative term contributes
/// nothing, whatever the derivative gain: the first output is
/// `kp * e + ki * (e * dt)`, since no previous error is recorded and the
/// integral starts empty.
pub proof fn lemma_first_call_has_no_derivative(kp: i64, ki: i64, kd: i64, e: int, dt: int)
    ensures
        spec_pid_output(spec_pid_new(kp, ki, kd), e, dt) == spec_add_sat(
            spec_mul_fx(kp as int, e),
            spec_mul_fx(ki as int, spec_mul_fx(e, dt)),
        ),
{
    let c = spec_pid_new(kp, ki, kd);
    crate::fixed::lemma_mul_fx_zero(kd as int);
    assert(spec_pid_derivative(c, e, dt) == 0);
    assert(spec_pid_integral(c, e, dt) == spec_mul_fx(e, dt));
}

impl Default for PID_Controller {
    /// A regulator with all three gains zero and empty accumulator state.
    fn default() -> (r: Self)
        ensures
            r == spec_pid_new(0, 0, 0),
    {
        Self::new(0, 0, 0)
    }
}

} // verus!
