//! Quadrotor flight-stabilization controller.
//!
//! The controller turns a target position and the vehicle's current pose into
//! four per-motor thrust commands: a cascade of PID regulators feeds an
//! angle-wrapping stage, output clamping, and a fixed motor-mixing matrix.
//! All quantities are carried as fixed-point numbers (signed 64-bit counts of
//! millionths of a unit), so every tick is bit-reproducible and every
//! arithmetic step has an exact specification.

pub mod angle;
pub mod config;
pub mod controller;
pub mod fixed;
pub mod pid;
