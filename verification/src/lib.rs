//! The decisions and the serial protocol of a five-joint robot arm
//! controller: the joints, their order, the motion plan sent to the motor
//! controller, the calibration reply, and which joints are still moving.
use vstd::prelude::*;

pub mod decimal;
pub mod rotor;
pub mod sliders;
pub mod motion;
pub mod calibration;

verus! {

/// Pulses of the stepper drivers per degree of joint rotation.
pub const PULSES_PER_DEGREE: i64 = 555;

} // verus!
