//! Calibrating the z wrist: the request sent to the motor controller, how a
//! read from the serial port is answered, and the limit that the reply gives.
use vstd::prelude::*;
use crate::decimal::{i32_value, parse_i32};

verus! {

/// How a read from the serial port ended.
#[derive(Clone, Copy, Debug, PartialEq, Eq, Structural)]
pub enum PortRead {
    /// Bytes arrived.
    Received,
    /// Nothing arrived before the port's timeout.
    TimedOut,
    /// The port reported any other error.
    Failed,
}

/// What to do after a read from the serial port.
#[derive(Clone, Copy, Debug, PartialEq, Eq, Structural)]
pub enum ReadNext {
    /// Use what arrived.
    Use,
    /// Read again.
    Retry,
    /// Stop: the port is broken.
    Abort,
}

/// A read that timed out is tried again; any other error stops the reader.
pub fn after_read(read: PortRead) -> (next: ReadNext)
    ensures
        read == PortRead::Received ==> next == ReadNext::Use,
        read == PortRead::TimedOut ==> next == ReadNext::Retry,
        read == PortRead::Failed ==> next == ReadNext::Abort,
{
    match read {
        PortRead::Received => ReadNext::Use,
        PortRead::TimedOut => ReadNext::Retry,
        PortRead::Failed => ReadNext::Abort,
    }
}

/// The request that asks the motor controller for the z wrist's travel:
/// command 1 with four zero arguments, `1 0 0 0 0`.
pub fn calibration_request() -> (text: Vec<u8>)
    ensures
        text@ == seq![49u8, 32u8, 48u8, 32u8, 48u8, 32u8, 48u8, 32u8, 48u8],
{
    vec![49u8, 32u8, 48u8, 32u8, 48u8, 32u8, 48u8, 32u8, 48u8]
}

/// Whole degrees in `pulses` driver pulses, rounded towards zero.
pub open spec fn pulses_to_degrees(pulses: int) -> int {
    if pulses >= 0 {
        pulses / 555
    } else {
        -((-pulses) / 555)
    }
}

/// The z wrist's limit, in whole degrees either way, that the motor
/// controller's calibration reply gives: the reply read as a decimal `i32`
/// count of pulses, divided by the pulses per degree and rounded towards
/// zero. `None` when the reply is not such a number.
pub fn calibration_limit(reply: &[u8]) -> (limit: Option<i32>)
    ensures
        limit == (match i32_value(reply@) {
            Some(p) => Some(pulses_to_degrees(p as int) as i32),
            None => None,
        }),
{
    match parse_i32(reply) {
        Some(p) => {
            let wide: i64 = p as i64;
            let degrees: i64 = if wide >= 0 {
                wide / 555
            } else {
                -((-wide) / 555)
            };
            Some(degrees as i32)
        },
        None => None,
    }
}

/// The limit is the pulse count divided by 555 and rounded towards zero: it
/// has the sign of the pulses, and its multiple of 555 lies within one
/// degree's worth of pulses of them, on the side of zero.
pub proof fn lemma_pulses_to_degrees(p: int)
    ensures
        p >= 0 ==> 0 <= pulses_to_degrees(p) && pulses_to_degrees(p) * 555 <= p < pulses_to_degrees(p)
            * 555 + 555,
        p < 0 ==> pulses_to_degrees(p) <= 0 && p <= pulses_to_degrees(p) * 555 < p + 555,
        p >= 0 ==> pulses_to_degrees(p) == p / 555,
{
    if p >= 0 {
        assert(p == (p / 555) * 555 + p % 555) by (nonlinear_arith);
        assert(0 <= p % 555 < 555) by (nonlinear_arith);
        assert(p / 555 >= 0) by (nonlinear_arith)
            requires
                p >= 0,
        ;
    } else {
        let q: int = -p;
        assert(q == (q / 555) * 555 + q % 555) by (nonlinear_arith);
        assert(0 <= q % 555 < 555) by (nonlinear_arith);
        assert(q / 555 >= 0) by (nonlinear_arith)
            requires
                q > 0,
        ;
    }
}

} // verus!
