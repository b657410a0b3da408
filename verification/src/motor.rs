//! Pulse width of an ESC or servo channel.

use vstd::prelude::*;

verus! {

/// The pulse widths (microseconds) of a motor channel: full reverse, full
/// forward and stop.
#[derive(Clone, Copy, Debug, PartialEq, Eq, Structural)]
pub struct PulseRange {
    pub reverse: u64,
    pub forward: u64,
    pub center: u64,
}

/// Rust's integer division, which rounds towards zero, for a positive divisor.
pub open spec fn div_toward_zero(a: int, d: int) -> int {
    if a >= 0 {
        a / d
    } else {
        -((-a) / d)
    }
}

/// The pulse width for a speed given in thousandths of full speed (`scaled`,
/// the magnitude) and its direction: a linear blend between the stop pulse and
/// the forward (or reverse) pulse, rounded towards zero, then reinterpreted as
/// an unsigned 64-bit number.
pub open spec fn spec_pulse_micros(range: PulseRange, forward: bool, scaled: i64) -> u64 {
    let upper = if forward {
        range.forward as i64
    } else {
        range.reverse as i64
    };
    let lower = range.center as i64;
    div_toward_zero(upper * scaled + lower * (1000 - scaled), 1000) as u64
}

/// The inputs on which the blend fits in 64 bits.
pub open spec fn pulse_in_range(range: PulseRange, forward: bool, scaled: i64) -> bool {
    let upper = if forward {
        range.forward as i64
    } else {
        range.reverse as i64
    };
    let lower = range.center as i64;
    &&& i64::MIN <= 1000 - scaled <= i64::MAX
    &&& i64::MIN <= upper * scaled <= i64::MAX
    &&& i64::MIN <= lower * (1000 - scaled) <= i64::MAX
    &&& i64::MIN <= upper * scaled + lower * (1000 - scaled) <= i64::MAX
}

/// The pulse width for a speed of `scaled` thousandths of full speed in the
/// given direction.
pub fn pulse_micros(range: PulseRange, forward: bool, scaled: i64) -> (pulse: u64)
    requires
        pulse_in_range(range, forward, scaled),
    ensures
        pulse == spec_pulse_micros(range, forward, scaled),
{
    let upper: i64 = if forward {
        #[verifier::truncate] (range.forward as i64)
    } else {
        #[verifier::truncate] (range.reverse as i64)
    };
    let lower: i64 = #[verifier::truncate] (range.center as i64);
    let blend: i64 = upper * scaled + lower * (1000 - scaled);
    let pulse: i64 = blend / 1000;
    #[verifier::truncate] (pulse as u64)
}


/// At zero speed the channel gets the stop pulse, and at full speed the full
/// forward (or reverse) pulse.
pub proof fn law_pulse_endpoints(range: PulseRange, forward: bool)
    requires
        range.center <= 1_000_000_000,
        range.forward <= 1_000_000_000,
        range.reverse <= 1_000_000_000,
    ensures
        pulse_in_range(range, forward, 0),
        spec_pulse_micros(range, forward, 0) == range.center,
        pulse_in_range(range, forward, 1000),
        spec_pulse_micros(range, forward, 1000) == (if forward {
            range.forward
        } else {
            range.reverse
        }),
{
    let upper = if forward {
        range.forward as i64
    } else {
        range.reverse as i64
    };
    assert(range.forward as i64 == range.forward);
    assert(range.reverse as i64 == range.reverse);
    assert(range.center as i64 == range.center);
    assert((range.center as i64) * (1000 - 1000) == 0);
    assert(upper * 1000 / 1000 == upper) by (nonlinear_arith)
        requires
            0 <= upper,
    ;
    assert(range.center * 1000 / 1000 == range.center) by (nonlinear_arith);
    assert(upper * 1000 <= i64::MAX) by (nonlinear_arith)
        requires
            0 <= upper <= 1_000_000_000,
    ;
    assert(range.center * 1000 <= i64::MAX) by (nonlinear_arith)
        requires
            range.center <= 1_000_000_000,
    ;
}

} // verus!
