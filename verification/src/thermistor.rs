//! Resistor-divider arithmetic for the thermistor front end.
//!
//! The device reads the thermistor through a resistor divider: a pull-up
//! resistor to the reference voltage, the thermistor to ground, and a
//! 12-bit analog-to-digital converter across the thermistor.  The raw code
//! therefore relates to the thermistor resistance by
//! `resistance = pull / (max_code / raw_code - 1)`, evaluated here in
//! 12-fractional-bit fixed point exactly as the device computes it.

use vstd::prelude::*;
use vstd::arithmetic::div_mod::{
    lemma_div_is_ordered, lemma_div_is_ordered_by_denominator, lemma_div_nonincreasing,
    lemma_fundamental_div_mod_converse_div,
};

verus! {

/// Largest raw code the 12-bit converter can produce.
pub const MAX_READING: u16 = 0x0FFF;

/// Scale factor of the 12-fractional-bit fixed-point format used by the
/// device for the divider computation.
pub const FIXED_SCALE: u64 = 4096;

/// Largest raw code, as an executable function for callers that configure
/// themselves from it.
pub fn max_reading() -> (m: u16)
    ensures
        m == MAX_READING,
{
    MAX_READING
}

/// A raw code can be turned into a resistance only strictly between zero
/// (open divider) and the full-scale code (shorted divider): at either end
/// the divider equation degenerates.
pub open spec fn valid_reading(reading: u16) -> bool {
    1 <= reading < MAX_READING
}

/// Fixed-point divisor `max_code/raw_code - 1`, scaled by `FIXED_SCALE`.
pub open spec fn divider_divisor(reading: u16) -> int {
    (MAX_READING as int * FIXED_SCALE as int) / (reading as int) - FIXED_SCALE as int
}

/// Resistance in whole ohms that the divider equation assigns to a raw
/// code: `pull / (max_code/raw_code - 1)`, computed in fixed point and
/// truncated to an integer.
pub open spec fn resistance_spec(reading: u16, pull_up_resistance: u32) -> int {
    (pull_up_resistance as int * FIXED_SCALE as int) / divider_divisor(reading)
}

/// For every raw code strictly inside the valid range the fixed-point
/// divisor is at least one, so the division in `resistance_spec` is well
/// defined.
pub proof fn lemma_divider_divisor_pos(reading: u16)
    requires
        valid_reading(reading),
    ensures
        1 <= divider_divisor(reading),
{
    let num = MAX_READING as int * FIXED_SCALE as int;
    lemma_div_is_ordered_by_denominator(num, reading as int, MAX_READING as int - 1);
    lemma_fundamental_div_mod_converse_div(num, MAX_READING as int - 1, 4097, 2);
}

/// Converts a raw analog code to the thermistor resistance in ohms via the
/// divider equation, in the device's fixed-point format.  Returns `None`
/// for the degenerate codes (zero, or at/above full scale) where the
/// divider equation has no meaningful value.
///
/// The pull-up resistance must fit the 20 integer bits of the fixed-point
/// format.
pub fn reading_to_resistance(reading: u16, pull_up_resistance: u32) -> (r: Option<u32>)
    requires
        pull_up_resistance < 0x10_0000,
    ensures
        valid_reading(reading) ==> r == Some((resistance_spec(reading, pull_up_resistance) as u32)),
        !valid_reading(reading) ==> r is None,
{
    if reading == 0 || reading >= MAX_READING {
        return None;
    }
    proof {
        lemma_divider_divisor_pos(reading);
    }
    let numerator: u64 = (MAX_READING as u64) * FIXED_SCALE;
    let divisor: u64 = numerator / (reading as u64) - FIXED_SCALE;
    let scaled_pull: u64 = (pull_up_resistance as u64) * FIXED_SCALE;
    let resistance: u64 = scaled_pull / divisor;
    proof {
        lemma_div_nonincreasing(scaled_pull as int, divisor as int);
    }
    Some(resistance as u32)
}

/// The divider equation is monotone: a higher raw code never yields a
/// lower resistance.  (A higher code means a smaller divisor, hence a
/// larger quotient.)
pub proof fn lemma_resistance_nondecreasing(r1: u16, r2: u16, pull_up_resistance: u32)
    requires
        valid_reading(r1),
        valid_reading(r2),
        r1 <= r2,
    ensures
        resistance_spec(r1, pull_up_resistance) <= resistance_spec(r2, pull_up_resistance),
{
    let num = MAX_READING as int * FIXED_SCALE as int;
    lemma_div_is_ordered_by_denominator(num, r1 as int, r2 as int);
    lemma_divider_divisor_pos(r1);
    lemma_divider_divisor_pos(r2);
    lemma_div_is_ordered_by_denominator(
        pull_up_resistance as int * FIXED_SCALE as int,
        divider_divisor(r2),
        divider_divisor(r1),
    );
}

/// Converts a raw analog code to the voltage across the thermistor in
/// millivolts, given the reference voltage in millivolts.
pub fn reading_to_voltage(reading: u16, v_ref_mv: u16) -> (v: u16)
    requires
        reading <= MAX_READING,
    ensures
        v == (v_ref_mv as int * reading as int) / (MAX_READING as int),
{
    proof {
        assert(v_ref_mv as int * reading as int <= 0xFFFF * 0x0FFF) by (nonlinear_arith)
            requires
                v_ref_mv <= 0xFFFF && reading <= 0x0FFF,
        ;
    }
    let scaled: u32 = (v_ref_mv as u32) * (reading as u32);
    let v: u32 = scaled / (MAX_READING as u32);
    proof {
        assert(v_ref_mv as int * reading as int <= v_ref_mv as int * MAX_READING as int)
            by (nonlinear_arith)
            requires
                reading <= MAX_READING,
        ;
        lemma_div_is_ordered(
            v_ref_mv as int * reading as int,
            v_ref_mv as int * MAX_READING as int,
            MAX_READING as int,
        );
        assert(v_ref_mv as int * MAX_READING as int / (MAX_READING as int) == v_ref_mv as int)
            by (nonlinear_arith);
    }
    v as u16
}

} // verus!
