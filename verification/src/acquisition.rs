//! Device-side acquisition cycle, the part between the hardware edges.
//!
//! Each cycle the device samples one raw analog code (hardware), turns it
//! into a resistance, stores it in the reading record, and encodes the
//! record into one wire frame (this module); the frame bytes then go out
//! over the serial link (hardware again).

use vstd::prelude::*;
use crate::frame::{encode_frame, encode_frame_spec};
use crate::record::{record_wf, Thermistor, ThermistorView};
use crate::thermistor::{reading_to_resistance, resistance_spec, valid_reading};

verus! {

/// The record as it leaves one acquisition cycle: the same identity and
/// parameters, with the freshly computed resistance.
pub open spec fn cycle_record(r: ThermistorView, resistance: u32) -> ThermistorView {
    ThermistorView { resistance, ..r }
}

/// Runs the computational part of one acquisition cycle: converts the raw
/// code to a resistance, stores it in the record, and returns the encoded
/// wire frame.  A degenerate raw code (zero, or at/above full scale)
/// yields no frame and leaves the record unchanged: that cycle transmits
/// nothing.
pub fn acquisition_cycle(record: &mut Thermistor, reading: u16, pull_up_resistance: u32) -> (frame:
    Option<Vec<u8>>)
    requires
        record_wf(old(record)@),
        pull_up_resistance < 0x10_0000,
    ensures
        record_wf(final(record)@),
        valid_reading(reading) ==> {
            &&& final(record)@ == cycle_record(
                old(record)@,
                resistance_spec(reading, pull_up_resistance) as u32,
            )
            &&& frame matches Some(v) && v@ == encode_frame_spec(final(record)@)
        },
        !valid_reading(reading) ==> final(record)@ == old(record)@ && frame is None,
{
    match reading_to_resistance(reading, pull_up_resistance) {
        Some(resistance) => {
            record.resistance = resistance;
            proof {
                assert(record@ =~= cycle_record(
                    old(record)@,
                    resistance_spec(reading, pull_up_resistance) as u32,
                ));
            }
            match encode_frame(record) {
                Ok(frame) => Some(frame),
                Err(_) => None,
            }
        },
        None => {
            proof {
                assert(record@ =~= old(record)@);
            }
            None
        },
    }
}

} // verus!
