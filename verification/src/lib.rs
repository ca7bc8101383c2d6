//! Verified core of a thermistor-based fan controller.
//!
//! A small sensing device samples a thermistor through a resistor divider,
//! converts the raw analog code to a resistance, packs the reading into a
//! record, and sends it over a byte-oriented serial link inside a
//! self-delimiting frame.  The host reassembles frames from arbitrarily
//! chunked reads, converts the resistance to a temperature, maps the
//! temperature to a fan duty cycle through a piecewise-linear curve, and
//! watches the link for stalls.
//!
//! This crate holds the verified logic of that pipeline: the record wire
//! format and its zero-elimination framing, the incremental stream decoder,
//! the divider arithmetic, the control curve, the link watchdog, and the
//! configuration parsers.  Hardware access, the serial port, and the
//! floating-point Beta-equation evaluation live outside it.

pub mod acquisition;
pub mod cobs;
pub mod config;
pub mod codec;
pub mod curve;
pub mod frame;
pub mod record;
pub mod stream;
pub mod thermistor;
pub mod watchdog;
