//! Message payloads carried by events and port broadcasts.
//!
//! Every value exchanged between models is one variant of [`Msg`]: the kernel
//! routes messages without inspecting them, while each model picks out the
//! variants it understands and ignores the rest.

use vstd::prelude::*;

verus! {

/// A telecommand asking the sensor at `dest_address` to take a sample and
/// report it back to `src_address`.
#[derive(Clone, Copy, PartialEq, Eq, Structural, Debug)]
pub struct SampleCommand {
    pub src_address: u8,
    pub dest_address: u8,
}

/// Telemetry produced by a sensor in answer to a [`SampleCommand`].
///
/// Angles are in integer microradians; the kernel never interprets them.
#[derive(Clone, Copy, PartialEq, Eq, Structural, Debug)]
pub struct SampleReply {
    pub src_address: u8,
    pub dest_address: u8,
    pub polar_angle: i64,
    pub azimuthal_angle: i64,
}

/// The closed set of message payloads understood by the models in this crate.
#[derive(Clone, Copy, PartialEq, Eq, Structural, Debug)]
pub enum Msg {
    /// A payload-free trigger.
    Unit,
    /// A voltage reading in millivolts.
    Volt(i64),
    /// A plain signed level, also used as the digit recorded by a recorder.
    Level(i64),
    /// A sampling telecommand.
    Command(SampleCommand),
    /// A telemetry sample.
    Sample(SampleReply),
    /// A cartesian position, one integer per axis.
    Position(i64, i64, i64),
}

} // verus!
