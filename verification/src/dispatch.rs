//! The narrow interface between the engine and the hardware drivers.
//!
//! A driver is handed a [`DriverRequest`], acts on the hardware, and answers
//! with the [`Reading`] it took afterwards or with a [`DriverError`]. Nothing
//! else about a driver is known here.

use crate::model::{Driver, State};
use vstd::prelude::*;

verus! {

/// What a driver pushes to the hardware before it reads it back.
#[derive(Clone, Copy, Debug, PartialEq, Eq)]
pub enum Command {
    /// Push nothing.
    Read,
    /// Switch a relay to `state`.
    SwitchRelay { state: State },
    /// Store `setpoint` in a PID controller, then start it (`On`) or stop it
    /// (`Off`). The setpoint is the bit pattern of a 64-bit float.
    DrivePid { setpoint: u64, state: State },
}

/// One call into a driver: which controller, which device on it, and what to
/// push before reading.
#[derive(Clone, Copy, Debug, PartialEq, Eq)]
pub struct DriverRequest {
    pub driver_kind: Driver,
    pub controller_address: u8,
    pub address: u8,
    pub command: Command,
}

/// What the hardware reports once the driver has acted. The two measurements
/// are bit patterns of 64-bit floats; a relay board reports neither.
#[derive(Clone, Copy, Debug, PartialEq, Eq)]
pub struct Reading {
    pub state: State,
    pub process_value: Option<u64>,
    pub setpoint_value: Option<u64>,
}

/// A driver's report that it could not talk to the hardware.
#[derive(Debug, PartialEq, Eq)]
pub struct DriverError {
    pub detail: String,
}

} // verus!
