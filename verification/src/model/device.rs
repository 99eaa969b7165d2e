//! One device of a node: a relay, a PID controller.

use crate::dispatch::{Command, DriverRequest, Reading};
use crate::model::{Driver, Mode, State};
use vstd::prelude::*;

verus! {

/// One physical device, as the model describes it.
///
/// `process_value` and `setpoint_value` hold the bit pattern of a 64-bit
/// float (`f64::to_bits`), so that a device compares and copies exactly.
#[derive(Debug, PartialEq, Eq)]
pub struct Device {
    pub driver_kind: Driver,
    pub name: String,
    pub id: String,
    pub state: State,
    pub address: u8,
    pub controller_address: u8,
    pub process_value: Option<u64>,
    pub setpoint_value: Option<u64>,
}

/// The mathematical content of a [`Device`].
pub struct DeviceView {
    pub driver_kind: Driver,
    pub name: Seq<char>,
    pub id: Seq<char>,
    pub state: State,
    pub address: u8,
    pub controller_address: u8,
    pub process_value: Option<u64>,
    pub setpoint_value: Option<u64>,
}

impl View for Device {
    type V = DeviceView;

    open spec fn view(&self) -> DeviceView {
        DeviceView {
            driver_kind: self.driver_kind,
            name: self.name@,
            id: self.id@,
            state: self.state,
            address: self.address,
            controller_address: self.controller_address,
            process_value: self.process_value,
            setpoint_value: self.setpoint_value,
        }
    }
}

impl DeviceView {
    /// What is pushed to the hardware for this device under `mode`, or `None`
    /// where a PID controller is to be written and the device names no
    /// setpoint.
    pub open spec fn command(self, mode: Mode) -> Option<Command> {
        match mode {
            Mode::Read => Some(Command::Read),
            Mode::Write => match self.driver_kind {
                Driver::STR1 => Some(Command::SwitchRelay { state: self.state }),
                Driver::Omega => match self.setpoint_value {
                    Some(setpoint) => Some(Command::DrivePid { setpoint, state: self.state }),
                    None => None,
                },
            },
        }
    }

    /// The call into the driver for this device under `mode`.
    pub open spec fn request(self, mode: Mode) -> Option<DriverRequest> {
        match self.command(mode) {
            Some(command) => Some(
                DriverRequest {
                    driver_kind: self.driver_kind,
                    controller_address: self.controller_address,
                    address: self.address,
                    command,
                },
            ),
            None => None,
        }
    }

    /// The device once `reading` has been written over it. The state is
    /// always the one read; the measurements are taken over for a PID
    /// controller and left alone for a relay board, which has none.
    pub open spec fn observed(self, reading: Reading) -> DeviceView {
        match self.driver_kind {
            Driver::STR1 => DeviceView { state: reading.state, ..self },
            Driver::Omega => DeviceView {
                state: reading.state,
                process_value: reading.process_value,
                setpoint_value: reading.setpoint_value,
                ..self
            },
        }
    }

    /// Everything about a device that no reading can change.
    pub open spec fn same_identity(self, other: DeviceView) -> bool {
        &&& self.driver_kind == other.driver_kind
        &&& self.name == other.name
        &&& self.id == other.id
        &&& self.address == other.address
        &&& self.controller_address == other.controller_address
    }
}

impl Clone for Device {
    fn clone(&self) -> (copy: Self)
        ensures
            copy@ == self@,
    {
        Device {
            driver_kind: self.driver_kind,
            name: self.name.clone(),
            id: self.id.clone(),
            state: self.state,
            address: self.address,
            controller_address: self.controller_address,
            process_value: self.process_value,
            setpoint_value: self.setpoint_value,
        }
    }
}

impl Device {
    /// The call to make into the driver for this device under `mode`.
    ///
    /// In `Read` mode nothing is pushed. In `Write` mode a relay is switched
    /// to the device's state, and a PID controller gets the device's setpoint
    /// and is started or stopped by its state. A PID controller that is to be
    /// written but names no setpoint has no request.
    pub fn request(&self, mode: &Mode) -> (request: Option<DriverRequest>)
        ensures
            request == self@.request(*mode),
    {
        let command = match mode {
            Mode::Read => Command::Read,
            Mode::Write => match self.driver_kind {
                Driver::STR1 => Command::SwitchRelay { state: self.state },
                Driver::Omega => match self.setpoint_value {
                    Some(setpoint) => Command::DrivePid { setpoint, state: self.state },
                    None => {
                        return None;
                    },
                },
            },
        };
        Some(
            DriverRequest {
                driver_kind: self.driver_kind,
                controller_address: self.controller_address,
                address: self.address,
                command,
            },
        )
    }

    /// Writes what the hardware reported over the device: the reading always
    /// wins over what the device said before.
    pub fn update(device: &mut Device, reading: &Reading)
        ensures
            final(device)@ == old(device)@.observed(*reading),
            final(device)@.state == reading.state,
            final(device)@.same_identity(old(device)@),
    {
        device.state = reading.state;
        match device.driver_kind {
            Driver::STR1 => {},
            Driver::Omega => {
                device.process_value = reading.process_value;
                device.setpoint_value = reading.setpoint_value;
            },
        }
    }
}

} // verus!
