use rtu_fleet::{Command, Device, Driver, DriverRequest, Mode, NetworkAddress, Reading, State, RTU};

fn valve(state: State) -> Device {
    Device {
        driver_kind: Driver::STR1,
        name: String::from("Some Relay"),
        id: String::from("some id"),
        state,
        address: 3,
        controller_address: 243,
        process_value: None,
        setpoint_value: None,
    }
}

fn pid(state: State, setpoint: Option<f64>) -> Device {
    Device {
        driver_kind: Driver::Omega,
        name: String::from("RIMS PID"),
        id: String::from("j12k3jhgsdkhfgj2h4bv4mnrb"),
        state,
        address: 0,
        controller_address: 22,
        process_value: Some(167.4f64.to_bits()),
        setpoint_value: setpoint.map(f64::to_bits),
    }
}

#[test]
fn reading_a_relay_pushes_nothing() {
    let request = valve(State::On).request(&Mode::Read);
    assert_eq!(
        request,
        Some(DriverRequest {
            driver_kind: Driver::STR1,
            controller_address: 243,
            address: 3,
            command: Command::Read,
        })
    );
}

#[test]
fn writing_a_relay_switches_it_to_the_requested_state() {
    let on = valve(State::On).request(&Mode::Write).unwrap();
    assert_eq!(on.command, Command::SwitchRelay { state: State::On });
    assert_eq!(on.driver_kind, Driver::STR1);
    assert_eq!(on.controller_address, 243);
    assert_eq!(on.address, 3);
    let off = valve(State::Off).request(&Mode::Write).unwrap();
    assert_eq!(off.command, Command::SwitchRelay { state: State::Off });
}

#[test]
fn reading_a_pid_pushes_nothing() {
    let request = pid(State::On, Some(140.5)).request(&Mode::Read);
    assert_eq!(
        request,
        Some(DriverRequest {
            driver_kind: Driver::Omega,
            controller_address: 22,
            address: 0,
            command: Command::Read,
        })
    );
    assert!(pid(State::On, None).request(&Mode::Read).is_some());
}

#[test]
fn writing_a_pid_pushes_setpoint_and_state() {
    let request = pid(State::Off, Some(140.5)).request(&Mode::Write).unwrap();
    assert_eq!(
        request.command,
        Command::DrivePid { setpoint: 140.5f64.to_bits(), state: State::Off }
    );
    assert_eq!(request.controller_address, 22);
    let running = pid(State::On, Some(150.0)).request(&Mode::Write).unwrap();
    assert_eq!(
        running.command,
        Command::DrivePid { setpoint: 150.0f64.to_bits(), state: State::On }
    );
}

#[test]
fn writing_a_pid_without_setpoint_has_no_request() {
    assert_eq!(pid(State::On, None).request(&Mode::Write), None);
}

#[test]
fn a_reading_overwrites_a_relay_state_only() {
    let mut device = valve(State::On);
    device.process_value = Some(1.5f64.to_bits());
    let reading = Reading {
        state: State::Off,
        process_value: Some(99.0f64.to_bits()),
        setpoint_value: Some(98.0f64.to_bits()),
    };
    Device::update(&mut device, &reading);
    let mut expected = valve(State::Off);
    expected.process_value = Some(1.5f64.to_bits());
    assert_eq!(device, expected);
}

#[test]
fn a_reading_overwrites_a_pid_state_and_measurements() {
    let mut device = pid(State::Off, Some(140.5));
    let reading = Reading {
        state: State::On,
        process_value: Some(150.25f64.to_bits()),
        setpoint_value: Some(140.5f64.to_bits()),
    };
    Device::update(&mut device, &reading);
    assert_eq!(device.state, State::On);
    assert_eq!(device.process_value.map(f64::from_bits), Some(150.25));
    assert_eq!(device.setpoint_value.map(f64::from_bits), Some(140.5));
    assert_eq!(device.name, "RIMS PID");
    assert_eq!(device.id, "j12k3jhgsdkhfgj2h4bv4mnrb");
    assert_eq!(device.controller_address, 22);
}

#[test]
fn a_reading_without_measurements_clears_those_of_a_pid() {
    let mut device = pid(State::On, Some(140.5));
    let reading = Reading { state: State::On, process_value: None, setpoint_value: None };
    Device::update(&mut device, &reading);
    assert_eq!(device.process_value, None);
    assert_eq!(device.setpoint_value, None);
}

#[test]
fn a_node_update_touches_the_one_device() {
    let mut rtu = RTU {
        name: String::from("RTU Name"),
        location: String::from("some location"),
        id: String::from("some id"),
        network_address: NetworkAddress { octets: [192, 168, 43, 38], port: 3012 },
        devices: vec![valve(State::On), valve(State::On), valve(State::On)],
    };
    let reading = Reading { state: State::Off, process_value: None, setpoint_value: None };
    RTU::update(&mut rtu, 1, &reading);
    assert_eq!(rtu.devices[0], valve(State::On));
    assert_eq!(rtu.devices[1], valve(State::Off));
    assert_eq!(rtu.devices[2], valve(State::On));
    assert_eq!(rtu.name, "RTU Name");
    assert_eq!(rtu.devices.len(), 3);
}

#[test]
fn a_node_update_past_the_last_device_changes_nothing() {
    let mut rtu = RTU {
        name: String::from("RTU Name"),
        location: String::from("some location"),
        id: String::from("some id"),
        network_address: NetworkAddress { octets: [192, 168, 43, 38], port: 3012 },
        devices: vec![valve(State::On)],
    };
    let before = rtu.clone();
    let reading = Reading { state: State::Off, process_value: None, setpoint_value: None };
    RTU::update(&mut rtu, 1, &reading);
    assert_eq!(rtu, before);
}
