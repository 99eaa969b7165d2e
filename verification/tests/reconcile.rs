use rtu_fleet::{
    Command, Device, Driver, DriverError, DriverRequest, Error, ErrorKind, Metadata, Mode, Model,
    NetworkAddress, Reading, Reconciliation, State, RTU,
};
use std::cell::RefCell;

fn relay_at(id: &str, address: u8, state: State) -> Device {
    Device {
        driver_kind: Driver::STR1,
        name: format!("relay {}", id),
        id: String::from(id),
        state,
        address,
        controller_address: 1,
        process_value: None,
        setpoint_value: None,
    }
}

fn pid_at(id: &str, state: State, setpoint: Option<f64>) -> Device {
    Device {
        driver_kind: Driver::Omega,
        name: format!("pid {}", id),
        id: String::from(id),
        state,
        address: 0,
        controller_address: 22,
        process_value: None,
        setpoint_value: setpoint.map(f64::to_bits),
    }
}

fn entry(id: &str, last_octet: u8, devices: Vec<Device>) -> RTU {
    RTU {
        name: format!("node {}", id),
        location: String::from("brewhouse"),
        id: String::from(id),
        network_address: NetworkAddress { octets: [10, 0, 0, last_octet], port: 3012 },
        devices,
    }
}

fn document(mode: Mode, rtus: Vec<RTU>) -> Model {
    Model {
        mode,
        id: 7,
        rtus,
        metadata: Metadata {
            name: Some(String::from("My configuration")),
            description: Some(String::from("Some configuration i made to brew in march")),
            slack_channel: Some(String::from("@luke")),
            slack_webhook: Some(String::from("Testing")),
            master_addr: Some(String::from("192.168.0.120:8000")),
            date: None,
        },
    }
}

fn reads(state: State) -> Result<Reading, DriverError> {
    Ok(Reading { state, process_value: None, setpoint_value: None })
}

fn three_nodes(mode: Mode) -> Model {
    document(
        mode,
        vec![
            entry("rtu-a", 1, vec![relay_at("a1", 0, State::On), relay_at("a2", 1, State::On)]),
            entry(
                "rtu-b",
                2,
                vec![
                    relay_at("b1", 0, State::On),
                    relay_at("b2", 1, State::Off),
                    pid_at("b3", State::On, Some(172.0)),
                ],
            ),
            entry("rtu-c", 3, vec![relay_at("c1", 0, State::Off)]),
        ],
    )
}

#[test]
fn reconcile_leaves_other_nodes_untouched() {
    let source = three_nodes(Mode::Write);
    let result = Model::update(&source, "rtu-b", &Mode::Write, |_request: DriverRequest| {
        Ok(Reading {
            state: State::Off,
            process_value: Some(150.0f64.to_bits()),
            setpoint_value: Some(151.0f64.to_bits()),
        })
    })
    .unwrap();
    assert_eq!(result.rtus[0], source.rtus[0]);
    assert_eq!(result.rtus[2], source.rtus[2]);
    assert_eq!(result.mode, source.mode);
    assert_eq!(result.id, source.id);
    assert_eq!(result.metadata, source.metadata);
    assert_eq!(result.rtus.len(), 3);
    let owned = &result.rtus[1];
    assert_eq!(owned.name, source.rtus[1].name);
    assert_eq!(owned.location, source.rtus[1].location);
    assert_eq!(owned.id, source.rtus[1].id);
    assert_eq!(owned.network_address, source.rtus[1].network_address);
    assert_eq!(owned.devices.len(), 3);
    for (after, before) in owned.devices.iter().zip(source.rtus[1].devices.iter()) {
        assert_eq!(after.id, before.id);
        assert_eq!(after.name, before.name);
        assert_eq!(after.driver_kind, before.driver_kind);
        assert_eq!(after.address, before.address);
        assert_eq!(after.controller_address, before.controller_address);
        assert_eq!(after.state, State::Off);
    }
    assert_eq!(owned.devices[0].process_value, None);
    assert_eq!(owned.devices[2].process_value, Some(150.0f64.to_bits()));
    assert_eq!(owned.devices[2].setpoint_value, Some(151.0f64.to_bits()));
}

#[test]
fn reconcile_does_not_touch_its_source() {
    let source = three_nodes(Mode::Write);
    let before = source.clone();
    let _ = Model::update(&source, "rtu-b", &Mode::Write, |_request: DriverRequest| {
        reads(State::Off)
    });
    assert_eq!(source, before);
}

#[test]
fn reconcile_asks_the_driver_for_each_owned_device_in_order() {
    let source = three_nodes(Mode::Write);
    let calls = RefCell::new(Vec::new());
    let result = Model::update(&source, "rtu-b", &Mode::Write, |request: DriverRequest| {
        calls.borrow_mut().push(request);
        reads(State::On)
    });
    assert!(result.is_ok());
    assert_eq!(
        calls.into_inner(),
        vec![
            DriverRequest {
                driver_kind: Driver::STR1,
                controller_address: 1,
                address: 0,
                command: Command::SwitchRelay { state: State::On },
            },
            DriverRequest {
                driver_kind: Driver::STR1,
                controller_address: 1,
                address: 1,
                command: Command::SwitchRelay { state: State::Off },
            },
            DriverRequest {
                driver_kind: Driver::Omega,
                controller_address: 22,
                address: 0,
                command: Command::DrivePid { setpoint: 172.0f64.to_bits(), state: State::On },
            },
        ]
    );
}

#[test]
fn reconcile_in_read_mode_pushes_nothing() {
    let source = three_nodes(Mode::Read);
    let calls = RefCell::new(Vec::new());
    let result = Model::update(&source, "rtu-b", &Mode::Read, |request: DriverRequest| {
        calls.borrow_mut().push(request.command);
        reads(State::On)
    })
    .unwrap();
    assert_eq!(calls.into_inner(), vec![Command::Read, Command::Read, Command::Read]);
    assert_eq!(result.rtus[1].devices[1].state, State::On);
}

#[test]
fn a_node_that_owns_nothing_passes_the_model_on() {
    let source = three_nodes(Mode::Write);
    let calls = RefCell::new(0u32);
    let result = Model::update(&source, "rtu-z", &Mode::Write, |_request: DriverRequest| {
        *calls.borrow_mut() += 1;
        reads(State::Off)
    });
    assert_eq!(result, Ok(source));
    assert_eq!(calls.into_inner(), 0);
}

#[test]
fn an_empty_model_reconciles_to_itself() {
    let source = document(Mode::Read, vec![]);
    let result = Model::update(&source, "rtu-a", &Mode::Read, |_request: DriverRequest| {
        reads(State::On)
    });
    assert_eq!(result, Ok(source));
}

#[test]
fn write_overwrites_request_state() {
    let source = document(
        Mode::Write,
        vec![entry("rtu-1", 5, vec![relay_at("d1", 0, State::On)])],
    );
    let pushed = RefCell::new(Vec::new());
    let result = Model::update(&source, "rtu-1", &Mode::Write, |request: DriverRequest| {
        pushed.borrow_mut().push(request.command);
        reads(State::Off)
    })
    .unwrap();
    assert_eq!(pushed.into_inner(), vec![Command::SwitchRelay { state: State::On }]);
    assert_eq!(result.rtus[0].devices[0].state, State::Off);
}

#[test]
fn fail_fast_on_driver_error() {
    let source = document(
        Mode::Write,
        vec![entry(
            "rtu-1",
            5,
            vec![
                relay_at("d1", 0, State::On),
                relay_at("d2", 1, State::On),
                relay_at("d3", 2, State::On),
            ],
        )],
    );
    let calls = RefCell::new(Vec::new());
    let result = Model::update(&source, "rtu-1", &Mode::Write, |request: DriverRequest| {
        calls.borrow_mut().push(request.address);
        if request.address == 1 {
            Err(DriverError { detail: String::from("relay board does not answer") })
        } else {
            reads(State::Off)
        }
    });
    assert_eq!(
        result,
        Err(Error {
            kind: ErrorKind::Driver,
            node: String::from("rtu-1"),
            device: Some(String::from("d2")),
            detail: String::from("relay board does not answer"),
        })
    );
    assert_eq!(calls.into_inner(), vec![0, 1]);
}

#[test]
fn a_failed_device_and_those_after_it_stay_as_they_were() {
    let source = document(
        Mode::Write,
        vec![entry(
            "rtu-1",
            5,
            vec![
                relay_at("d1", 0, State::On),
                relay_at("d2", 1, State::On),
                relay_at("d3", 2, State::On),
            ],
        )],
    );
    let mut engine = Reconciliation::begin(&source, "rtu-1", &Mode::Write);
    assert_eq!(engine.pending().map(|request| request.address), Some(0));
    engine = engine.record(reads(State::Off));
    assert_eq!(engine.pending().map(|request| request.address), Some(1));
    engine = engine.record(Err(DriverError { detail: String::from("timeout") }));
    assert_eq!(engine.pending(), None);
    engine = engine.record(reads(State::Off));
    assert_eq!(engine.pending(), None);
    assert_eq!(engine.model().rtus[0].devices[0], relay_at("d1", 0, State::Off));
    assert_eq!(engine.model().rtus[0].devices[1], source.rtus[0].devices[1]);
    assert_eq!(engine.model().rtus[0].devices[2], source.rtus[0].devices[2]);
    let error = engine.finish().unwrap_err();
    assert_eq!(error.kind, ErrorKind::Driver);
    assert_eq!(error.node, "rtu-1");
    assert_eq!(error.device, Some(String::from("d2")));
    assert_eq!(error.detail, "timeout");
}

#[test]
fn the_engine_hands_out_one_request_at_a_time() {
    let source = three_nodes(Mode::Write);
    let mut engine = Reconciliation::begin(&source, "rtu-a", &Mode::Write);
    let first = engine.pending().unwrap();
    assert_eq!(first.address, 0);
    assert_eq!(engine.pending(), Some(first));
    engine = engine.record(reads(State::Off));
    let second = engine.pending().unwrap();
    assert_eq!(second.address, 1);
    engine = engine.record(reads(State::On));
    assert_eq!(engine.pending(), None);
    let result = engine.finish().unwrap();
    assert_eq!(result.rtus[0].devices[0].state, State::Off);
    assert_eq!(result.rtus[0].devices[1].state, State::On);
    assert_eq!(result.rtus[1], source.rtus[1]);
    assert_eq!(result.rtus[2], source.rtus[2]);
}

#[test]
fn writing_a_pid_without_setpoint_fails_on_that_device() {
    let source = document(
        Mode::Write,
        vec![entry(
            "rtu-1",
            5,
            vec![relay_at("d1", 0, State::On), pid_at("d2", State::On, None), relay_at("d3", 2, State::On)],
        )],
    );
    let calls = RefCell::new(Vec::new());
    let result = Model::update(&source, "rtu-1", &Mode::Write, |request: DriverRequest| {
        calls.borrow_mut().push(request.driver_kind);
        reads(State::Off)
    });
    assert_eq!(
        result,
        Err(Error {
            kind: ErrorKind::Driver,
            node: String::from("rtu-1"),
            device: Some(String::from("d2")),
            detail: String::from("device has no setpoint to write"),
        })
    );
    assert_eq!(calls.into_inner(), vec![Driver::STR1]);
}

#[test]
fn reading_a_pid_without_setpoint_succeeds() {
    let source = document(
        Mode::Read,
        vec![entry("rtu-1", 5, vec![pid_at("d2", State::On, None)])],
    );
    let result = Model::update(&source, "rtu-1", &Mode::Read, |_request: DriverRequest| {
        Ok(Reading {
            state: State::Off,
            process_value: Some(66.5f64.to_bits()),
            setpoint_value: Some(70.0f64.to_bits()),
        })
    })
    .unwrap();
    let device = &result.rtus[0].devices[0];
    assert_eq!(device.state, State::Off);
    assert_eq!(device.process_value.map(f64::from_bits), Some(66.5));
    assert_eq!(device.setpoint_value.map(f64::from_bits), Some(70.0));
}

#[test]
fn every_entry_with_the_identity_is_reconciled() {
    let source = document(
        Mode::Read,
        vec![
            entry("twin", 1, vec![relay_at("x", 0, State::On)]),
            entry("other", 2, vec![relay_at("y", 0, State::On)]),
            entry("twin", 3, vec![relay_at("z", 4, State::On)]),
        ],
    );
    assert!(!source.is_well_formed());
    let calls = RefCell::new(Vec::new());
    let result = Model::update(&source, "twin", &Mode::Read, |request: DriverRequest| {
        calls.borrow_mut().push(request.address);
        reads(State::Off)
    })
    .unwrap();
    assert_eq!(calls.into_inner(), vec![0, 4]);
    assert_eq!(result.rtus[0].devices[0].state, State::Off);
    assert_eq!(result.rtus[1], source.rtus[1]);
    assert_eq!(result.rtus[2].devices[0].state, State::Off);
}

#[test]
fn an_owned_node_without_devices_asks_nothing() {
    let source = document(Mode::Write, vec![entry("rtu-1", 5, vec![])]);
    let engine = Reconciliation::begin(&source, "rtu-1", &Mode::Write);
    assert_eq!(engine.pending(), None);
    assert_eq!(engine.finish(), Ok(source));
}

#[test]
fn reconcile_keeps_a_well_formed_model_well_formed() {
    let source = three_nodes(Mode::Write);
    assert!(source.is_well_formed());
    let result = Model::update(&source, "rtu-b", &Mode::Write, |_request: DriverRequest| {
        reads(State::Off)
    })
    .unwrap();
    assert!(result.is_well_formed());
}
