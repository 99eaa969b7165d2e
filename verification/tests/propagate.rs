use rtu_fleet::{
    propagate, Device, Driver, DriverRequest, Error, ErrorKind, Fault, Metadata, Mode, Model,
    NetworkAddress, Propagation, Reading, State, RTU,
};
use std::cell::RefCell;

fn switch(id: &str, state: State) -> Device {
    Device {
        driver_kind: Driver::STR1,
        name: String::from("Some Relay"),
        id: String::from(id),
        state,
        address: 0,
        controller_address: 1,
        process_value: None,
        setpoint_value: None,
    }
}

fn address(last_octet: u8) -> NetworkAddress {
    NetworkAddress { octets: [10, 0, 0, last_octet], port: 3012 }
}

fn stop(id: &str, last_octet: u8, devices: Vec<Device>) -> RTU {
    RTU {
        name: String::from("RTU Name"),
        location: String::from("some location"),
        id: String::from(id),
        network_address: address(last_octet),
        devices,
    }
}

fn chain_of(id: u32, rtus: Vec<RTU>) -> Model {
    Model { mode: Mode::Write, id, rtus, metadata: Metadata::default() }
}

fn abc(id: u32) -> Model {
    chain_of(
        id,
        vec![
            stop("A", 1, vec![switch("a1", State::On)]),
            stop("B", 2, vec![switch("b1", State::On)]),
            stop("C", 3, vec![switch("c1", State::On)]),
        ],
    )
}

#[test]
fn cumulative_chaining() {
    let submitted = abc(0);
    let received = RefCell::new(Vec::new());
    let result = propagate(submitted.clone(), |to: NetworkAddress, payload: &Model| {
        received.borrow_mut().push((to, payload.clone()));
        Ok(abc(u32::from(to.octets[3])))
    });
    let received = received.into_inner();
    assert_eq!(received.len(), 3);
    assert_eq!(received[0], (address(1), submitted));
    assert_eq!(received[1], (address(2), abc(1)));
    assert_eq!(received[2], (address(3), abc(2)));
    assert_eq!(result, Ok(abc(3)));
}

#[test]
fn empty_fleet() {
    let submitted = chain_of(32, vec![]);
    let calls = RefCell::new(0u32);
    let result = propagate(submitted.clone(), |_to: NetworkAddress, payload: &Model| {
        *calls.borrow_mut() += 1;
        Ok(payload.clone())
    });
    assert_eq!(result, Ok(submitted));
    assert_eq!(calls.into_inner(), 0);
}

#[test]
fn the_nodes_to_call_are_fixed_at_the_start() {
    let submitted = abc(0);
    let calls = RefCell::new(Vec::new());
    let result = propagate(submitted, |to: NetworkAddress, _payload: &Model| {
        calls.borrow_mut().push(to);
        Ok(chain_of(9, vec![]))
    });
    assert_eq!(calls.into_inner(), vec![address(1), address(2), address(3)]);
    assert_eq!(result, Ok(chain_of(9, vec![])));
}

#[test]
fn a_fault_ends_the_chain_and_names_the_node() {
    let calls = RefCell::new(Vec::new());
    let result = propagate(abc(0), |to: NetworkAddress, payload: &Model| {
        calls.borrow_mut().push(to);
        if to == address(2) {
            Err(Fault { kind: ErrorKind::Transport, detail: String::from("connection reset") })
        } else {
            Ok(payload.clone())
        }
    });
    assert_eq!(
        result,
        Err(Error {
            kind: ErrorKind::Transport,
            node: String::from("B"),
            device: None,
            detail: String::from("connection reset"),
        })
    );
    assert_eq!(calls.into_inner(), vec![address(1), address(2)]);
}

#[test]
fn a_malformed_answer_is_a_serialization_error() {
    let result = propagate(abc(0), |_to: NetworkAddress, _payload: &Model| {
        Err(Fault { kind: ErrorKind::Serialization, detail: String::from("expected value") })
    });
    let error = result.unwrap_err();
    assert_eq!(error.kind, ErrorKind::Serialization);
    assert_eq!(error.node, "A");
    assert_eq!(error.device, None);
    assert_eq!(error.detail, "expected value");
}

#[test]
fn the_coordinator_hands_out_one_call_at_a_time() {
    let submitted = abc(0);
    let mut chain = Propagation::begin(submitted.clone());
    assert_eq!(chain.pending(), Some(address(1)));
    assert_eq!(chain.payload(), &submitted);
    chain = chain.deliver(Ok(abc(1)));
    assert_eq!(chain.pending(), Some(address(2)));
    assert_eq!(chain.payload(), &abc(1));
    chain = chain.deliver(Ok(abc(2)));
    assert_eq!(chain.pending(), Some(address(3)));
    assert_eq!(chain.payload(), &abc(2));
    chain = chain.deliver(Ok(abc(3)));
    assert_eq!(chain.pending(), None);
    chain = chain.deliver(Ok(abc(4)));
    assert_eq!(chain.pending(), None);
    assert_eq!(chain.finish(), Ok(abc(3)));
}

#[test]
fn a_failed_chain_drops_later_answers() {
    let mut chain = Propagation::begin(abc(0));
    chain = chain.deliver(Err(Fault { kind: ErrorKind::Transport, detail: String::from("timed out") }));
    assert_eq!(chain.pending(), None);
    assert_eq!(chain.payload(), &abc(0));
    chain = chain.deliver(Ok(abc(1)));
    let error = chain.finish().unwrap_err();
    assert_eq!(error.kind, ErrorKind::Transport);
    assert_eq!(error.node, "A");
    assert_eq!(error.detail, "timed out");
}

#[test]
fn scenario_one_node_one_relay() {
    let submitted = chain_of(1, vec![stop("rtu-1", 5, vec![switch("d1", State::On)])]);
    let outbound = RefCell::new(Vec::new());
    let result = propagate(submitted.clone(), |to: NetworkAddress, payload: &Model| {
        outbound.borrow_mut().push(to);
        Model::update(payload, "rtu-1", &payload.mode, |_request: DriverRequest| {
            Ok(Reading { state: State::Off, process_value: None, setpoint_value: None })
        })
        .map_err(|error| Fault { kind: error.kind, detail: error.detail })
    })
    .unwrap();
    assert_eq!(
        outbound.into_inner(),
        vec![NetworkAddress { octets: [10, 0, 0, 5], port: 3012 }]
    );
    let expected = chain_of(1, vec![stop("rtu-1", 5, vec![switch("d1", State::Off)])]);
    assert_eq!(result, expected);
    assert_eq!(result.rtus[0].devices[0].state, State::Off);
    assert_eq!(result.rtus[0].devices[0].id, "d1");
}

#[test]
fn each_node_sees_what_the_nodes_before_it_did() {
    let submitted = abc(0);
    let seen_by_c = RefCell::new(None);
    let result = propagate(submitted, |to: NetworkAddress, payload: &Model| {
        let identity = match to.octets[3] {
            1 => "A",
            2 => "B",
            _ => "C",
        };
        if identity == "C" {
            *seen_by_c.borrow_mut() = Some(payload.clone());
        }
        Model::update(payload, identity, &payload.mode, |_request: DriverRequest| {
            Ok(Reading { state: State::Off, process_value: None, setpoint_value: None })
        })
        .map_err(|error| Fault { kind: error.kind, detail: error.detail })
    })
    .unwrap();
    let seen = seen_by_c.into_inner().unwrap();
    assert_eq!(seen.rtus[0].devices[0].state, State::Off);
    assert_eq!(seen.rtus[1].devices[0].state, State::Off);
    assert_eq!(seen.rtus[2].devices[0].state, State::On);
    assert_eq!(result.rtus[2].devices[0].state, State::Off);
}
