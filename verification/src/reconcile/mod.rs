//! The reconciliation engine, which runs on a node.
//!
//! A node is handed the whole fleet model and acts only on the entries that
//! carry its own identity. For each device of such an entry, in list order,
//! the engine hands out one request for the driver and takes back what the
//! driver answered; the first failure ends the run. Every other entry, and
//! every field that is not a device's state or measurement, comes out as it
//! went in.

use crate::dispatch::{DriverError, DriverRequest, Reading};
use crate::error::{Error, ErrorKind, ErrorView};
use crate::model::device::DeviceView;
use crate::model::model::{Model, ModelView};
use crate::model::rtu::{RtuView, RTU};
use crate::model::Mode;
use vstd::prelude::*;

pub mod laws;

verus! {

/// The place of one device in a model: the index of its node, and its own
/// index among the node's devices.
pub struct Slot {
    pub rtu: int,
    pub device: int,
}

impl ModelView {
    /// Whether the model has a device at `slot`.
    pub open spec fn has(self, slot: Slot) -> bool {
        &&& 0 <= slot.rtu < self.rtus.len()
        &&& 0 <= slot.device < self.rtus[slot.rtu].devices.len()
    }

    /// The device at `slot`.
    pub open spec fn device(self, slot: Slot) -> DeviceView
        recommends
            self.has(slot),
    {
        self.rtus[slot.rtu].devices[slot.device]
    }

    /// The model with `reading` written over the device at `slot`; the model
    /// itself where it has no such device.
    pub open spec fn with_reading(self, slot: Slot, reading: Reading) -> ModelView {
        if 0 <= slot.rtu < self.rtus.len() {
            ModelView {
                rtus: self.rtus.update(
                    slot.rtu,
                    self.rtus[slot.rtu].with_reading(slot.device, reading),
                ),
                ..self
            }
        } else {
            self
        }
    }
}

/// The slots of all devices of the node at index `rtu`, in list order.
pub open spec fn slots_of(rtu: int, devices: nat) -> Seq<Slot> {
    Seq::new(devices, |device: int| Slot { rtu, device })
}

/// The slots of every device that belongs to `identity`: the devices of each
/// node whose id is `identity`, node by node and device by device, in list
/// order.
pub open spec fn owned_slots(rtus: Seq<RtuView>, identity: Seq<char>) -> Seq<Slot>
    decreases rtus.len(),
{
    if rtus.len() == 0 {
        Seq::empty()
    } else {
        let before = owned_slots(rtus.drop_last(), identity);
        if rtus.last().id == identity {
            before + slots_of(rtus.len() - 1, rtus.last().devices.len())
        } else {
            before
        }
    }
}

/// What is reported for a PID controller that is to be written and names no
/// setpoint.
pub open spec fn no_setpoint() -> Seq<char> {
    "device has no setpoint to write"@
}

/// The state of a reconciliation as a mathematical value.
pub struct ReconciliationView {
    /// The model as it stands, with every reading so far written into it.
    pub model: ModelView,
    pub mode: Mode,
    /// The identity of the node that reconciles.
    pub node: Seq<char>,
    /// The devices to visit, in order.
    pub slots: Seq<Slot>,
    /// How many of them have been visited.
    pub next: int,
    /// The failure that ended the run, if one did.
    pub failure: Option<ErrorView>,
}

impl ReconciliationView {
    /// The failure of the device under the cursor, with `detail`.
    pub open spec fn failure_here(self, detail: Seq<char>) -> ErrorView {
        ErrorView {
            kind: ErrorKind::Driver,
            node: self.node,
            device: Some(self.model.device(self.slots[self.next]).id),
            detail,
        }
    }

    /// Whether the cursor stands on a device and nothing has failed.
    pub open spec fn active(self) -> bool {
        self.failure is None && 0 <= self.next < self.slots.len()
    }

    /// The state with the device under the cursor looked at: where that
    /// device has no request to make, the run has failed on it.
    pub open spec fn settled(self) -> ReconciliationView {
        if self.active() && self.model.device(self.slots[self.next]).request(self.mode) is None {
            ReconciliationView { failure: Some(self.failure_here(no_setpoint())), ..self }
        } else {
            self
        }
    }

    /// The state in which a node with identity `identity` starts on `model`.
    pub open spec fn begin(model: ModelView, identity: Seq<char>, mode: Mode) -> ReconciliationView {
        ReconciliationView {
            model,
            mode,
            node: identity,
            slots: owned_slots(model.rtus, identity),
            next: 0,
            failure: None,
        }.settled()
    }

    /// The request that the engine waits to have answered: none once the run
    /// has failed or every device has been visited.
    pub open spec fn pending(self) -> Option<DriverRequest> {
        if self.active() {
            self.model.device(self.slots[self.next]).request(self.mode)
        } else {
            None
        }
    }

    /// The state after the driver has answered the pending request with
    /// `outcome`. With nothing pending the answer is dropped.
    pub open spec fn record(self, outcome: Result<Reading, DriverError>) -> ReconciliationView {
        if self.pending() is None {
            self
        } else {
            match outcome {
                Ok(reading) => ReconciliationView {
                    model: self.model.with_reading(self.slots[self.next], reading),
                    next: self.next + 1,
                    ..self
                }.settled(),
                Err(error) => ReconciliationView {
                    failure: Some(self.failure_here(error.detail@)),
                    ..self
                },
            }
        }
    }

    /// The state after the driver's answers `outcomes`, taken in order.
    pub open spec fn run(self, outcomes: Seq<Result<Reading, DriverError>>) -> ReconciliationView
        decreases outcomes.len(),
    {
        if outcomes.len() == 0 {
            self
        } else {
            self.run(outcomes.drop_last()).record(outcomes.last())
        }
    }

    /// What the reconciliation yields: the failure if there was one, else the
    /// model as it stands.
    pub open spec fn outcome(self) -> Result<ModelView, ErrorView> {
        match self.failure {
            Some(error) => Err(error),
            None => Ok(self.model),
        }
    }

    /// Every slot names a device of the model that belongs to the node, and
    /// the cursor is within the slots.
    pub open spec fn valid(self) -> bool {
        &&& 0 <= self.next <= self.slots.len()
        &&& forall|k: int|
            0 <= k < self.slots.len() ==> self.model.has(#[trigger] self.slots[k])
                && self.model.rtus[self.slots[k].rtu].id == self.node
    }

    /// A valid state in which the device under the cursor has been looked at.
    pub open spec fn well_formed(self) -> bool {
        &&& self.valid()
        &&& self.active() ==> self.pending() is Some
    }
}

/// The contents of what a reconciliation returns.
pub open spec fn result_view(result: Result<Model, Error>) -> Result<ModelView, ErrorView> {
    match result {
        Ok(model) => Ok(model@),
        Err(error) => Err(error@),
    }
}

/// The slots that a list of index pairs stands for.
pub open spec fn slot_views(slots: Seq<(usize, usize)>) -> Seq<Slot> {
    slots.map_values(|slot: (usize, usize)| Slot { rtu: slot.0 as int, device: slot.1 as int })
}

/// Every slot of `owned_slots` names a device of a node whose id is
/// `identity`.
pub proof fn lemma_owned_slots_are_owned(rtus: Seq<RtuView>, identity: Seq<char>)
    ensures
        forall|k: int|
            0 <= k < owned_slots(rtus, identity).len() ==> {
                let slot = #[trigger] owned_slots(rtus, identity)[k];
                &&& 0 <= slot.rtu < rtus.len()
                &&& 0 <= slot.device < rtus[slot.rtu].devices.len()
                &&& rtus[slot.rtu].id == identity
            },
    decreases rtus.len(),
{
    if rtus.len() > 0 {
        let before = owned_slots(rtus.drop_last(), identity);
        lemma_owned_slots_are_owned(rtus.drop_last(), identity);
        assert forall|k: int| 0 <= k < owned_slots(rtus, identity).len() implies {
            let slot = #[trigger] owned_slots(rtus, identity)[k];
            &&& 0 <= slot.rtu < rtus.len()
            &&& 0 <= slot.device < rtus[slot.rtu].devices.len()
            &&& rtus[slot.rtu].id == identity
        } by {
            if k < before.len() {
                let slot = before[k];
                assert(rtus.drop_last()[slot.rtu] == rtus[slot.rtu]);
            }
        }
    }
}

/// A reconciliation in progress.
///
/// [`Reconciliation::begin`] starts one. While [`Reconciliation::pending`]
/// gives a request, the caller has the driver act on it and hands the answer
/// to [`Reconciliation::record`]. [`Reconciliation::finish`] gives the model.
pub struct Reconciliation {
    model: Model,
    mode: Mode,
    node: String,
    slots: Vec<(usize, usize)>,
    next: usize,
    failure: Option<Error>,
}

impl View for Reconciliation {
    type V = ReconciliationView;

    closed spec fn view(&self) -> ReconciliationView {
        assembled(self.model, self.mode, self.node, self.slots, self.next, self.failure)
    }
}

/// Lists the devices of `model` that belong to `node`.
fn collect_owned(model: &Model, node: &String) -> (slots: Vec<(usize, usize)>)
    ensures
        slot_views(slots@) == owned_slots(model@.rtus, node@),
{
    let mut slots: Vec<(usize, usize)> = Vec::new();
    let mut r: usize = 0;
    assert(model@.rtus.take(0) =~= Seq::<RtuView>::empty());
    while r < model.rtus.len()
        invariant
            r <= model.rtus.len(),
            slot_views(slots@) == owned_slots(model@.rtus.take(r as int), node@),
        decreases model.rtus.len() - r,
    {
        let ghost upto = model@.rtus.take(r as int + 1);
        assert(upto.drop_last() =~= model@.rtus.take(r as int));
        assert(upto.last() == model.rtus@[r as int]@);
        if model.rtus[r].id == *node {
            let count = model.rtus[r].devices.len();
            let ghost before = slot_views(slots@);
            let mut d: usize = 0;
            assert(slot_views(slots@) =~= before + slots_of(r as int, 0));
            while d < count
                invariant
                    d <= count,
                    slot_views(slots@) == before + slots_of(r as int, d as nat),
                decreases count - d,
            {
                let ghost visited = slots@;
                slots.push((r, d));
                d = d + 1;
                assert(slot_views(slots@) =~= slot_views(visited).push(
                    Slot { rtu: r as int, device: d - 1 },
                ));
                assert(slots_of(r as int, d as nat) =~= slots_of(r as int, (d - 1) as nat).push(
                    Slot { rtu: r as int, device: d - 1 },
                ));
                assert(slot_views(slots@) =~= before + slots_of(r as int, d as nat));
            }
        }
        r = r + 1;
    }
    assert(model@.rtus.take(r as int) =~= model@.rtus);
    slots
}

/// The state that the parts of an engine stand for.
pub open spec fn assembled(
    model: Model,
    mode: Mode,
    node: String,
    slots: Vec<(usize, usize)>,
    next: usize,
    failure: Option<Error>,
) -> ReconciliationView {
    ReconciliationView {
        model: model@,
        mode,
        node: node@,
        slots: slot_views(slots@),
        next: next as int,
        failure: match failure {
            Some(error) => Some(error@),
            None => None,
        },
    }
}

/// Looks at the device under the cursor: where that device has no request to
/// make, the run fails on it.
fn look(
    model: &Model,
    mode: &Mode,
    node: &String,
    slots: &Vec<(usize, usize)>,
    next: usize,
) -> (failure: Option<Error>)
    requires
        assembled(*model, *mode, *node, *slots, next, None).valid(),
    ensures
        assembled(*model, *mode, *node, *slots, next, failure) == assembled(
            *model,
            *mode,
            *node,
            *slots,
            next,
            None,
        ).settled(),
        assembled(*model, *mode, *node, *slots, next, failure).well_formed(),
{
    let ghost state = assembled(*model, *mode, *node, *slots, next, None);
    if next < slots.len() {
        let (r, d) = slots[next];
        assert(state.model.has(state.slots[next as int]));
        let device = &model.rtus[r].devices[d];
        if device.request(mode).is_none() {
            return Some(
                Error {
                    kind: ErrorKind::Driver,
                    node: node.clone(),
                    device: Some(device.id.clone()),
                    detail: "device has no setpoint to write".to_owned(),
                },
            );
        }
    }
    None
}

impl Reconciliation {
    /// Every slot names an owned device of the model, the cursor is within
    /// the slots, and the device under the cursor has been looked at.
    #[verifier::type_invariant]
    spec fn sound(self) -> bool {
        self@.well_formed()
    }

    /// Starts a reconciliation of `source_model` on the node whose identity
    /// is `identity`. The model is copied; the source is not touched.
    pub fn begin(source_model: &Model, identity: &str, mode: &Mode) -> (engine: Self)
        ensures
            engine@ == ReconciliationView::begin(source_model@, identity@, *mode),
            engine@.well_formed(),
    {
        let node = identity.to_owned();
        let model = source_model.clone();
        let slots = collect_owned(&model, &node);
        proof {
            lemma_owned_slots_are_owned(model@.rtus, node@);
        }
        let failure = look(&model, mode, &node, &slots, 0);
        Reconciliation { model, mode: *mode, node, slots, next: 0, failure }
    }

    /// The request that the driver is to act on next, or `None` once every
    /// owned device has been visited or the run has failed.
    pub fn pending(&self) -> (request: Option<DriverRequest>)
        ensures
            request == self@.pending(),
            self@.well_formed(),
    {
        proof {
            use_type_invariant(self);
        }
        if self.failure.is_none() && self.next < self.slots.len() {
            let (r, d) = self.slots[self.next];
            assert(self@.model.has(self@.slots[self.next as int]));
            self.model.rtus[r].devices[d].request(&self.mode)
        } else {
            None
        }
    }

    /// The model as it stands: the source with every reading so far written
    /// into it.
    pub fn model(&self) -> (model: &Model)
        ensures
            model@ == self@.model,
    {
        &self.model
    }

    /// Takes the driver's answer to the pending request and gives the engine
    /// as it stands then. A reading is written over the device and the cursor
    /// moves on; an error fails the run on that device, which stays as it
    /// was. With nothing pending the answer is dropped.
    pub fn record(self, outcome: Result<Reading, DriverError>) -> (engine: Self)
        ensures
            engine@ == self@.record(outcome),
            engine@.well_formed(),
    {
        proof {
            use_type_invariant(&self);
        }
        if self.failure.is_some() || self.next >= self.slots.len() {
            return self;
        }
        let ghost before = self@;
        let Reconciliation { mut model, mode, node, slots, next, failure } = self;
        let (r, d) = slots[next];
        assert(before.model.has(before.slots[next as int]));
        match outcome {
            Ok(reading) => {
                RTU::update(&mut model.rtus[r], d, &reading);
                proof {
                    let slot = before.slots[before.next];
                    assert(model@.rtus =~= before.model.rtus.update(
                        slot.rtu,
                        before.model.rtus[slot.rtu].with_reading(slot.device, reading),
                    ));
                    assert(model@ == before.model.with_reading(slot, reading));
                    assert forall|k: int| 0 <= k < before.slots.len() implies model@.has(
                        #[trigger] before.slots[k],
                    ) && model@.rtus[before.slots[k].rtu].id == before.node by {
                        assert(before.model.has(before.slots[k]));
                    }
                }
                let failure = look(&model, &mode, &node, &slots, next + 1);
                Reconciliation { model, mode, node, slots, next: next + 1, failure }
            },
            Err(error) => {
                let failure = Some(
                    Error {
                        kind: ErrorKind::Driver,
                        node: node.clone(),
                        device: Some(model.rtus[r].devices[d].id.clone()),
                        detail: error.detail,
                    },
                );
                Reconciliation { model, mode, node, slots, next, failure }
            },
        }
    }

    /// Ends the reconciliation: the failure if there was one, else the model
    /// with every reading written into it.
    pub fn finish(self) -> (result: Result<Model, Error>)
        ensures
            result_view(result) == self@.outcome(),
    {
        match self.failure {
            Some(error) => Err(error),
            None => Ok(self.model),
        }
    }
}

impl ReconciliationView {
    /// A bound on the answers that the engine still takes.
    pub open spec fn remaining(self) -> int {
        self.slots.len() - self.next + if self.failure is None {
            1int
        } else {
            0int
        }
    }
}

/// Whether `driver` may have given the answers `outcomes`, one after the
/// other, to the requests of a reconciliation that starts in `start`: the
/// request for each answer is the one that is pending after the answers
/// before it.
pub open spec fn answered_by<F: Fn(DriverRequest) -> Result<Reading, DriverError>>(
    driver: F,
    start: ReconciliationView,
    outcomes: Seq<Result<Reading, DriverError>>,
) -> bool {
    forall|k: int|
        0 <= k < outcomes.len() ==> {
            let request = start.run(#[trigger] outcomes.take(k)).pending();
            request is Some && call_ensures(driver, (request->0,), outcomes[k])
        }
}

/// Whether `result` is what a whole reconciliation gives when `driver`
/// answers with `outcomes`: the answers are the driver's, they leave nothing
/// pending, and `result` is what the engine then yields.
pub open spec fn reconciled_by<F: Fn(DriverRequest) -> Result<Reading, DriverError>>(
    driver: F,
    start: ReconciliationView,
    outcomes: Seq<Result<Reading, DriverError>>,
    result: Result<ModelView, ErrorView>,
) -> bool {
    &&& answered_by(driver, start, outcomes)
    &&& start.run(outcomes).pending() is None
    &&& result == start.run(outcomes).outcome()
}

/// Whether `after` is `before` with a reading written over it that `driver`
/// may give for the request of `before` under `mode`.
pub open spec fn read_by<F: Fn(DriverRequest) -> Result<Reading, DriverError>>(
    driver: F,
    mode: Mode,
    before: DeviceView,
    after: DeviceView,
) -> bool {
    exists|reading: Reading|
        before.request(mode) is Some && call_ensures(
            driver,
            (before.request(mode)->0,),
            Ok::<Reading, DriverError>(reading),
        ) && after == #[trigger] before.observed(reading)
}

/// Whether `error` is the failure of `device` on the node `identity` under
/// `mode`: the device has no request to make, or `driver` may answer its
/// request with an error of that detail.
pub open spec fn failed_by<F: Fn(DriverRequest) -> Result<Reading, DriverError>>(
    driver: F,
    mode: Mode,
    identity: Seq<char>,
    device: DeviceView,
    error: ErrorView,
) -> bool {
    &&& error.kind == ErrorKind::Driver
    &&& error.node == identity
    &&& error.device == Some(device.id)
    &&& match device.request(mode) {
        None => error.detail == no_setpoint(),
        Some(request) => exists|reported: DriverError| #[trigger]
            call_ensures(driver, (request,), Err::<Reading, DriverError>(reported))
                && error.detail == reported.detail@,
    }
}

/// Whether `result` is a reconciliation of `source` by `driver`, said
/// without the engine. A model that comes back is `source` but for the owned
/// devices, each of which holds a reading that `driver` may give for the
/// request of that device as `source` has it. An error that comes back is the
/// failure of an owned device of `source`.
pub open spec fn reconciled<F: Fn(DriverRequest) -> Result<Reading, DriverError>>(
    driver: F,
    source: ModelView,
    identity: Seq<char>,
    mode: Mode,
    result: Result<ModelView, ErrorView>,
) -> bool {
    match result {
        Ok(model) => {
            &&& model.isolates(source, identity)
            &&& forall|r: int, d: int|
                0 <= r < source.rtus.len() && source.rtus[r].id == identity && 0 <= d
                    < source.rtus[r].devices.len() ==> read_by(
                    driver,
                    mode,
                    source.rtus[r].devices[d],
                    #[trigger] model.rtus[r].devices[d],
                )
        },
        Err(error) => exists|r: int, d: int|
            0 <= r < source.rtus.len() && source.rtus[r].id == identity && 0 <= d
                < source.rtus[r].devices.len() && failed_by(
                driver,
                mode,
                identity,
                #[trigger] source.rtus[r].devices[d],
                error,
            ),
    }
}

impl Model {
    /// Reconciles `source_model` on the node whose identity is `identity`:
    /// for each device of each entry with that id, in list order, `driver` is
    /// called with the device's request and its reading is written over the
    /// device. The first failure ends the run and is returned with the id of
    /// the device it arose on; no later device is handed to the driver.
    ///
    /// What comes back is exactly what the engine yields for the answers that
    /// `driver` gave; [`reconciled`] says the same without the engine.
    pub fn update<F: Fn(DriverRequest) -> Result<Reading, DriverError>>(
        source_model: &Model,
        identity: &str,
        mode: &Mode,
        driver: F,
    ) -> (result: Result<Model, Error>)
        requires
            forall|request: DriverRequest| call_requires(driver, (request,)),
        ensures
            exists|outcomes: Seq<Result<Reading, DriverError>>| #[trigger]
                reconciled_by(
                    driver,
                    ReconciliationView::begin(source_model@, identity@, *mode),
                    outcomes,
                    result_view(result),
                ),
            reconciled(driver, source_model@, identity@, *mode, result_view(result)),
    {
        let mut engine = Reconciliation::begin(source_model, identity, mode);
        let ghost start = engine@;
        let ghost mut outcomes: Seq<Result<Reading, DriverError>> = Seq::empty();
        let mut request = engine.pending();
        while request.is_some()
            invariant
                engine@ == start.run(outcomes),
                request == engine@.pending(),
                answered_by(driver, start, outcomes),
                forall|request: DriverRequest| call_requires(driver, (request,)),
            decreases engine@.remaining(),
        {
            let outcome = driver(request.unwrap());
            let ghost answer = outcome;
            let ghost answers = outcomes.push(answer);
            proof {
                assert(answers.drop_last() =~= outcomes);
                assert forall|k: int| 0 <= k < answers.len() implies {
                    let request = start.run(#[trigger] answers.take(k)).pending();
                    request is Some && call_ensures(driver, (request->0,), answers[k])
                } by {
                    if k < outcomes.len() {
                        assert(answers.take(k) =~= outcomes.take(k));
                    } else {
                        assert(answers.take(k) =~= outcomes);
                    }
                }
            }
            engine = engine.record(outcome);
            request = engine.pending();
            proof {
                outcomes = answers;
            }
        }
        let result = engine.finish();
        proof {
            assert(reconciled_by(driver, start, outcomes, result_view(result)));
            laws::lemma_reconciled_without_engine(
                driver,
                source_model@,
                identity@,
                *mode,
                outcomes,
                result_view(result),
            );
        }
        result
    }
}

} // verus!
