//! What holds of every reconciliation, whatever the drivers answer.

use crate::dispatch::{DriverError, DriverRequest, Reading};
use crate::error::{ErrorKind, ErrorView};
use crate::model::model::ModelView;
use crate::model::rtu::RtuView;
use crate::model::Mode;
use crate::reconcile::{
    failed_by, lemma_owned_slots_are_owned, no_setpoint, owned_slots, read_by, reconciled,
    reconciled_by, ReconciliationView, Slot,
};
use vstd::prelude::*;

verus! {

impl ModelView {
    /// Whether `self` is `source` but for the state and the measurements of
    /// devices that belong to `identity`: the model's own fields are those of
    /// `source`, every node has kept its fields, the number of its devices
    /// and what identifies each of them, and a node with another id is the
    /// same in every field.
    pub open spec fn isolates(self, source: ModelView, identity: Seq<char>) -> bool {
        &&& self.mode == source.mode
        &&& self.id == source.id
        &&& self.metadata == source.metadata
        &&& self.rtus.len() == source.rtus.len()
        &&& forall|r: int|
            0 <= r < self.rtus.len() ==> (#[trigger] self.rtus[r]).same_identity(source.rtus[r])
        &&& forall|r: int|
            0 <= r < self.rtus.len() && source.rtus[r].id != identity ==> #[trigger] self.rtus[r]
                == source.rtus[r]
    }
}

/// Whether `first` comes before `second` in list order.
pub open spec fn precedes(first: Slot, second: Slot) -> bool {
    first.rtu < second.rtu || (first.rtu == second.rtu && first.device < second.device)
}

/// The owned slots stand in list order, so no device is visited twice.
pub proof fn lemma_owned_slots_in_order(rtus: Seq<RtuView>, identity: Seq<char>)
    ensures
        forall|i: int, j: int|
            0 <= i < j < owned_slots(rtus, identity).len() ==> precedes(
                #[trigger] owned_slots(rtus, identity)[i],
                #[trigger] owned_slots(rtus, identity)[j],
            ),
    decreases rtus.len(),
{
    if rtus.len() > 0 {
        let before = owned_slots(rtus.drop_last(), identity);
        lemma_owned_slots_in_order(rtus.drop_last(), identity);
        lemma_owned_slots_are_owned(rtus.drop_last(), identity);
        assert forall|i: int, j: int| 0 <= i < j < owned_slots(rtus, identity).len() implies precedes(
            #[trigger] owned_slots(rtus, identity)[i],
            #[trigger] owned_slots(rtus, identity)[j],
        ) by {
            if j < before.len() {
                assert(precedes(before[i], before[j]));
            } else if i < before.len() {
                assert(before[i].rtu < rtus.len() - 1);
            }
        }
    }
}

/// Every device of a node whose id is `identity` has its slot.
pub proof fn lemma_owned_slots_are_complete(
    rtus: Seq<RtuView>,
    identity: Seq<char>,
    rtu: int,
    device: int,
) -> (k: int)
    requires
        0 <= rtu < rtus.len(),
        rtus[rtu].id == identity,
        0 <= device < rtus[rtu].devices.len(),
    ensures
        0 <= k < owned_slots(rtus, identity).len(),
        owned_slots(rtus, identity)[k] == (Slot { rtu, device }),
    decreases rtus.len(),
{
    let before = owned_slots(rtus.drop_last(), identity);
    if rtu == rtus.len() - 1 {
        before.len() + device
    } else {
        assert(rtus.drop_last()[rtu] == rtus[rtu]);
        lemma_owned_slots_are_complete(rtus.drop_last(), identity, rtu, device)
    }
}

/// Whether `state` is what a reconciliation of `source` has to be after the
/// answers `outcomes`: the answers up to the cursor were readings and stand
/// in their devices, the devices from the cursor on are as `source` has
/// them, nothing else has changed, and a failure names the device under the
/// cursor.
pub open spec fn follows(
    state: ReconciliationView,
    source: ModelView,
    identity: Seq<char>,
    mode: Mode,
    outcomes: Seq<Result<Reading, DriverError>>,
) -> bool {
    &&& state.well_formed()
    &&& state.node == identity
    &&& state.mode == mode
    &&& state.slots == owned_slots(source.rtus, identity)
    &&& state.model.isolates(source, identity)
    &&& state.next <= outcomes.len()
    &&& state.pending() is Some ==> state.next == outcomes.len()
    &&& forall|k: int|
        0 <= k < state.next ==> (#[trigger] outcomes[k]) is Ok && state.model.device(
            state.slots[k],
        ) == source.device(state.slots[k]).observed(outcomes[k]->Ok_0)
    &&& forall|k: int|
        state.next <= k < state.slots.len() ==> state.model.device(#[trigger] state.slots[k])
            == source.device(state.slots[k])
    &&& state.failure matches Some(error) ==> {
        &&& state.next < state.slots.len()
        &&& error.kind == ErrorKind::Driver
        &&& error.node == identity
        &&& error.device == Some(source.device(state.slots[state.next]).id)
        &&& if source.device(state.slots[state.next]).request(mode) is None {
            error.detail == no_setpoint()
        } else {
            &&& state.next < outcomes.len()
            &&& outcomes[state.next] matches Err(reported)
            &&& error.detail == reported.detail@
        }
    }
}

/// A reconciliation starts as [`follows`] says.
proof fn lemma_begin_follows(source: ModelView, identity: Seq<char>, mode: Mode)
    ensures
        follows(
            ReconciliationView::begin(source, identity, mode),
            source,
            identity,
            mode,
            Seq::empty(),
        ),
{
    lemma_owned_slots_are_owned(source.rtus, identity);
}

/// An answer keeps a reconciliation as [`follows`] says.
proof fn lemma_record_follows(
    state: ReconciliationView,
    source: ModelView,
    identity: Seq<char>,
    mode: Mode,
    outcomes: Seq<Result<Reading, DriverError>>,
    outcome: Result<Reading, DriverError>,
)
    requires
        follows(state, source, identity, mode, outcomes),
    ensures
        follows(state.record(outcome), source, identity, mode, outcomes.push(outcome)),
{
    let after = state.record(outcome);
    let answers = outcomes.push(outcome);
    let slots = state.slots;
    if state.pending() is None {
        assert forall|k: int| 0 <= k < after.next implies (#[trigger] answers[k]) is Ok by {
            assert(outcomes[k] is Ok);
        }
    } else {
        let slot = slots[state.next];
        assert(state.model.has(slot));
        match outcome {
            Ok(reading) => {
                let model = state.model.with_reading(slot, reading);
                assert(after.model == model);
                lemma_owned_slots_in_order(source.rtus, identity);
                // Every node keeps what identifies it and its devices.
                assert forall|r: int| 0 <= r < model.rtus.len() implies same_rtu(
                    model,
                    source,
                    r,
                ) by {
                    assert(same_rtu(state.model, source, r));
                    if r == slot.rtu {
                        assert forall|d: int|
                            0 <= d < model.rtus[r].devices.len() implies same_device(
                            model,
                            source,
                            r,
                            d,
                        ) by {
                            assert(same_device(state.model, source, r, d));
                        }
                    }
                }
                // Every slot still names an owned device.
                assert forall|k: int| 0 <= k < slots.len() implies model.has(#[trigger] slots[k])
                    && model.rtus[slots[k].rtu].id == identity by {
                    assert(state.model.has(slots[k]));
                }
                // The devices behind the cursor hold their readings.
                assert forall|k: int| 0 <= k < after.next implies (#[trigger] answers[k]) is Ok
                    && model.device(slots[k]) == source.device(slots[k]).observed(
                    answers[k]->Ok_0,
                ) by {
                    assert(state.model.has(slots[k]));
                    if k < state.next {
                        assert(outcomes[k] is Ok);
                        assert(precedes(slots[k], slot));
                    }
                }
                // The devices from the cursor on are untouched.
                assert forall|k: int| after.next <= k < slots.len() implies model.device(
                    #[trigger] slots[k],
                ) == source.device(slots[k]) by {
                    assert(state.model.has(slots[k]));
                    assert(precedes(slot, slots[k]));
                }
            },
            Err(error) => {},
        }
    }
}

/// Whether the node at index `r` of `model` has kept what identifies it in
/// `source`.
spec fn same_rtu(model: ModelView, source: ModelView, r: int) -> bool {
    model.rtus[r].same_identity(source.rtus[r])
}

/// Whether the device at index `d` of the node at index `r` of `model` has
/// kept what identifies it in `source`.
spec fn same_device(model: ModelView, source: ModelView, r: int, d: int) -> bool {
    model.rtus[r].devices[d].same_identity(source.rtus[r].devices[d])
}

/// After any answers, a reconciliation of `source` is as [`follows`] says.
pub proof fn lemma_run_follows(
    source: ModelView,
    identity: Seq<char>,
    mode: Mode,
    outcomes: Seq<Result<Reading, DriverError>>,
)
    ensures
        follows(
            ReconciliationView::begin(source, identity, mode).run(outcomes),
            source,
            identity,
            mode,
            outcomes,
        ),
    decreases outcomes.len(),
{
    let start = ReconciliationView::begin(source, identity, mode);
    if outcomes.len() == 0 {
        lemma_begin_follows(source, identity, mode);
        assert(outcomes =~= Seq::empty());
    } else {
        lemma_run_follows(source, identity, mode, outcomes.drop_last());
        lemma_record_follows(
            start.run(outcomes.drop_last()),
            source,
            identity,
            mode,
            outcomes.drop_last(),
            outcomes.last(),
        );
        assert(outcomes.drop_last().push(outcomes.last()) =~= outcomes);
    }
}

/// The request that is pending after `k` answers, where one is, is the one
/// of the `k`-th owned device as the source model has it: a device is asked
/// for before anything has been written over it.
pub proof fn lemma_request_comes_from_source(
    source: ModelView,
    identity: Seq<char>,
    mode: Mode,
    outcomes: Seq<Result<Reading, DriverError>>,
)
    requires
        ReconciliationView::begin(source, identity, mode).run(outcomes).pending() is Some,
    ensures
        outcomes.len() < owned_slots(source.rtus, identity).len(),
        ReconciliationView::begin(source, identity, mode).run(outcomes).pending() == source.device(
            owned_slots(source.rtus, identity)[outcomes.len() as int],
        ).request(mode),
{
    lemma_run_follows(source, identity, mode, outcomes);
}

/// Ownership isolation: whatever the drivers answer, a reconciliation leaves
/// every node whose id is not the reconciling node's the same in every field,
/// and changes nothing anywhere but the state and the measurements of
/// devices.
pub proof fn lemma_reconciliation_isolates(
    source: ModelView,
    identity: Seq<char>,
    mode: Mode,
    outcomes: Seq<Result<Reading, DriverError>>,
)
    ensures
        ReconciliationView::begin(source, identity, mode).run(outcomes).model.isolates(
            source,
            identity,
        ),
        ReconciliationView::begin(source, identity, mode).run(outcomes).outcome() matches Ok(model)
            ==> model.isolates(source, identity),
{
    lemma_run_follows(source, identity, mode, outcomes);
}

/// A node that owns no entry of the model asks nothing of any driver and
/// passes the model on as it came.
pub proof fn lemma_stranger_passes_model_on(
    source: ModelView,
    identity: Seq<char>,
    mode: Mode,
    outcomes: Seq<Result<Reading, DriverError>>,
)
    requires
        forall|r: int| 0 <= r < source.rtus.len() ==> (#[trigger] source.rtus[r]).id != identity,
    ensures
        ReconciliationView::begin(source, identity, mode).pending() is None,
        ReconciliationView::begin(source, identity, mode).run(outcomes).outcome() == Ok::<
            ModelView,
            ErrorView,
        >(source),
{
    let start = ReconciliationView::begin(source, identity, mode);
    lemma_owned_slots_are_owned(source.rtus, identity);
    assert(start.slots.len() == 0) by {
        if start.slots.len() > 0 {
            let slot = owned_slots(source.rtus, identity)[0];
            assert(source.rtus[slot.rtu].id == identity);
        }
    }
    lemma_finished_drops_answers(start, outcomes);
}

/// Once nothing is pending, further answers change nothing.
pub proof fn lemma_finished_drops_answers(
    state: ReconciliationView,
    later: Seq<Result<Reading, DriverError>>,
)
    requires
        state.pending() is None,
    ensures
        state.run(later) == state,
    decreases later.len(),
{
    if later.len() > 0 {
        lemma_finished_drops_answers(state, later.drop_last());
    }
}

/// Fail fast: when a driver answers the pending request with an error, the
/// run ends there. The failure names the node and the device under the
/// cursor, no device has changed, nothing is pending any more, and whatever
/// is answered afterwards is dropped.
pub proof fn lemma_reconciliation_fails_fast(
    state: ReconciliationView,
    error: DriverError,
    later: Seq<Result<Reading, DriverError>>,
)
    requires
        state.pending() is Some,
    ensures
        ({
            let failed = state.record(Err(error));
            &&& failed.model == state.model
            &&& failed.pending() is None
            &&& failed.outcome() == Err::<ModelView, ErrorView>(
                ErrorView {
                    kind: ErrorKind::Driver,
                    node: state.node,
                    device: Some(state.model.device(state.slots[state.next]).id),
                    detail: error.detail@,
                },
            )
            &&& failed.run(later) == failed
        }),
{
    lemma_finished_drops_answers(state.record(Err(error)), later);
}

/// The reading wins: when a driver answers the pending request with a
/// reading, the device under the cursor takes the state that was read,
/// whatever state it asked for, and keeps what identifies it.
pub proof fn lemma_reading_wins(state: ReconciliationView, reading: Reading)
    requires
        state.well_formed(),
        state.pending() is Some,
    ensures
        ({
            let slot = state.slots[state.next];
            let after = state.record(Ok(reading));
            &&& after.model.device(slot) == state.model.device(slot).observed(reading)
            &&& after.model.device(slot).state == reading.state
            &&& after.model.device(slot).same_identity(state.model.device(slot))
            &&& after.next == state.next + 1
        }),
{
    let slot = state.slots[state.next];
    assert(state.model.has(slot));
}

/// Every owned device is visited: after a run that has left nothing pending
/// and has not failed, the device at place `device` of a node `rtu` whose id
/// is `identity` holds the reading that was answered for it, and that answer
/// is the one at the device's place in list order.
pub proof fn lemma_every_owned_device_is_read(
    source: ModelView,
    identity: Seq<char>,
    mode: Mode,
    outcomes: Seq<Result<Reading, DriverError>>,
    rtu: int,
    device: int,
) -> (k: int)
    requires
        0 <= rtu < source.rtus.len(),
        source.rtus[rtu].id == identity,
        0 <= device < source.rtus[rtu].devices.len(),
        ReconciliationView::begin(source, identity, mode).run(outcomes).pending() is None,
        ReconciliationView::begin(source, identity, mode).run(outcomes).failure is None,
    ensures
        0 <= k < outcomes.len(),
        0 <= k < owned_slots(source.rtus, identity).len(),
        owned_slots(source.rtus, identity)[k] == (Slot { rtu, device }),
        outcomes[k] is Ok,
        ReconciliationView::begin(source, identity, mode).run(outcomes).model.rtus[rtu].devices[device]
            == source.rtus[rtu].devices[device].observed(outcomes[k]->Ok_0),
{
    let end = ReconciliationView::begin(source, identity, mode).run(outcomes);
    lemma_run_follows(source, identity, mode, outcomes);
    let k = lemma_owned_slots_are_complete(source.rtus, identity, rtu, device);
    assert(end.next == end.slots.len());
    assert(outcomes[k] is Ok);
    k
}

/// A reconciliation keeps a well-formed model well-formed: no id changes, so
/// none comes to be shared.
pub proof fn lemma_reconciliation_keeps_well_formed(
    source: ModelView,
    identity: Seq<char>,
    mode: Mode,
    outcomes: Seq<Result<Reading, DriverError>>,
)
    requires
        source.well_formed(),
    ensures
        ReconciliationView::begin(source, identity, mode).run(outcomes).model.well_formed(),
{
    let model = ReconciliationView::begin(source, identity, mode).run(outcomes).model;
    lemma_run_follows(source, identity, mode, outcomes);
    assert forall|r: int| 0 <= r < model.rtus.len() implies model.rtus[r].id
        == source.rtus[r].id && (#[trigger] model.rtus[r]).well_formed() by {
        assert(same_rtu(model, source, r));
        assert(source.rtus[r].well_formed());
        assert forall|d: int| 0 <= d < model.rtus[r].devices.len() implies (
        #[trigger] model.rtus[r].devices[d]).id == source.rtus[r].devices[d].id by {
            assert(same_device(model, source, r, d));
        }
    }
}

/// In a well-formed model a node owns at most one entry: every device that
/// a reconciliation visits hangs on the same node.
pub proof fn lemma_well_formed_has_one_owner(source: ModelView, identity: Seq<char>)
    requires
        source.well_formed(),
    ensures
        forall|i: int, j: int|
            0 <= i < owned_slots(source.rtus, identity).len() && 0 <= j < owned_slots(
                source.rtus,
                identity,
            ).len() ==> (#[trigger] owned_slots(source.rtus, identity)[i]).rtu == (
            #[trigger] owned_slots(source.rtus, identity)[j]).rtu,
{
    lemma_owned_slots_are_owned(source.rtus, identity);
}

/// What the engine yields for the answers of a driver is a reconciliation
/// as [`reconciled`] says it without the engine: every owned device holds a
/// reading that the driver gave for the request of that device as the source
/// has it, or the run failed on an owned device.
pub proof fn lemma_reconciled_without_engine<F: Fn(DriverRequest) -> Result<Reading, DriverError>>(
    driver: F,
    source: ModelView,
    identity: Seq<char>,
    mode: Mode,
    outcomes: Seq<Result<Reading, DriverError>>,
    result: Result<ModelView, ErrorView>,
)
    requires
        reconciled_by(driver, ReconciliationView::begin(source, identity, mode), outcomes, result),
    ensures
        reconciled(driver, source, identity, mode, result),
{
    let start = ReconciliationView::begin(source, identity, mode);
    let end = start.run(outcomes);
    let slots = owned_slots(source.rtus, identity);
    lemma_run_follows(source, identity, mode, outcomes);
    lemma_owned_slots_are_owned(source.rtus, identity);
    match result {
        Ok(model) => {
            assert(end.next == slots.len());
            assert forall|r: int, d: int|
                0 <= r < source.rtus.len() && source.rtus[r].id == identity && 0 <= d
                    < source.rtus[r].devices.len() implies read_by(
                driver,
                mode,
                source.rtus[r].devices[d],
                #[trigger] model.rtus[r].devices[d],
            ) by {
                let k = lemma_owned_slots_are_complete(source.rtus, identity, r, d);
                let asked = start.run(outcomes.take(k));
                assert(asked.pending() is Some);
                lemma_request_comes_from_source(source, identity, mode, outcomes.take(k));
                let reading = outcomes[k]->Ok_0;
                assert(outcomes[k] == Ok::<Reading, DriverError>(reading));
                assert(model.rtus[r].devices[d] == source.rtus[r].devices[d].observed(reading));
            }
        },
        Err(error) => {
            let k = end.next;
            let slot = slots[k];
            let device = source.rtus[slot.rtu].devices[slot.device];
            if device.request(mode) is Some {
                let asked = start.run(outcomes.take(k));
                assert(asked.pending() is Some);
                lemma_request_comes_from_source(source, identity, mode, outcomes.take(k));
                let reported = outcomes[k]->Err_0;
                assert(outcomes[k] == Err::<Reading, DriverError>(reported));
            }
            assert(failed_by(driver, mode, identity, device, error));
        },
    }
}

} // verus!
