//! The propagation coordinator, which runs on the master.
//!
//! The master threads a model through the nodes in the order in which the
//! model lists them: each node is sent the model as the node before it left
//! it, and its answer replaces the model before the next node is called. The
//! first node that fails ends the chain; what earlier nodes did to their
//! hardware stays done.

use crate::error::{Error, ErrorView, Fault};
use crate::model::model::Model;
use crate::model::rtu::{NetworkAddress, RtuView, RTU};
use vstd::prelude::*;

pub mod laws;

verus! {

/// One stop of a propagation: the node to call and where it listens.
pub struct Hop {
    pub node: String,
    pub address: NetworkAddress,
}

/// The mathematical content of a [`Hop`].
pub struct HopView {
    pub node: Seq<char>,
    pub address: NetworkAddress,
}

impl View for Hop {
    type V = HopView;

    open spec fn view(&self) -> HopView {
        HopView { node: self.node@, address: self.address }
    }
}

/// The stops that a list of nodes stands for, in list order.
pub open spec fn hops_of(rtus: Seq<RtuView>) -> Seq<HopView> {
    rtus.map_values(|rtu: RtuView| HopView { node: rtu.id, address: rtu.network_address })
}

/// The state of a propagation as a mathematical value.
pub struct PropagationView {
    /// The stops, fixed when the propagation starts.
    pub hops: Seq<HopView>,
    /// The model as the last node that answered left it.
    pub current: Model,
    /// How many nodes have answered.
    pub next: int,
    /// The failure that ended the chain, if one did.
    pub failure: Option<ErrorView>,
}

impl PropagationView {
    /// The state in which a propagation of `model` starts.
    pub open spec fn begin(model: Model) -> PropagationView {
        PropagationView { hops: hops_of(model@.rtus), current: model, next: 0, failure: None }
    }

    /// Whether a node is still to be called.
    pub open spec fn active(self) -> bool {
        self.failure is None && 0 <= self.next < self.hops.len()
    }

    /// The address to call next: none once the chain has failed or every node
    /// has answered. What is sent there is `current`.
    pub open spec fn pending(self) -> Option<NetworkAddress> {
        if self.active() {
            Some(self.hops[self.next].address)
        } else {
            None
        }
    }

    /// The state after the pending node has answered with `response`. With
    /// nothing pending the answer is dropped.
    pub open spec fn deliver(self, response: Result<Model, Fault>) -> PropagationView {
        if !self.active() {
            self
        } else {
            match response {
                Ok(model) => PropagationView { current: model, next: self.next + 1, ..self },
                Err(fault) => PropagationView {
                    failure: Some(
                        ErrorView {
                            kind: fault.kind,
                            node: self.hops[self.next].node,
                            device: None,
                            detail: fault.detail@,
                        },
                    ),
                    ..self
                },
            }
        }
    }

    /// The state after the answers `responses`, taken in order.
    pub open spec fn run(self, responses: Seq<Result<Model, Fault>>) -> PropagationView
        decreases responses.len(),
    {
        if responses.len() == 0 {
            self
        } else {
            self.run(responses.drop_last()).deliver(responses.last())
        }
    }

    /// What the propagation yields: the failure if there was one, else the
    /// model as it stands.
    pub open spec fn outcome(self) -> Result<Model, ErrorView> {
        match self.failure {
            Some(error) => Err(error),
            None => Ok(self.current),
        }
    }

    /// The cursor is within the stops.
    pub open spec fn well_formed(self) -> bool {
        0 <= self.next <= self.hops.len()
    }

    /// A bound on the answers that the coordinator still takes.
    pub open spec fn remaining(self) -> int {
        self.hops.len() - self.next + if self.failure is None {
            1int
        } else {
            0int
        }
    }
}

/// What a propagation returns, with the error taken by its content.
pub open spec fn propagated(result: Result<Model, Error>) -> Result<Model, ErrorView> {
    match result {
        Ok(model) => Ok(model),
        Err(error) => Err(error@),
    }
}

/// The contents of a list of stops.
pub open spec fn hop_views(hops: Seq<Hop>) -> Seq<HopView> {
    hops.map_values(|hop: Hop| hop@)
}

/// A propagation in progress.
///
/// [`Propagation::begin`] starts one. While [`Propagation::pending`] gives an
/// address, the caller sends [`Propagation::payload`] there and hands the
/// answer to [`Propagation::deliver`]. [`Propagation::finish`] gives the
/// model that the last node returned.
pub struct Propagation {
    hops: Vec<Hop>,
    current: Model,
    next: usize,
    failure: Option<Error>,
}

impl View for Propagation {
    type V = PropagationView;

    closed spec fn view(&self) -> PropagationView {
        PropagationView {
            hops: hop_views(self.hops@),
            current: self.current,
            next: self.next as int,
            failure: match self.failure {
                Some(error) => Some(error@),
                None => None,
            },
        }
    }
}

/// Lists the stops of `rtus`.
fn collect_hops(rtus: &Vec<RTU>) -> (hops: Vec<Hop>)
    ensures
        hop_views(hops@) == hops_of(crate::model::model::rtu_views(rtus@)),
{
    let mut hops: Vec<Hop> = Vec::new();
    let mut r: usize = 0;
    while r < rtus.len()
        invariant
            r <= rtus.len(),
            hops.len() == r,
            forall|k: int| 0 <= k < r ==> (#[trigger] hops[k])@ == (HopView {
                node: rtus[k].id@,
                address: rtus[k].network_address,
            }),
        decreases rtus.len() - r,
    {
        hops.push(Hop { node: rtus[r].id.clone(), address: rtus[r].network_address });
        r = r + 1;
    }
    assert(hop_views(hops@) =~= hops_of(crate::model::model::rtu_views(rtus@)));
    hops
}

impl Propagation {
    /// The cursor is within the stops.
    #[verifier::type_invariant]
    spec fn sound(self) -> bool {
        self@.well_formed()
    }

    /// Starts a propagation of `model`. The nodes to call, and their order,
    /// are those that `model` lists now; what a node answers does not change
    /// them.
    pub fn begin(model: Model) -> (chain: Self)
        ensures
            chain@ == PropagationView::begin(model),
            chain@.well_formed(),
    {
        let hops = collect_hops(&model.rtus);
        Propagation { hops, current: model, next: 0, failure: None }
    }

    /// The address of the node to call next, or `None` once every node has
    /// answered or the chain has failed.
    pub fn pending(&self) -> (address: Option<NetworkAddress>)
        ensures
            address == self@.pending(),
            self@.well_formed(),
    {
        proof {
            use_type_invariant(self);
        }
        if self.failure.is_none() && self.next < self.hops.len() {
            Some(self.hops[self.next].address)
        } else {
            None
        }
    }

    /// The model to send to the pending node: the model as the last node that
    /// answered left it, or the one the propagation started with.
    pub fn payload(&self) -> (model: &Model)
        ensures
            *model == self@.current,
    {
        &self.current
    }

    /// Takes the pending node's answer and gives the coordinator as it stands
    /// then. A model replaces the current one and the chain moves on; a fault
    /// fails the chain on that node. With nothing pending the answer is
    /// dropped.
    pub fn deliver(self, response: Result<Model, Fault>) -> (chain: Self)
        ensures
            chain@ == self@.deliver(response),
            chain@.well_formed(),
    {
        proof {
            use_type_invariant(&self);
        }
        if self.failure.is_some() || self.next >= self.hops.len() {
            return self;
        }
        let Propagation { hops, current, next, failure } = self;
        match response {
            Ok(model) => Propagation { hops, current: model, next: next + 1, failure },
            Err(fault) => {
                let failure = Some(
                    Error {
                        kind: fault.kind,
                        node: hops[next].node.clone(),
                        device: None,
                        detail: fault.detail,
                    },
                );
                Propagation { hops, current, next, failure }
            },
        }
    }

    /// Ends the propagation: the failure if there was one, else the model as
    /// it stands.
    pub fn finish(self) -> (result: Result<Model, Error>)
        ensures
            propagated(result) == self@.outcome(),
    {
        match self.failure {
            Some(error) => Err(error),
            None => Ok(self.current),
        }
    }
}

/// Whether `send` may have given the answers `responses`, one after the
/// other, in a propagation that starts in `start`: each answer was given to
/// the address that was pending after the answers before it, for the model
/// that was current then.
pub open spec fn carried_by<F: Fn(NetworkAddress, &Model) -> Result<Model, Fault>>(
    send: F,
    start: PropagationView,
    responses: Seq<Result<Model, Fault>>,
) -> bool {
    forall|k: int|
        0 <= k < responses.len() ==> {
            let state = start.run(#[trigger] responses.take(k));
            state.pending() is Some && call_ensures(
                send,
                (state.pending()->0, &state.current),
                responses[k],
            )
        }
}

/// Whether `result` is what a whole propagation gives when `send` answers
/// with `responses`: the answers are those of `send`, they leave no node to
/// call, and `result` is what the coordinator then yields.
pub open spec fn propagated_by<F: Fn(NetworkAddress, &Model) -> Result<Model, Fault>>(
    send: F,
    start: PropagationView,
    responses: Seq<Result<Model, Fault>>,
    result: Result<Model, ErrorView>,
) -> bool {
    &&& carried_by(send, start, responses)
    &&& start.run(responses).pending() is None
    &&& result == start.run(responses).outcome()
}

/// What is sent to the `k`-th node when the nodes before it have answered with
/// `answers`: the answer of the node before it, or `model` for the first.
pub open spec fn sent(model: Model, answers: Seq<Model>, k: int) -> Model {
    if k == 0 {
        model
    } else {
        answers[k - 1]
    }
}

/// Whether `result` is a propagation of `model` by `send` in which the nodes
/// answered with the models `answers`, said without the coordinator. Each
/// node, in list order, was sent what the node before it answered and may
/// answer with its entry of `answers`. Where every node has answered, the
/// last answer comes back (`model` itself where there is no node). Where one
/// has not, `send` may answer for it with a fault, and that fault comes back
/// with the node's id.
pub open spec fn relayed_through<F: Fn(NetworkAddress, &Model) -> Result<Model, Fault>>(
    send: F,
    model: Model,
    answers: Seq<Model>,
    result: Result<Model, ErrorView>,
) -> bool {
    let rtus = model@.rtus;
    let reached = answers.len() as int;
    &&& reached <= rtus.len()
    &&& forall|k: int|
        0 <= k < reached ==> call_ensures(
            send,
            (rtus[k].network_address, &sent(model, answers, k)),
            Ok::<Model, Fault>(#[trigger] answers[k]),
        )
    &&& match result {
        Ok(last) => reached == rtus.len() && last == sent(model, answers, reached),
        Err(error) => reached < rtus.len() && exists|fault: Fault| #[trigger]
            call_ensures(
                send,
                (rtus[reached].network_address, &sent(model, answers, reached)),
                Err::<Model, Fault>(fault),
            ) && error == (ErrorView {
                kind: fault.kind,
                node: rtus[reached].id,
                device: None,
                detail: fault.detail@,
            }),
    }
}

/// Whether `result` is a propagation of `model` by `send`, said without the
/// coordinator: see [`relayed_through`].
pub open spec fn relayed<F: Fn(NetworkAddress, &Model) -> Result<Model, Fault>>(
    send: F,
    model: Model,
    result: Result<Model, ErrorView>,
) -> bool {
    exists|answers: Seq<Model>| #[trigger] relayed_through(send, model, answers, result)
}

/// Propagates `model` through the fleet: `send` is called once for each node
/// that `model` lists, in list order, with the node's address and the model
/// as the node before it returned it, and the last answer is returned. The
/// first fault ends the chain and is returned with the id of the node that it
/// arose on; no later node is called. A model without nodes is returned as it
/// is, and `send` is not called.
pub fn propagate<F: Fn(NetworkAddress, &Model) -> Result<Model, Fault>>(
    model: Model,
    send: F,
) -> (result: Result<Model, Error>)
    requires
        forall|address: NetworkAddress, payload: &Model| call_requires(send, (address, payload)),
    ensures
        exists|responses: Seq<Result<Model, Fault>>| #[trigger]
            propagated_by(send, PropagationView::begin(model), responses, propagated(result)),
        relayed(send, model, propagated(result)),
        model@.rtus.len() == 0 ==> result == Ok::<Model, Error>(model),
{
    let mut chain = Propagation::begin(model);
    let ghost start = chain@;
    let ghost mut responses: Seq<Result<Model, Fault>> = Seq::empty();
    let mut address = chain.pending();
    while address.is_some()
        invariant
            chain@ == start.run(responses),
            address == chain@.pending(),
            carried_by(send, start, responses),
            chain@.hops == start.hops,
            responses.len() == 0 ==> chain@ == start,
            start.hops.len() == 0 ==> responses.len() == 0,
            forall|address: NetworkAddress, payload: &Model| call_requires(send, (address, payload)),
        decreases chain@.remaining(),
    {
        let response = send(address.unwrap(), chain.payload());
        let ghost answer = response;
        let ghost answers = responses.push(answer);
        proof {
            assert(answers.drop_last() =~= responses);
            assert forall|k: int| 0 <= k < answers.len() implies {
                let state = start.run(#[trigger] answers.take(k));
                state.pending() is Some && call_ensures(
                    send,
                    (state.pending()->0, &state.current),
                    answers[k],
                )
            } by {
                if k < responses.len() {
                    assert(answers.take(k) =~= responses.take(k));
                } else {
                    assert(answers.take(k) =~= responses);
                }
            }
        }
        chain = chain.deliver(response);
        address = chain.pending();
        proof {
            responses = answers;
        }
    }
    let result = chain.finish();
    proof {
        assert(propagated_by(send, start, responses, propagated(result)));
        laws::lemma_relayed_without_coordinator(send, model, responses, propagated(result));
    }
    result
}

} // verus!
