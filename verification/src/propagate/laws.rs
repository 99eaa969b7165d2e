//! What holds of every propagation, whatever the nodes answer.

use crate::error::{ErrorView, Fault};
use crate::model::model::Model;
use crate::model::rtu::NetworkAddress;
use crate::propagate::{hops_of, propagated_by, relayed, relayed_through, sent, PropagationView};
use vstd::prelude::*;

verus! {

/// Whether `state` is what a propagation of `model` has to be after the
/// answers `responses`: the answers up to the cursor were models, the last of
/// them is the current model, and a failure is the fault that the node under
/// the cursor answered with.
pub open spec fn chained(
    state: PropagationView,
    model: Model,
    responses: Seq<Result<Model, Fault>>,
) -> bool {
    &&& state.well_formed()
    &&& state.hops == hops_of(model@.rtus)
    &&& state.next <= responses.len()
    &&& state.pending() is Some ==> state.next == responses.len()
    &&& forall|k: int| 0 <= k < state.next ==> (#[trigger] responses[k]) is Ok
    &&& state.current == if state.next == 0 {
        model
    } else {
        responses[state.next - 1]->Ok_0
    }
    &&& state.failure matches Some(error) ==> {
        &&& state.next < state.hops.len()
        &&& state.next < responses.len()
        &&& responses[state.next] matches Err(fault)
        &&& error == (ErrorView {
            kind: fault.kind,
            node: model@.rtus[state.next].id,
            device: None,
            detail: fault.detail@,
        })
    }
}

/// After any answers, a propagation of `model` is as [`chained`] says.
pub proof fn lemma_run_chained(model: Model, responses: Seq<Result<Model, Fault>>)
    ensures
        chained(PropagationView::begin(model).run(responses), model, responses),
    decreases responses.len(),
{
    if responses.len() > 0 {
        let before = responses.drop_last();
        lemma_run_chained(model, before);
        let state = PropagationView::begin(model).run(before);
        let after = state.deliver(responses.last());
        assert forall|k: int| 0 <= k < after.next implies (#[trigger] responses[k]) is Ok by {
            if k < state.next {
                assert(before[k] is Ok);
            }
        }
        if state.next > 0 {
            assert(before[state.next - 1] == responses[state.next - 1]);
        }
        if state.failure is Some {
            assert(before[state.next] == responses[state.next]);
        }
    }
}

/// Once no node is left to call, further answers change nothing.
pub proof fn lemma_finished_drops_answers(
    state: PropagationView,
    later: Seq<Result<Model, Fault>>,
)
    requires
        state.pending() is None,
    ensures
        state.run(later) == state,
    decreases later.len(),
{
    if later.len() > 0 {
        lemma_finished_drops_answers(state, later.drop_last());
    }
}

/// Cumulative chaining: while the nodes answer with models, the `k`-th call
/// goes to the address of the `k`-th node that `model` lists and carries the
/// answer of the node before it (`model` itself for the first). Once every
/// node has answered, nothing is pending and the last answer is what the
/// propagation yields.
pub proof fn lemma_propagation_chains(model: Model, responses: Seq<Result<Model, Fault>>, k: int)
    requires
        0 <= k <= responses.len(),
        k <= model@.rtus.len(),
        forall|j: int| 0 <= j < k ==> (#[trigger] responses[j]) is Ok,
    ensures
        ({
            let state = PropagationView::begin(model).run(responses.take(k));
            &&& state.next == k
            &&& state.failure is None
            &&& state.current == if k == 0 {
                model
            } else {
                responses[k - 1]->Ok_0
            }
            &&& state.pending() == if k < model@.rtus.len() {
                Some(model@.rtus[k].network_address)
            } else {
                None
            }
            &&& state.outcome() == Ok::<Model, ErrorView>(state.current)
        }),
{
    let answers = responses.take(k);
    lemma_run_chained(model, answers);
    let state = PropagationView::begin(model).run(answers);
    if state.next < k {
        assert(answers[state.next] == responses[state.next]);
    }
    if k > 0 {
        assert(answers[k - 1] == responses[k - 1]);
    }
}

/// Empty fleet: a model without nodes has no node to call, and the
/// propagation yields the model itself, whatever is answered.
pub proof fn lemma_empty_fleet(model: Model, responses: Seq<Result<Model, Fault>>)
    requires
        model@.rtus.len() == 0,
    ensures
        PropagationView::begin(model).pending() is None,
        PropagationView::begin(model).run(responses).outcome() == Ok::<Model, ErrorView>(model),
{
    lemma_finished_drops_answers(PropagationView::begin(model), responses);
}

/// Fail fast: when the pending node answers with a fault, the chain ends
/// there. The failure has the fault's kind and names the node that was
/// called, the model stays as the node before left it, no node is pending
/// any more, and whatever is answered afterwards is dropped.
pub proof fn lemma_propagation_fails_fast(
    state: PropagationView,
    fault: Fault,
    later: Seq<Result<Model, Fault>>,
)
    requires
        state.pending() is Some,
    ensures
        ({
            let failed = state.deliver(Err(fault));
            &&& failed.current == state.current
            &&& failed.pending() is None
            &&& failed.outcome() == Err::<Model, ErrorView>(
                ErrorView {
                    kind: fault.kind,
                    node: state.hops[state.next].node,
                    device: None,
                    detail: fault.detail@,
                },
            )
            &&& failed.run(later) == failed
        }),
{
    lemma_finished_drops_answers(state.deliver(Err(fault)), later);
}

/// The failing node is named: when the first `k` nodes answer with models
/// and the next one with a fault, the propagation yields that fault's kind
/// and detail with the id of the `k`-th node that `model` lists, whatever is
/// answered afterwards.
pub proof fn lemma_propagation_names_failing_node(
    model: Model,
    responses: Seq<Result<Model, Fault>>,
    k: int,
)
    requires
        0 <= k < responses.len(),
        k < model@.rtus.len(),
        forall|j: int| 0 <= j < k ==> (#[trigger] responses[j]) is Ok,
        responses[k] is Err,
    ensures
        PropagationView::begin(model).run(responses).outcome() == Err::<Model, ErrorView>(
            ErrorView {
                kind: responses[k]->Err_0.kind,
                node: model@.rtus[k].id,
                device: None,
                detail: responses[k]->Err_0.detail@,
            },
        ),
{
    lemma_run_chained(model, responses);
    let state = PropagationView::begin(model).run(responses);
    if state.next < k {
        assert(responses[state.next] is Ok);
    }
    if state.next > k {
        assert(responses[k] is Ok);
    }
}

/// What the coordinator yields for the answers of the nodes is a propagation
/// as [`relayed`] says it without the coordinator: each node was sent what
/// the node before it answered, and the last answer, or the first fault with
/// the id of its node, comes back.
pub proof fn lemma_relayed_without_coordinator<
    F: Fn(NetworkAddress, &Model) -> Result<Model, Fault>,
>(send: F, model: Model, responses: Seq<Result<Model, Fault>>, result: Result<Model, ErrorView>)
    requires
        propagated_by(send, PropagationView::begin(model), responses, result),
    ensures
        relayed(send, model, result),
{
    let start = PropagationView::begin(model);
    let end = start.run(responses);
    let rtus = model@.rtus;
    lemma_run_chained(model, responses);
    let answers = Seq::new(end.next as nat, |k: int| responses[k]->Ok_0);
    assert forall|k: int| 0 <= k <= end.next && k < responses.len() implies {
        let state = start.run(#[trigger] responses.take(k));
        &&& state.pending() == Some(rtus[k].network_address)
        &&& state.current == sent(model, answers, k)
    } by {
        let state = start.run(responses.take(k));
        lemma_run_chained(model, responses.take(k));
        assert(state.pending() is Some);
        if k > 0 {
            assert(responses.take(k)[k - 1] == responses[k - 1]);
        }
    }
    assert forall|k: int| 0 <= k < end.next implies call_ensures(
        send,
        (rtus[k].network_address, &sent(model, answers, k)),
        Ok::<Model, Fault>(#[trigger] answers[k]),
    ) by {
        let state = start.run(responses.take(k));
        assert(responses[k] == Ok::<Model, Fault>(answers[k]));
    }
    if end.failure is Some {
        let state = start.run(responses.take(end.next));
        let fault = responses[end.next]->Err_0;
        assert(responses[end.next] == Err::<Model, Fault>(fault));
        assert(call_ensures(
            send,
            (rtus[end.next].network_address, &sent(model, answers, end.next)),
            Err::<Model, Fault>(fault),
        ));
    }
    assert(relayed_through(send, model, answers, result));
}

} // verus!
