//! Taking up a flow whose payload was observed though its start was not.
use vstd::prelude::*;

use crate::bounded_recency::{displaced_by, with_newest};
use crate::event::{
    event_views, lemma_event_views_push, CaptureEvent, CaptureEventView,
};
use crate::model::{Direction, FlowContextView, ObservationOnlyReason, Timestamp};
use crate::provider::{CaptureError, CaptureErrorView};
use crate::selector::{CompiledSelector, CompiledSelectorView};

use super::boundary::{open_gap, recovered_payload_flow_boundary_gap_event, RECOVERED_FLOW_GAP_REASON};
use super::bridge::{
    flow_lookup, opened, resolved_flow, socket_flow_lookup, EbpfSocketFlowResolver,
};
use super::descriptor_lease::DescriptorLeaseKey;
use super::ledger::{group_talk, ResolverExchange, ResolverLedger};
use super::payload_authorization::{flow_directions, payload_directions_for_flow, selector_view};
use super::resolution::{
    asked_flow, event_result, opened_by_reply, opened_event_from_lookup, FlowReply,
};
use super::tracked_flow::{
    flow_displacement_view, FlowDisplacementView, FlowEntries, TrackedEbpfFlowDisplacement,
    TrackedEbpfFlows, TrackedFlowView,
};
use super::types::EbpfObservedProcess;

verus! {

broadcast use {lemma_event_views_push, group_talk};

/// What taking up a flow brings: events to be told first, and the flow that is no longer tracked.
#[derive(Debug)]
pub struct PayloadFlowRecoveryOutcome {
    pub prefix_events: Vec<CaptureEvent>,
    pub displacement: Option<TrackedEbpfFlowDisplacement>,
}

#[verifier::ext_equal]
pub struct RecoveryView {
    pub prefix_events: Seq<CaptureEventView>,
    pub displacement: Option<FlowDisplacementView>,
}

impl View for PayloadFlowRecoveryOutcome {
    type V = RecoveryView;

    open spec fn view(&self) -> RecoveryView {
        RecoveryView {
            prefix_events: event_views(self.prefix_events@),
            displacement: flow_displacement_view(self.displacement),
        }
    }
}

/// The tracked flows with what taking up a flow brought, if it was taken up.
#[verifier::ext_equal]
pub struct Recovered {
    pub flows: FlowEntries,
    pub outcome: Result<Option<RecoveryView>, CaptureErrorView>,
}

/// The view of an outcome.
pub open spec fn outcome_view(
    outcome: Result<Option<PayloadFlowRecoveryOutcome>, CaptureError>,
) -> Result<Option<RecoveryView>, CaptureErrorView> {
    match outcome {
        Ok(Some(recovered)) => Ok(Some(recovered@)),
        Ok(None) => Ok(None),
        Err(error) => Err(error@),
    }
}

/// A found flow is taken up where its payload is selected in the observed direction: its start is
/// told, then a gap for the payload that was missed, and it is tracked from then on.
pub open spec fn taken_up(
    flows: FlowEntries,
    capacity: usize,
    key: DescriptorLeaseKey,
    direction: Direction,
    start: CaptureEventView,
    flow: FlowContextView,
    selector: CompiledSelectorView,
    timestamp: Timestamp,
) -> Recovered {
    let directions = flow_directions(flow, selector);
    if directions.has(direction) {
        Recovered {
            flows: with_newest(flows, capacity, key, TrackedFlowView::fresh(flow, directions)),
            outcome: Ok(
                Some(
                    RecoveryView {
                        prefix_events: seq![
                            start,
                            open_gap(
                                flow,
                                direction,
                                0,
                                timestamp,
                                ObservationOnlyReason::ProviderStateBoundary,
                                RECOVERED_FLOW_GAP_REASON@,
                            ),
                        ],
                        displacement: displaced_by(
                            flows,
                            capacity,
                            key,
                            TrackedFlowView::fresh(flow, directions),
                        ),
                    },
                ),
            ),
        }
    } else {
        Recovered { flows, outcome: Ok(None) }
    }
}

/// What a payload observation on an untracked descriptor leads to: nothing without a valid
/// descriptor or a selector, and otherwise what the reply on its connection makes of it.
pub open spec fn recovered_by(
    flows: FlowEntries,
    capacity: usize,
    key: Option<DescriptorLeaseKey>,
    direction: Direction,
    selector: Option<CompiledSelectorView>,
    timestamp: Timestamp,
    reply: FlowReply,
) -> Recovered {
    match (key, selector) {
        (Some(key), Some(selector)) => match reply {
            Ok(Some(resolved)) => taken_up(
                flows,
                capacity,
                key,
                direction,
                opened(resolved_flow(resolved, timestamp.monotonic_ns), timestamp),
                resolved_flow(resolved, timestamp.monotonic_ns),
                selector,
                timestamp,
            ),
            Ok(None) => Recovered { flows, outcome: Ok(None) },
            Err(error) => Recovered { flows, outcome: Err(error) },
        },
        _ => Recovered { flows, outcome: Ok(None) },
    }
}

/// What is asked to take up a flow: nothing without a valid descriptor or a selector.
pub open spec fn asked_recovery(
    key: Option<DescriptorLeaseKey>,
    selector: Option<CompiledSelectorView>,
    process: EbpfObservedProcess,
    fd: i32,
    reply: FlowReply,
) -> Seq<ResolverExchange> {
    if key is Some && selector is Some {
        asked_flow(flow_lookup(process, fd, None), reply)
    } else {
        Seq::empty()
    }
}

/// Takes up a flow whose start is told by `opened_event`, where its payload is selected.
pub fn take_up_flow(
    flows: &mut TrackedEbpfFlows,
    key: DescriptorLeaseKey,
    direction: Direction,
    opened_event: CaptureEvent,
    selector: &CompiledSelector,
    timestamp: Timestamp,
) -> (outcome: Option<PayloadFlowRecoveryOutcome>)
    requires
        old(flows).well_formed(),
    ensures
        final(flows).well_formed(),
        final(flows).capacity() == old(flows).capacity(),
        match opened_event@ {
            CaptureEventView::ConnectionOpened { flow, .. } => (Recovered {
                flows: final(flows)@,
                outcome: match outcome {
                    Some(recovered) => Ok(Some(recovered@)),
                    None => Ok(None),
                },
            }) == taken_up(
                old(flows)@,
                old(flows).capacity(),
                key,
                direction,
                opened_event@,
                flow,
                selector@,
                timestamp,
            ),
            _ => outcome is None && final(flows)@ == old(flows)@,
        },
{
    let ghost start = opened_event@;
    let (payload_directions, flow, boundary_flow) = match &opened_event {
        CaptureEvent::ConnectionOpened { flow, .. } => (
            payload_directions_for_flow(flow, selector),
            flow.clone(),
            flow.clone(),
        ),
        _ => {
            return None;
        },
    };
    if !payload_directions.allows(direction) {
        return None;
    }
    let displacement = flows.insert_recovered_flow(key, flow, payload_directions);
    let boundary_gap = recovered_payload_flow_boundary_gap_event(
        timestamp,
        boundary_flow,
        direction,
    );
    let ghost gap = boundary_gap@;
    let mut prefix_events: Vec<CaptureEvent> = Vec::new();
    prefix_events.push(opened_event);
    prefix_events.push(boundary_gap);
    assert(event_views(prefix_events@) =~= seq![start, gap]);
    Some(PayloadFlowRecoveryOutcome { prefix_events, displacement })
}

/// Takes up a flow whose payload was observed though its start was not.
pub struct PayloadFlowRecovery<'a> {
    pub selector: &'a Option<CompiledSelector>,
}

impl<'a> PayloadFlowRecovery<'a> {
    pub fn new(selector: &'a Option<CompiledSelector>) -> (recovery: PayloadFlowRecovery<'a>)
        ensures
            recovery.selector == selector,
    {
        PayloadFlowRecovery { selector }
    }

    /// Asks for the connection behind an untracked descriptor, and takes up its flow where its
    /// payload is selected in the observed direction.
    pub fn recover<R: EbpfSocketFlowResolver>(
        &self,
        flows: &mut TrackedEbpfFlows,
        resolver: &mut ResolverLedger<R>,
        key: Option<DescriptorLeaseKey>,
        direction: Direction,
        process: &EbpfObservedProcess,
        fd: i32,
        timestamp: Timestamp,
    ) -> (outcome: Result<Option<PayloadFlowRecoveryOutcome>, CaptureError>)
        requires
            old(flows).well_formed(),
        ensures
            final(flows).well_formed(),
            final(flows).capacity() == old(flows).capacity(),
            exists|reply: FlowReply|
                (Recovered { flows: final(flows)@, outcome: outcome_view(outcome) })
                    == #[trigger] recovered_by(
                    old(flows)@,
                    old(flows).capacity(),
                    key,
                    direction,
                    selector_view(*self.selector),
                    timestamp,
                    reply,
                ) && final(resolver).record() == old(resolver).record() + asked_recovery(
                    key,
                    selector_view(*self.selector),
                    *process,
                    fd,
                    reply,
                ),
    {
        let ghost before = flows@;
        let ghost asked = resolver.record();
        let ghost capacity = flows.capacity();
        let ghost unasked: FlowReply = Ok(None);
        let (key, selector) = match (key, self.selector) {
            (Some(key), Some(selector)) => (key, selector),
            _ => {
                let outcome: Result<Option<PayloadFlowRecoveryOutcome>, CaptureError> = Ok(None);
                assert((Recovered { flows: flows@, outcome: outcome_view(outcome) })
                    == recovered_by(
                    before,
                    capacity,
                    key,
                    direction,
                    selector_view(*self.selector),
                    timestamp,
                    unasked,
                ) && resolver.record() == asked + asked_recovery(
                    key,
                    selector_view(*self.selector),
                    *process,
                    fd,
                    unasked,
                ));
                return outcome;
            },
        };
        let lookup = socket_flow_lookup(process, fd, None);
        let opened_event = opened_event_from_lookup(lookup, timestamp, resolver);
        let ghost reply = choose|reply: FlowReply|
            event_result(opened_event) == #[trigger] opened_by_reply(reply, timestamp)
                && resolver.record() == asked + asked_flow(flow_lookup(*process, fd, None), reply);
        let outcome: Result<Option<PayloadFlowRecoveryOutcome>, CaptureError> = match opened_event {
            Err(error) => Err(error),
            Ok(None) => Ok(None),
            Ok(Some(event)) => Ok(
                take_up_flow(flows, key, direction, event, selector, timestamp),
            ),
        };
        assert((Recovered { flows: flows@, outcome: outcome_view(outcome) }) == recovered_by(
            before,
            capacity,
            Some(key),
            direction,
            selector_view(*self.selector),
            timestamp,
            reply,
        ) && resolver.record() == asked + asked_recovery(
            Some(key),
            selector_view(*self.selector),
            *process,
            fd,
            reply,
        ));
        outcome
    }
}

} // verus!
