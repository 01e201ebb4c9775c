//! What the flow tracker reports of a segment.
use vstd::prelude::*;

use crate::model::{optional_text, Direction, FlowContext, FlowContextView};

verus! {

/// Where one direction of a flow was closed.
#[derive(Debug, Clone, Copy, PartialEq, Eq, Structural)]
pub struct FlowCloseSequence {
    pub direction: Direction,
    pub sequence: u32,
}

/// The flow and the direction that a payload belongs to.
#[derive(Debug)]
pub struct FlowPayload {
    pub direction: Direction,
    pub flow: FlowContext,
    pub attribution_confidence: u8,
    pub attribution_failure: Option<String>,
}

#[verifier::ext_equal]
pub struct FlowPayloadView {
    pub direction: Direction,
    pub flow: FlowContextView,
    pub attribution_confidence: u8,
    pub attribution_failure: Option<Seq<char>>,
}

impl View for FlowPayload {
    type V = FlowPayloadView;

    open spec fn view(&self) -> FlowPayloadView {
        FlowPayloadView {
            direction: self.direction,
            flow: self.flow@,
            attribution_confidence: self.attribution_confidence,
            attribution_failure: optional_text(self.attribution_failure),
        }
    }
}

impl FlowPayload {
    pub fn new(
        direction: Direction,
        flow: FlowContext,
        attribution_confidence: u8,
        attribution_failure: Option<String>,
    ) -> (payload: FlowPayload)
        ensures
            payload@ == (FlowPayloadView {
                direction,
                flow: flow@,
                attribution_confidence,
                attribution_failure: optional_text(attribution_failure),
            }),
    {
        FlowPayload { direction, flow, attribution_confidence, attribution_failure }
    }
}

/// A flow that is over, with the places at which its directions were closed.
#[derive(Debug)]
pub struct FlowClosure {
    pub flow: FlowContext,
    pub finalizations: Vec<FlowCloseSequence>,
}

#[verifier::ext_equal]
pub struct FlowClosureView {
    pub flow: FlowContextView,
    pub finalizations: Seq<FlowCloseSequence>,
}

impl View for FlowClosure {
    type V = FlowClosureView;

    open spec fn view(&self) -> FlowClosureView {
        FlowClosureView { flow: self.flow@, finalizations: self.finalizations@ }
    }
}

impl FlowClosure {
    pub fn new(flow: FlowContext, finalizations: Vec<FlowCloseSequence>) -> (closure: FlowClosure)
        ensures
            closure@ == (FlowClosureView { flow: flow@, finalizations: finalizations@ }),
    {
        FlowClosure { flow, finalizations }
    }
}

/// The views of a sequence of closures.
pub open spec fn closure_views(closures: Seq<FlowClosure>) -> Seq<FlowClosureView> {
    closures.map_values(|closure: FlowClosure| closure@)
}

/// One closed direction of a flow that goes on in the other.
#[derive(Debug)]
pub struct FlowFinalization {
    pub flow: FlowContext,
    pub close_sequence: FlowCloseSequence,
}

#[verifier::ext_equal]
pub struct FlowFinalizationView {
    pub flow: FlowContextView,
    pub close_sequence: FlowCloseSequence,
}

impl View for FlowFinalization {
    type V = FlowFinalizationView;

    open spec fn view(&self) -> FlowFinalizationView {
        FlowFinalizationView { flow: self.flow@, close_sequence: self.close_sequence }
    }
}

impl FlowFinalization {
    pub fn new(flow: FlowContext, close_sequence: FlowCloseSequence) -> (finalization:
        FlowFinalization)
        ensures
            finalization@ == (FlowFinalizationView { flow: flow@, close_sequence }),
    {
        FlowFinalization { flow, close_sequence }
    }
}

/// How far a segment ends its flow.
#[derive(Debug)]
pub enum FlowEnd {
    Close(FlowClosure),
    Finalize(FlowFinalization),
}

#[verifier::ext_equal]
pub enum FlowEndView {
    Close(FlowClosureView),
    Finalize(FlowFinalizationView),
}

impl View for FlowEnd {
    type V = FlowEndView;

    open spec fn view(&self) -> FlowEndView {
        match *self {
            FlowEnd::Close(closure) => FlowEndView::Close(closure@),
            FlowEnd::Finalize(finalization) => FlowEndView::Finalize(finalization@),
        }
    }
}

/// The view of an optional end.
pub open spec fn flow_end_view(end: Option<FlowEnd>) -> Option<FlowEndView> {
    match end {
        Some(inner) => Some(inner@),
        None => None,
    }
}

impl FlowEnd {
    pub fn close(closure: FlowClosure) -> (end: FlowEnd)
        ensures
            end@ == FlowEndView::Close(closure@),
    {
        FlowEnd::Close(closure)
    }

    pub fn finalize(finalization: FlowFinalization) -> (end: FlowEnd)
        ensures
            end@ == FlowEndView::Finalize(finalization@),
    {
        FlowEnd::Finalize(finalization)
    }
}

/// What a segment with payload means for the flows.
#[derive(Debug)]
pub struct FlowPayloadObservation {
    pub before_payload_closures: Vec<FlowClosure>,
    pub payload: FlowPayload,
    pub after_payload: Option<FlowEnd>,
}

#[verifier::ext_equal]
pub struct FlowPayloadObservationView {
    pub before_payload_closures: Seq<FlowClosureView>,
    pub payload: FlowPayloadView,
    pub after_payload: Option<FlowEndView>,
}

impl View for FlowPayloadObservation {
    type V = FlowPayloadObservationView;

    open spec fn view(&self) -> FlowPayloadObservationView {
        FlowPayloadObservationView {
            before_payload_closures: closure_views(self.before_payload_closures@),
            payload: self.payload@,
            after_payload: flow_end_view(self.after_payload),
        }
    }
}

impl FlowPayloadObservation {
    pub fn new(
        before_payload_closures: Vec<FlowClosure>,
        payload: FlowPayload,
        after_payload: Option<FlowEnd>,
    ) -> (observation: FlowPayloadObservation)
        ensures
            observation@ == (FlowPayloadObservationView {
                before_payload_closures: closure_views(before_payload_closures@),
                payload: payload@,
                after_payload: flow_end_view(after_payload),
            }),
    {
        FlowPayloadObservation { before_payload_closures, payload, after_payload }
    }
}

/// What a segment without payload means for the flows.
#[derive(Debug)]
pub struct FlowLifecycleObservation {
    pub before_lifecycle_closures: Vec<FlowClosure>,
    pub after_lifecycle: Option<FlowEnd>,
}

#[verifier::ext_equal]
pub struct FlowLifecycleObservationView {
    pub before_lifecycle_closures: Seq<FlowClosureView>,
    pub after_lifecycle: Option<FlowEndView>,
}

impl View for FlowLifecycleObservation {
    type V = FlowLifecycleObservationView;

    open spec fn view(&self) -> FlowLifecycleObservationView {
        FlowLifecycleObservationView {
            before_lifecycle_closures: closure_views(self.before_lifecycle_closures@),
            after_lifecycle: flow_end_view(self.after_lifecycle),
        }
    }
}

impl FlowLifecycleObservation {
    pub fn new(
        before_lifecycle_closures: Vec<FlowClosure>,
        after_lifecycle: Option<FlowEnd>,
    ) -> (observation: FlowLifecycleObservation)
        ensures
            observation@ == (FlowLifecycleObservationView {
                before_lifecycle_closures: closure_views(before_lifecycle_closures@),
                after_lifecycle: flow_end_view(after_lifecycle),
            }),
    {
        FlowLifecycleObservation { before_lifecycle_closures, after_lifecycle }
    }
}

} // verus!
