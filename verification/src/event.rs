//! Capture events and how far the evidence that they carry reaches.
use std::collections::VecDeque;

use bytes::Bytes;
use vstd::prelude::*;

use crate::model::{
    observation_only, optional_text, CaptureLoss, CaptureLossView, CaptureOrigin,
    Direction, EnforcementEvidence, EnforcementEvidenceView, FlowContext, FlowContextView, Gap,
    GapView, ObservationOnlyReason, Timestamp,
};
use crate::payload::octets_of;

verus! {

/// Octets of one direction of a flow.
#[derive(Debug, PartialEq, Eq)]
pub struct CapturedBytes {
    pub timestamp: Timestamp,
    pub flow: FlowContext,
    pub origin: CaptureOrigin,
    pub direction: Direction,
    pub stream_offset: u64,
    pub bytes: Bytes,
    pub attribution_confidence: u8,
    pub degraded: bool,
    pub degradation_reason: Option<String>,
    pub enforcement_evidence: EnforcementEvidence,
    pub enforcement_evidence_propagation: EnforcementEvidencePropagation,
}

#[verifier::ext_equal]
pub struct CapturedBytesView {
    pub timestamp: Timestamp,
    pub flow: FlowContextView,
    pub origin: CaptureOrigin,
    pub direction: Direction,
    pub stream_offset: u64,
    pub bytes: Seq<u8>,
    pub attribution_confidence: u8,
    pub degraded: bool,
    pub degradation_reason: Option<Seq<char>>,
    pub enforcement_evidence: EnforcementEvidenceView,
    pub enforcement_evidence_propagation: EnforcementEvidencePropagation,
}

impl View for CapturedBytes {
    type V = CapturedBytesView;

    open spec fn view(&self) -> CapturedBytesView {
        CapturedBytesView {
            timestamp: self.timestamp,
            flow: self.flow@,
            origin: self.origin,
            direction: self.direction,
            stream_offset: self.stream_offset,
            bytes: octets_of(self.bytes),
            attribution_confidence: self.attribution_confidence,
            degraded: self.degraded,
            degradation_reason: optional_text(self.degradation_reason),
            enforcement_evidence: self.enforcement_evidence@,
            enforcement_evidence_propagation: self.enforcement_evidence_propagation,
        }
    }
}

/// A stretch of one direction of a flow that was not captured.
#[derive(Debug, PartialEq, Eq)]
pub struct CapturedGap {
    pub timestamp: Timestamp,
    pub flow: FlowContext,
    pub origin: CaptureOrigin,
    pub enforcement_evidence: EnforcementEvidence,
    pub enforcement_evidence_propagation: EnforcementEvidencePropagation,
    pub gap: Gap,
}

#[verifier::ext_equal]
pub struct CapturedGapView {
    pub timestamp: Timestamp,
    pub flow: FlowContextView,
    pub origin: CaptureOrigin,
    pub enforcement_evidence: EnforcementEvidenceView,
    pub enforcement_evidence_propagation: EnforcementEvidencePropagation,
    pub gap: GapView,
}

impl View for CapturedGap {
    type V = CapturedGapView;

    open spec fn view(&self) -> CapturedGapView {
        CapturedGapView {
            timestamp: self.timestamp,
            flow: self.flow@,
            origin: self.origin,
            enforcement_evidence: self.enforcement_evidence@,
            enforcement_evidence_propagation: self.enforcement_evidence_propagation,
            gap: self.gap@,
        }
    }
}

/// Events that a provider lost.
#[derive(Debug, PartialEq, Eq)]
pub struct CapturedLoss {
    pub timestamp: Timestamp,
    pub origin: CaptureOrigin,
    pub enforcement_evidence: EnforcementEvidence,
    pub loss: CaptureLoss,
}

#[verifier::ext_equal]
pub struct CapturedLossView {
    pub timestamp: Timestamp,
    pub origin: CaptureOrigin,
    pub enforcement_evidence: EnforcementEvidenceView,
    pub loss: CaptureLossView,
}

impl View for CapturedLoss {
    type V = CapturedLossView;

    open spec fn view(&self) -> CapturedLossView {
        CapturedLossView {
            timestamp: self.timestamp,
            origin: self.origin,
            enforcement_evidence: self.enforcement_evidence@,
            loss: self.loss@,
        }
    }
}

/// What a provider reports.
#[derive(Debug, PartialEq, Eq)]
pub enum CaptureEvent {
    Bytes(CapturedBytes),
    Gap(CapturedGap),
    Loss(CapturedLoss),
    ConnectionOpened { timestamp: Timestamp, flow: FlowContext, origin: CaptureOrigin },
    ConnectionClosed { timestamp: Timestamp, flow: FlowContext, origin: CaptureOrigin },
}

#[verifier::ext_equal]
pub enum CaptureEventView {
    Bytes(CapturedBytesView),
    Gap(CapturedGapView),
    Loss(CapturedLossView),
    ConnectionOpened { timestamp: Timestamp, flow: FlowContextView, origin: CaptureOrigin },
    ConnectionClosed { timestamp: Timestamp, flow: FlowContextView, origin: CaptureOrigin },
}

impl View for CaptureEvent {
    type V = CaptureEventView;

    open spec fn view(&self) -> CaptureEventView {
        match *self {
            CaptureEvent::Bytes(bytes) => CaptureEventView::Bytes(bytes@),
            CaptureEvent::Gap(gap) => CaptureEventView::Gap(gap@),
            CaptureEvent::Loss(loss) => CaptureEventView::Loss(loss@),
            CaptureEvent::ConnectionOpened { timestamp, flow, origin } =>
                CaptureEventView::ConnectionOpened { timestamp, flow: flow@, origin },
            CaptureEvent::ConnectionClosed { timestamp, flow, origin } =>
                CaptureEventView::ConnectionClosed { timestamp, flow: flow@, origin },
        }
    }
}

/// The views of a sequence of events.
pub open spec fn event_views(events: Seq<CaptureEvent>) -> Seq<CaptureEventView> {
    events.map_values(|event: CaptureEvent| event@)
}

pub broadcast proof fn lemma_event_views_push(events: Seq<CaptureEvent>, event: CaptureEvent)
    ensures
        #[trigger] event_views(events.push(event)) == event_views(events).push(event@),
{
    assert(event_views(events.push(event)) =~= event_views(events).push(event@));
}

pub broadcast proof fn lemma_event_views_concat(
    first: Seq<CaptureEvent>,
    second: Seq<CaptureEvent>,
)
    ensures
        #[trigger] event_views(first + second) == event_views(first) + event_views(second),
{
    assert(event_views(first + second) =~= event_views(first) + event_views(second));
}

/// Whether evidence that an event carries holds for the event alone or for its whole flow.
#[derive(Debug, Clone, Copy, PartialEq, Eq, Structural)]
pub enum EnforcementEvidencePropagation {
    Event,
    Flow,
}

impl EnforcementEvidencePropagation {
    pub fn is_flow_carried(self) -> (carried: bool)
        ensures
            carried == (self == EnforcementEvidencePropagation::Flow),
    {
        matches!(self, EnforcementEvidencePropagation::Flow)
    }
}

/// A gap event whose evidence is limited to observation for the same reason as the gap.
pub open spec fn observed_gap_event(
    timestamp: Timestamp,
    flow: FlowContextView,
    origin: CaptureOrigin,
    evidence_reason: ObservationOnlyReason,
    propagation: EnforcementEvidencePropagation,
    gap: GapView,
) -> CaptureEventView {
    CaptureEventView::Gap(
        CapturedGapView {
            timestamp,
            flow,
            origin,
            enforcement_evidence: observation_only(evidence_reason, gap.reason),
            enforcement_evidence_propagation: propagation,
            gap,
        },
    )
}

/// A gap event whose evidence is limited to observation for the same reason as the gap.
pub fn build_observed_gap_event(
    timestamp: Timestamp,
    flow: FlowContext,
    origin: CaptureOrigin,
    evidence_reason: ObservationOnlyReason,
    propagation: EnforcementEvidencePropagation,
    gap: Gap,
) -> (event: CaptureEvent)
    ensures
        event@ == observed_gap_event(
            timestamp,
            flow@,
            origin,
            evidence_reason,
            propagation,
            gap@,
        ),
{
    let enforcement_evidence = EnforcementEvidence::observation_only_with_detail(
        evidence_reason,
        gap.reason.clone(),
    );
    CaptureEvent::Gap(
        CapturedGap {
            timestamp,
            flow,
            origin,
            enforcement_evidence,
            enforcement_evidence_propagation: propagation,
            gap,
        },
    )
}

/// Appends `events` to a queue, in order.
pub fn extend_queue(queue: &mut VecDeque<CaptureEvent>, events: Vec<CaptureEvent>)
    ensures
        event_views(final(queue)@) == event_views(old(queue)@) + event_views(events@),
{
    let ghost before = queue@;
    let ghost all = events@;
    let mut rest = events;
    let mut reversed: Vec<CaptureEvent> = Vec::new();
    assert(rest@ + reversed@.reverse() =~= all);
    while rest.len() > 0
        invariant
            rest@ + reversed@.reverse() == all,
        decreases rest.len(),
    {
        let ghost left = rest@;
        let ghost right = reversed@;
        let event = rest.pop().unwrap();
        reversed.push(event);
        assert(rest@ + reversed@.reverse() =~= left + right.reverse());
    }
    assert(reversed@.reverse() =~= all);
    assert(queue@ + reversed@.reverse() =~= before + all);
    while reversed.len() > 0
        invariant
            queue@ + reversed@.reverse() == before + all,
        decreases reversed.len(),
    {
        let ghost left = queue@;
        let ghost right = reversed@;
        let event = reversed.pop().unwrap();
        queue.push_back(event);
        assert(queue@ + reversed@.reverse() =~= left + right.reverse());
    }
    assert(queue@ =~= before + all);
}

} // verus!
