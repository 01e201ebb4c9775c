//! What events may be used for, and where they come from.
use vstd::prelude::*;

use crate::ebpf::boundary::{boundary_gaps, boundary_gaps_of_all};
use crate::ebpf::flow_start::PendingEbpfFlowStart;
use crate::ebpf::observing::ObservationStateView;
use crate::ebpf::payload_bridge::{sample_events, texts_for, PayloadSampleView};
use crate::ebpf::tracked_flow::TrackedFlowView;
use crate::event::{CaptureEventView, EnforcementEvidencePropagation};
use crate::libpcap::stream::assembly::PieceView;
use crate::libpcap::stream::tracking::{piece_events, StreamEntryView};
use crate::model::{
    CaptureSource, Direction, EnforcementEvidenceView, ObservationOnlyReason, ProcessContextView,
    Timestamp,
};

verus! {

/// Whether evidence is limited to observation for a reason, with the circumstances in words.
pub open spec fn is_limited(
    evidence: EnforcementEvidenceView,
    reason: ObservationOnlyReason,
) -> bool {
    evidence matches EnforcementEvidenceView::ObservationOnly { reason: why, detail } && why
        == reason && detail is Some
}

/// Whether an event of sampled system calls may be observed but must not lead to enforcement: it
/// holds a gap, or octets that are told to be degraded.
pub open spec fn is_for_observation(
    event: CaptureEventView,
    timestamp: Timestamp,
    reason: ObservationOnlyReason,
    propagation: EnforcementEvidencePropagation,
) -> bool {
    match event {
        CaptureEventView::Bytes(bytes) => bytes.timestamp == timestamp
            && bytes.origin.capture_source == CaptureSource::EbpfSyscall && bytes.degraded
            && bytes.degradation_reason is Some && is_limited(bytes.enforcement_evidence, reason)
            && bytes.enforcement_evidence_propagation == propagation
            && bytes.attribution_confidence == bytes.flow.attribution_confidence,
        CaptureEventView::Gap(gap) => gap.timestamp == timestamp && gap.origin.capture_source
            == CaptureSource::EbpfSyscall && is_limited(gap.enforcement_evidence, reason)
            && gap.enforcement_evidence_propagation == propagation,
        _ => false,
    }
}

/// Payload sampled from system calls is for observation only, octets and gaps alike, and so is all
/// that follows in the flow.
pub proof fn law_sampled_payload_is_for_observation(
    watched: TrackedFlowView,
    sample: PayloadSampleView,
    timestamp: Timestamp,
    index: int,
)
    requires
        0 <= index < sample_events(
            watched,
            sample,
            texts_for(sample.direction),
            timestamp,
        ).len(),
    ensures
        is_for_observation(
            sample_events(watched, sample, texts_for(sample.direction), timestamp)[index],
            timestamp,
            ObservationOnlyReason::EbpfSyscallPayloadSnapshot,
            EnforcementEvidencePropagation::Flow,
        ),
{
}

/// A boundary is told for observation only, for its own reason, and says nothing of what follows in
/// the flow.
pub proof fn law_boundary_is_for_observation(
    flows: Seq<TrackedFlowView>,
    timestamp: Timestamp,
    evidence: ObservationOnlyReason,
    reason: Seq<char>,
    index: int,
)
    requires
        0 <= index < boundary_gaps_of_all(flows, timestamp, evidence, reason).len(),
    ensures
        ({
            let event = boundary_gaps_of_all(flows, timestamp, evidence, reason)[index];
            is_for_observation(event, timestamp, evidence, EnforcementEvidencePropagation::Event) && (
            event matches CaptureEventView::Gap(gap) && gap.gap.reason == reason)
        }),
    decreases flows.len(),
{
    let fewer = flows.drop_last();
    let earlier = boundary_gaps_of_all(fewer, timestamp, evidence, reason);
    if index < earlier.len() {
        law_boundary_is_for_observation(fewer, timestamp, evidence, reason, index);
    } else {
        let own = boundary_gaps(flows.last(), timestamp, evidence, reason);
        assert(boundary_gaps_of_all(flows, timestamp, evidence, reason)[index] == own[index
            - earlier.len()]);
    }
}

/// A flow that could not be found is told for observation only, as a gap from its first octet: of
/// what goes out for a connect, and of what comes in for an accept.
pub proof fn law_missing_flow_is_for_observation(
    start: PendingEbpfFlowStart,
    timestamp: Timestamp,
    reason: Seq<char>,
    found: Option<ProcessContextView>,
)
    ensures
        is_for_observation(
            start.gap(timestamp, reason, found),
            timestamp,
            ObservationOnlyReason::EbpfUnresolvedFlow,
            EnforcementEvidencePropagation::Event,
        ),
        start.gap(timestamp, reason, found) matches CaptureEventView::Gap(gap)
            && gap.gap.expected_offset == 0 && gap.gap.next_offset is None && gap.gap.reason
            == reason && gap.gap.direction == if start is Connect {
            Direction::Outbound
        } else {
            Direction::Inbound
        },
{
}

/// A loss of events is told for observation only, as one of sampled system calls.
pub proof fn law_loss_is_for_observation(
    state: ObservationStateView,
    count: u64,
    wall_time_unix_ns: i64,
)
    requires
        state.pending_events.len() == 0,
        count > state.loss.last_count,
    ensures
        state.loss_checked(count, wall_time_unix_ns).event matches Some(
            CaptureEventView::Loss(lost),
        ) && lost.origin.capture_source == CaptureSource::EbpfSyscall && is_limited(
            lost.enforcement_evidence,
            ObservationOnlyReason::EbpfCaptureLoss,
        ) && lost.timestamp.wall_time_unix_ns == wall_time_unix_ns,
{
}

/// What comes of captured packets is told in the order of the stream, as the octets and gaps that
/// were put together, of the flow and direction of the stream, with the confidence in its process;
/// octets are told to be degraded, with the reason, and nothing limits what they may be used for.
pub proof fn law_streamed_payload_is_told_as_it_is(
    timestamp: Timestamp,
    entry: StreamEntryView,
    pieces: Seq<PieceView>,
    index: int,
)
    requires
        0 <= index < pieces.len(),
    ensures
        piece_events(timestamp, entry, pieces).len() == pieces.len(),
        match piece_events(timestamp, entry, pieces)[index] {
            CaptureEventView::Bytes(told) => told.timestamp == timestamp && told.flow == entry.flow
                && told.direction == entry.direction && told.origin.capture_source
                == CaptureSource::Libpcap && told.degraded && told.degradation_reason == Some(
                entry.degradation_reason,
            ) && told.attribution_confidence == entry.attribution_confidence
                && told.enforcement_evidence is Unrestricted && pieces[index] == (
            PieceView::Bytes { stream_offset: told.stream_offset, bytes: told.bytes }),
            CaptureEventView::Gap(told) => told.timestamp == timestamp && told.flow == entry.flow
                && told.gap.direction == entry.direction && told.origin.capture_source
                == CaptureSource::Libpcap && told.enforcement_evidence is Unrestricted
                && pieces[index] == (PieceView::Gap {
                expected_offset: told.gap.expected_offset,
                next_offset: told.gap.next_offset,
                reason: told.gap.reason,
            }),
            _ => false,
        },
{
}

} // verus!
