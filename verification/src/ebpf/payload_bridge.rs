//! From samples of system calls to payload events, and from boundaries to gaps.
use vstd::prelude::*;
use vstd::string::StringExecFns;

use crate::event::{
    build_observed_gap_event, event_views, lemma_event_views_concat, lemma_event_views_push,
    observed_gap_event, CaptureEvent, CaptureEventView, CapturedBytes, CapturedBytesView,
    EnforcementEvidencePropagation,
};
use crate::keyed::value_of;
use crate::model::{
    ebpf_origin, observation_only, CaptureOrigin, CaptureSource, Direction, EnforcementEvidence,
    FlowContext, FlowContextView, Gap, GapView, ObservationOnlyReason, Timestamp,
};
use crate::text::{decimal, decimal_digits, joined, push_labelled};

use super::descriptor_lease::{observed_key, DescriptorLeaseKey};
use super::tracked_flow::{
    matches_payload, used_with, FlowEntries, TrackedEbpfFlow, TrackedEbpfFlows, TrackedFlowView,
};
use super::types::{
    EbpfSocketReadObservation, EbpfSocketReadObservationView, EbpfSocketWriteObservation,
    EbpfSocketWriteObservationView,
};

verus! {

broadcast use {lemma_event_views_push, lemma_event_views_concat};

pub const EBPF_WRITE_ARGUMENT_SAMPLE_REASON: &'static str = "eBPF outbound syscall sample is an argument snapshot captured before the kernel copies bytes; contents are best-effort and may differ from bytes actually sent";

pub const EBPF_READ_RESULT_SAMPLE_REASON: &'static str = "eBPF inbound syscall sample is a result buffer snapshot captured after the kernel returns; contents are best-effort and may omit bytes when truncated";

pub const WRITE_READ_FAILED_REASON: &'static str = "eBPF outbound syscall argument sample could not read userspace payload buffer";

pub const READ_READ_FAILED_REASON: &'static str = "eBPF inbound syscall result sample could not read userspace payload buffer";

pub const WRITE_EMPTY_REASON: &'static str = "eBPF outbound syscall sample did not contain captured payload bytes";

pub const READ_EMPTY_REASON: &'static str = "eBPF inbound syscall sample did not contain captured payload bytes";

pub const WRITE_TRUNCATED_PREFIX: &'static str = "eBPF outbound syscall sample truncated payload";

pub const READ_TRUNCATED_PREFIX: &'static str = "eBPF inbound syscall sample truncated payload";

/// What is said of a sample, and what its evidence is limited by.
#[verifier::ext_equal]
pub struct SampleTexts {
    pub evidence: ObservationOnlyReason,
    /// Why a sample is never more than a best effort.
    pub base_reason: Seq<char>,
    pub read_failed_reason: Seq<char>,
    pub empty_reason: Seq<char>,
    pub truncated_prefix: Seq<char>,
}

/// What is said of the samples of a direction.
pub open spec fn texts_for(direction: Direction) -> SampleTexts {
    match direction {
        Direction::Outbound => SampleTexts {
            evidence: ObservationOnlyReason::EbpfSyscallPayloadSnapshot,
            base_reason: EBPF_WRITE_ARGUMENT_SAMPLE_REASON@,
            read_failed_reason: WRITE_READ_FAILED_REASON@,
            empty_reason: WRITE_EMPTY_REASON@,
            truncated_prefix: WRITE_TRUNCATED_PREFIX@,
        },
        Direction::Inbound => SampleTexts {
            evidence: ObservationOnlyReason::EbpfSyscallPayloadSnapshot,
            base_reason: EBPF_READ_RESULT_SAMPLE_REASON@,
            read_failed_reason: READ_READ_FAILED_REASON@,
            empty_reason: READ_EMPTY_REASON@,
            truncated_prefix: READ_TRUNCATED_PREFIX@,
        },
    }
}

/// What a system call moved in one direction, and what was captured of it.
#[verifier::ext_equal]
pub struct PayloadSampleView {
    pub direction: Direction,
    pub original_len: u32,
    pub buffer: Seq<u8>,
    pub truncated: bool,
    pub read_failed: bool,
}

/// The sample of a write.
pub open spec fn write_sample(write: EbpfSocketWriteObservationView) -> PayloadSampleView {
    PayloadSampleView {
        direction: Direction::Outbound,
        original_len: write.original_len,
        buffer: write.buffer,
        truncated: write.truncated,
        read_failed: write.read_failed,
    }
}

/// The sample of a read.
pub open spec fn read_sample(read: EbpfSocketReadObservationView) -> PayloadSampleView {
    PayloadSampleView {
        direction: Direction::Inbound,
        original_len: read.original_len,
        buffer: read.buffer,
        truncated: read.truncated,
        read_failed: read.read_failed,
    }
}

/// `offset` moved on by `length`, up to the largest offset.
pub open spec fn moved_on(offset: u64, length: int) -> u64 {
    if offset + length <= u64::MAX {
        (offset + length) as u64
    } else {
        u64::MAX
    }
}

/// A gap in sampled payload.
pub open spec fn payload_gap(
    timestamp: Timestamp,
    flow: FlowContextView,
    direction: Direction,
    expected_offset: u64,
    next_offset: u64,
    evidence: ObservationOnlyReason,
    reason: Seq<char>,
) -> CaptureEventView {
    observed_gap_event(
        timestamp,
        flow,
        ebpf_origin(),
        evidence,
        EnforcementEvidencePropagation::Flow,
        GapView { direction, expected_offset, next_offset: Some(next_offset), reason },
    )
}

/// Why the octets of a sample are degraded.
pub open spec fn degradation_reason(sample: PayloadSampleView, texts: SampleTexts) -> Seq<char> {
    if sample.truncated {
        texts.base_reason + "; truncated payload: captured "@ + decimal_digits(
            sample.buffer.len(),
        ) + " of "@ + decimal_digits(sample.original_len as nat) + " byte(s)"@
    } else {
        texts.base_reason
    }
}

/// Why the rest of a truncated sample is missing.
pub open spec fn truncation_reason(sample: PayloadSampleView, texts: SampleTexts) -> Seq<char> {
    texts.truncated_prefix + " after "@ + decimal_digits(sample.buffer.len()) + " of "@
        + decimal_digits(sample.original_len as nat) + " byte(s)"@
}

/// The octets that a sample holds.
pub open spec fn sampled_bytes(
    watched: TrackedFlowView,
    sample: PayloadSampleView,
    texts: SampleTexts,
    timestamp: Timestamp,
) -> CaptureEventView {
    CaptureEventView::Bytes(
        CapturedBytesView {
            timestamp,
            flow: watched.flow,
            origin: ebpf_origin(),
            direction: sample.direction,
            stream_offset: watched.offset(sample.direction),
            bytes: sample.buffer,
            attribution_confidence: watched.flow.attribution_confidence,
            degraded: true,
            degradation_reason: Some(degradation_reason(sample, texts)),
            enforcement_evidence: observation_only(
                texts.evidence,
                degradation_reason(sample, texts),
            ),
            enforcement_evidence_propagation: EnforcementEvidencePropagation::Flow,
        },
    )
}

/// The events of a sample: the octets that it holds, and a gap for what it does not hold.
pub open spec fn sample_events(
    watched: TrackedFlowView,
    sample: PayloadSampleView,
    texts: SampleTexts,
    timestamp: Timestamp,
) -> Seq<CaptureEventView> {
    let start = watched.offset(sample.direction);
    let end = moved_on(start, sample.original_len as int);
    if sample.read_failed {
        seq![
            payload_gap(
                timestamp,
                watched.flow,
                sample.direction,
                start,
                end,
                texts.evidence,
                texts.read_failed_reason,
            ),
        ]
    } else {
        let rest_is_missing = sample.truncated && sample.buffer.len() < sample.original_len;
        let bytes = if sample.buffer.len() > 0 {
            seq![sampled_bytes(watched, sample, texts, timestamp)]
        } else {
            Seq::empty()
        };
        if rest_is_missing {
            bytes.push(
                payload_gap(
                    timestamp,
                    watched.flow,
                    sample.direction,
                    moved_on(start, sample.buffer.len() as int),
                    end,
                    texts.evidence,
                    truncation_reason(sample, texts),
                ),
            )
        } else if sample.buffer.len() > 0 {
            bytes
        } else {
            seq![
                payload_gap(
                    timestamp,
                    watched.flow,
                    sample.direction,
                    start,
                    end,
                    texts.evidence,
                    texts.empty_reason,
                ),
            ]
        }
    }
}

/// The flow after a sample: its direction is followed up to the end of the system call.
pub open spec fn after_sample(watched: TrackedFlowView, sample: PayloadSampleView) -> TrackedFlowView {
    watched.with_offset(
        sample.direction,
        moved_on(watched.offset(sample.direction), sample.original_len as int),
    )
}

/// The events of a payload observation on the descriptor `key`, if its flow may be sampled so.
pub open spec fn payload_events_of(
    entries: FlowEntries,
    key: Option<DescriptorLeaseKey>,
    sample: PayloadSampleView,
    texts: SampleTexts,
    timestamp: Timestamp,
) -> Seq<CaptureEventView> {
    if matches_payload(entries, key, sample.direction) {
        sample_events(value_of(entries, key->0), sample, texts, timestamp)
    } else {
        Seq::empty()
    }
}

/// The tracked flows after a payload observation on the descriptor `key`.
pub open spec fn flows_after_payload(
    entries: FlowEntries,
    key: Option<DescriptorLeaseKey>,
    sample: PayloadSampleView,
) -> FlowEntries {
    if matches_payload(entries, key, sample.direction) {
        used_with(entries, key->0, after_sample(value_of(entries, key->0), sample))
    } else {
        entries
    }
}

/// A sample with what is said of it.
pub struct PayloadSample<'a> {
    pub timestamp: Timestamp,
    pub direction: Direction,
    pub original_len: u32,
    pub buffer: &'a Vec<u8>,
    pub truncated: bool,
    pub read_failed: bool,
    pub evidence: ObservationOnlyReason,
    pub base_reason: &'static str,
    pub read_failed_reason: &'static str,
    pub empty_reason: &'static str,
    pub truncated_prefix: &'static str,
}

impl<'a> View for PayloadSample<'a> {
    type V = PayloadSampleView;

    open spec fn view(&self) -> PayloadSampleView {
        PayloadSampleView {
            direction: self.direction,
            original_len: self.original_len,
            buffer: self.buffer@,
            truncated: self.truncated,
            read_failed: self.read_failed,
        }
    }
}

impl<'a> PayloadSample<'a> {
    pub open spec fn texts(&self) -> SampleTexts {
        SampleTexts {
            evidence: self.evidence,
            base_reason: self.base_reason@,
            read_failed_reason: self.read_failed_reason@,
            empty_reason: self.empty_reason@,
            truncated_prefix: self.truncated_prefix@,
        }
    }
}

/// The events of a write on a socket.
pub fn write_events(
    flows: &mut TrackedEbpfFlows,
    write: &EbpfSocketWriteObservation,
    timestamp: Timestamp,
) -> (events: Vec<CaptureEvent>)
    requires
        old(flows).well_formed(),
    ensures
        final(flows).well_formed(),
        final(flows).capacity() == old(flows).capacity(),
        final(flows)@ == flows_after_payload(
            old(flows)@,
            observed_key(write.process.tgid, write.fd, write.fd_generation),
            write_sample(write@),
        ),
        event_views(events@) == payload_events_of(
            old(flows)@,
            observed_key(write.process.tgid, write.fd, write.fd_generation),
            write_sample(write@),
            texts_for(Direction::Outbound),
            timestamp,
        ),
{
    match flows.get_write_mut(write) {
        Some(watched) => payload_events(
            watched,
            PayloadSample {
                timestamp,
                direction: Direction::Outbound,
                original_len: write.original_len,
                buffer: &write.buffer,
                truncated: write.truncated,
                read_failed: write.read_failed,
                evidence: ObservationOnlyReason::EbpfSyscallPayloadSnapshot,
                base_reason: EBPF_WRITE_ARGUMENT_SAMPLE_REASON,
                read_failed_reason: WRITE_READ_FAILED_REASON,
                empty_reason: WRITE_EMPTY_REASON,
                truncated_prefix: WRITE_TRUNCATED_PREFIX,
            },
        ),
        None => {
            let events: Vec<CaptureEvent> = Vec::new();
            assert(event_views(events@) =~= Seq::empty());
            events
        },
    }
}

/// The events of a read from a socket.
pub fn read_events(
    flows: &mut TrackedEbpfFlows,
    read: &EbpfSocketReadObservation,
    timestamp: Timestamp,
) -> (events: Vec<CaptureEvent>)
    requires
        old(flows).well_formed(),
    ensures
        final(flows).well_formed(),
        final(flows).capacity() == old(flows).capacity(),
        final(flows)@ == flows_after_payload(
            old(flows)@,
            observed_key(read.process.tgid, read.fd, read.fd_generation),
            read_sample(read@),
        ),
        event_views(events@) == payload_events_of(
            old(flows)@,
            observed_key(read.process.tgid, read.fd, read.fd_generation),
            read_sample(read@),
            texts_for(Direction::Inbound),
            timestamp,
        ),
{
    match flows.get_read_mut(read) {
        Some(watched) => payload_events(
            watched,
            PayloadSample {
                timestamp,
                direction: Direction::Inbound,
                original_len: read.original_len,
                buffer: &read.buffer,
                truncated: read.truncated,
                read_failed: read.read_failed,
                evidence: ObservationOnlyReason::EbpfSyscallPayloadSnapshot,
                base_reason: EBPF_READ_RESULT_SAMPLE_REASON,
                read_failed_reason: READ_READ_FAILED_REASON,
                empty_reason: READ_EMPTY_REASON,
                truncated_prefix: READ_TRUNCATED_PREFIX,
            },
        ),
        None => {
            let events: Vec<CaptureEvent> = Vec::new();
            assert(event_views(events@) =~= Seq::empty());
            events
        },
    }
}

/// The events of a sample of a flow, which is followed up to the end of the system call.
pub fn payload_events<'a>(watched: &mut TrackedEbpfFlow, sample: PayloadSample<'a>) -> (events: Vec<
    CaptureEvent,
>)
    ensures
        final(watched)@ == after_sample(old(watched)@, sample@),
        event_views(events@) == sample_events(
            old(watched)@,
            sample@,
            sample.texts(),
            sample.timestamp,
        ),
{
    let mut events: Vec<CaptureEvent> = Vec::new();
    assert(event_views(events@) =~= Seq::empty());
    let start: u64 = watched.stream_offset(sample.direction);
    let end: u64 = start.saturating_add(sample.original_len as u64);
    if sample.read_failed {
        watched.set_stream_offset(sample.direction, end);
        events.push(
            ebpf_payload_gap(
                sample.timestamp,
                watched.flow.clone(),
                sample.direction,
                start,
                end,
                sample.evidence,
                sample.read_failed_reason.to_owned(),
            ),
        );
        assert(event_views(events@) =~= sample_events(
            old(watched)@,
            sample@,
            sample.texts(),
            sample.timestamp,
        ));
        return events;
    }
    let captured_len: u64 = sample.buffer.len() as u64;
    if captured_len > 0 {
        let reason = payload_degradation_reason(&sample, captured_len);
        events.push(
            CaptureEvent::Bytes(
                CapturedBytes {
                    timestamp: sample.timestamp,
                    flow: watched.flow.clone(),
                    origin: CaptureOrigin::from_source(CaptureSource::EbpfSyscall),
                    direction: sample.direction,
                    stream_offset: start,
                    bytes: bytes::Bytes::copy_from_slice(sample.buffer.as_slice()),
                    attribution_confidence: watched.flow.attribution_confidence,
                    degraded: true,
                    degradation_reason: Some(reason.clone()),
                    enforcement_evidence: EnforcementEvidence::observation_only_with_detail(
                        sample.evidence,
                        reason,
                    ),
                    enforcement_evidence_propagation: EnforcementEvidencePropagation::Flow,
                },
            ),
        );
        assert(event_views(events@) =~= seq![
            sampled_bytes(old(watched)@, sample@, sample.texts(), sample.timestamp),
        ]);
    }
    if sample.truncated && captured_len < sample.original_len as u64 {
        let mut reason = joined(sample.truncated_prefix, " after ");
        reason.append(decimal(captured_len).as_str());
        push_labelled(&mut reason, " of ", sample.original_len as u64);
        reason.append(" byte(s)");
        events.push(
            ebpf_payload_gap(
                sample.timestamp,
                watched.flow.clone(),
                sample.direction,
                start.saturating_add(captured_len),
                end,
                sample.evidence,
                reason,
            ),
        );
    }
    if events.len() == 0 {
        events.push(
            ebpf_payload_gap(
                sample.timestamp,
                watched.flow.clone(),
                sample.direction,
                start,
                end,
                sample.evidence,
                sample.empty_reason.to_owned(),
            ),
        );
    }
    watched.set_stream_offset(sample.direction, end);
    assert(event_views(events@) =~= sample_events(
            old(watched)@,
            sample@,
            sample.texts(),
            sample.timestamp,
        ));
    events
}

fn ebpf_payload_gap(
    timestamp: Timestamp,
    flow: FlowContext,
    direction: Direction,
    expected_offset: u64,
    next_offset: u64,
    evidence: ObservationOnlyReason,
    reason: String,
) -> (event: CaptureEvent)
    ensures
        event@ == payload_gap(
            timestamp,
            flow@,
            direction,
            expected_offset,
            next_offset,
            evidence,
            reason@,
        ),
{
    build_observed_gap_event(
        timestamp,
        flow,
        CaptureOrigin::from_source(CaptureSource::EbpfSyscall),
        evidence,
        EnforcementEvidencePropagation::Flow,
        Gap { direction, expected_offset, next_offset: Some(next_offset), reason },
    )
}

fn payload_degradation_reason<'a>(sample: &PayloadSample<'a>, captured_len: u64) -> (reason: String)
    requires
        captured_len == sample.buffer@.len(),
    ensures
        reason@ == degradation_reason(sample@, sample.texts()),
{
    if sample.truncated {
        let mut reason = joined(sample.base_reason, "; truncated payload: captured ");
        reason.append(decimal(captured_len).as_str());
        push_labelled(&mut reason, " of ", sample.original_len as u64);
        reason.append(" byte(s)");
        return reason;
    }
    sample.base_reason.to_owned()
}

} // verus!
