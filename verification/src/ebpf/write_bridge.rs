//! From samples of write arguments alone to payload events.
use vstd::prelude::*;

use crate::event::{event_views, CaptureEvent};
use crate::model::{Direction, ObservationOnlyReason, Timestamp};

use super::descriptor_lease::observed_key;
use super::payload_bridge::{
    flows_after_payload, payload_events, payload_events_of, write_sample, PayloadSample,
    SampleTexts,
};
use super::tracked_flow::TrackedEbpfFlows;
use super::types::EbpfSocketWriteObservation;

verus! {

pub const EBPF_WRITE_SYSCALL_SAMPLE_REASON: &'static str = "eBPF write sample is a syscall argument snapshot captured before the kernel copies bytes; contents are best-effort and may differ from bytes actually sent";

pub const WRITE_SAMPLE_READ_FAILED_REASON: &'static str = "eBPF write argument sample could not read userspace payload buffer";

pub const WRITE_SAMPLE_EMPTY_REASON: &'static str = "eBPF write sample did not contain captured payload bytes";

pub const WRITE_SAMPLE_TRUNCATED_PREFIX: &'static str = "eBPF write sample truncated payload";

/// What is said of samples of write arguments.
pub open spec fn argument_texts() -> SampleTexts {
    SampleTexts {
        evidence: ObservationOnlyReason::EbpfSyscallArgumentSnapshot,
        base_reason: EBPF_WRITE_SYSCALL_SAMPLE_REASON@,
        read_failed_reason: WRITE_SAMPLE_READ_FAILED_REASON@,
        empty_reason: WRITE_SAMPLE_EMPTY_REASON@,
        truncated_prefix: WRITE_SAMPLE_TRUNCATED_PREFIX@,
    }
}

/// The events of a write on a socket, told as a sample of the write's arguments.
pub fn write_events(
    flows: &mut TrackedEbpfFlows,
    write: &EbpfSocketWriteObservation,
    timestamp: Timestamp,
) -> (events: Vec<CaptureEvent>)
    requires
        old(flows).well_formed(),
    ensures
        final(flows).well_formed(),
        final(flows).capacity() == old(flows).capacity(),
        final(flows)@ == flows_after_payload(
            old(flows)@,
            observed_key(write.process.tgid, write.fd, write.fd_generation),
            write_sample(write@),
        ),
        event_views(events@) == payload_events_of(
            old(flows)@,
            observed_key(write.process.tgid, write.fd, write.fd_generation),
            write_sample(write@),
            argument_texts(),
            timestamp,
        ),
{
    match flows.get_write_mut(write) {
        Some(watched) => payload_events(
            watched,
            PayloadSample {
                timestamp,
                direction: Direction::Outbound,
                original_len: write.original_len,
                buffer: &write.buffer,
                truncated: write.truncated,
                read_failed: write.read_failed,
                evidence: ObservationOnlyReason::EbpfSyscallArgumentSnapshot,
                base_reason: EBPF_WRITE_SYSCALL_SAMPLE_REASON,
                read_failed_reason: WRITE_SAMPLE_READ_FAILED_REASON,
                empty_reason: WRITE_SAMPLE_EMPTY_REASON,
                truncated_prefix: WRITE_SAMPLE_TRUNCATED_PREFIX,
            },
        ),
        None => {
            let events: Vec<CaptureEvent> = Vec::new();
            assert(event_views(events@) =~= Seq::empty());
            events
        },
    }
}

} // verus!
