use capture::libpcap::decoder::{DecodedTcpSegment, TcpFlags};
use capture::libpcap::flow::model::{
    FlowCloseSequence, FlowClosure, FlowFinalization, FlowPayload,
};
use capture::libpcap::stream::budget::MAX_TOTAL_PENDING_SEGMENTS;
use capture::libpcap::stream::tracker::{degradation_reason, StreamTracker};
use capture::{
    AddressPort, CaptureEvent, Direction, FlowContext, FlowIdentity, IpAddress, ProcessContext,
    ProcessIdentity, Timestamp, TransportProtocol,
};

#[test]
fn finalization_before_stream_entry_preserves_close_boundary() {
    let timestamp = timestamp(7);
    let flow = demo_flow(1, 10);
    let mut streams = StreamTracker::default();

    let close_sequence = FlowCloseSequence {
        direction: Direction::Outbound,
        sequence: 100,
    };
    assert!(
        streams
            .finalize_direction(
                timestamp,
                &FlowFinalization::new(flow.clone(), close_sequence),
            )
            .is_empty()
    );

    let events = streams.ingest_segment(
        timestamp,
        &decoded_segment(96, b"goodbad"),
        &payload_for(flow),
        degradation_reason(None),
    );

    assert_eq!(events.len(), 1);
    assert!(matches!(
        &events[0],
        CaptureEvent::Bytes(bytes)
            if bytes.stream_offset == 0 && bytes.bytes.as_ref() == b"good"
    ));
    assert!(!streams.has_pending());
}

#[test]
fn close_flow_emits_tail_gap_after_late_partial_payload() {
    let timestamp = timestamp(7);
    let flow = demo_flow(1, 10);
    let mut streams = StreamTracker::default();
    let close_sequence = FlowCloseSequence {
        direction: Direction::Outbound,
        sequence: 100,
    };

    assert!(
        streams
            .finalize_direction(
                timestamp,
                &FlowFinalization::new(flow.clone(), close_sequence),
            )
            .is_empty()
    );
    let bytes = streams.ingest_segment(
        timestamp,
        &decoded_segment(96, b"ok"),
        &payload_for(flow.clone()),
        degradation_reason(None),
    );
    let closed = streams.close_flow(
        timestamp,
        &FlowClosure::new(flow.clone(), vec![close_sequence]),
    );

    assert!(matches!(
        &bytes[0],
        CaptureEvent::Bytes(payload)
            if payload.stream_offset == 0 && payload.bytes.as_ref() == b"ok"
    ));
    assert!(matches!(
        &closed[0],
        CaptureEvent::Gap(gap)
            if gap.flow.id == flow.id
                && gap.gap.expected_offset == 2
                && gap.gap.next_offset == Some(4)
    ));
    assert!(!streams.has_pending());
}

#[test]
fn close_flow_flushes_pending_and_clears_pending_index() {
    let timestamp = timestamp(7);
    let flow = demo_flow(1, 10);
    let mut streams = StreamTracker::default();

    streams.ingest_segment(
        timestamp,
        &decoded_segment(100, b"GET "),
        &payload_for(flow.clone()),
        degradation_reason(None),
    );
    assert!(
        streams
            .ingest_segment(
                timestamp,
                &decoded_segment(108, b"HTTP"),
                &payload_for(flow.clone()),
                degradation_reason(None),
            )
            .is_empty()
    );
    assert!(streams.has_pending());

    let events = streams.close_flow(timestamp, &FlowClosure::new(flow, Vec::new()));

    assert!(matches!(
        &events[0],
        CaptureEvent::Gap(gap)
            if gap.gap.expected_offset == 4 && gap.gap.next_offset == Some(8)
    ));
    assert!(matches!(
        &events[1],
        CaptureEvent::Bytes(bytes) if bytes.stream_offset == 8 && bytes.bytes.as_ref() == b"HTTP"
    ));
    assert!(!streams.has_pending());
}

#[test]
fn global_pending_budget_flushes_oldest_pending_stream() {
    let mut streams = StreamTracker::default();
    let oldest_flow = demo_flow(0, 10);
    let mut budget_events = Vec::new();

    for index in 0..=MAX_TOTAL_PENDING_SEGMENTS {
        let flow = if index == 0 {
            oldest_flow.clone()
        } else {
            demo_flow(index as u32, 10 + index as u64)
        };
        let timestamp = timestamp(index as u64 + 1);
        streams.ingest_segment(
            timestamp,
            &decoded_segment(100, b"a"),
            &payload_for(flow.clone()),
            degradation_reason(None),
        );
        budget_events = streams.ingest_segment(
            timestamp,
            &decoded_segment(102, b"b"),
            &payload_for(flow),
            degradation_reason(None),
        );
    }

    assert!(budget_events.iter().any(|event| {
        matches!(
            event,
            CaptureEvent::Gap(gap) if gap.flow.id == oldest_flow.id
        )
    }));
    assert!(budget_events.iter().any(|event| {
        matches!(
            event,
            CaptureEvent::Bytes(bytes)
                if bytes.flow.id == oldest_flow.id && bytes.bytes.as_ref() == b"b"
        )
    }));
}

fn decoded_segment(sequence: u32, payload: &'static [u8]) -> DecodedTcpSegment<'static> {
    DecodedTcpSegment {
        source: IpAddress::v4([10, 0, 0, 1]),
        destination: IpAddress::v4([10, 0, 0, 2]),
        source_port: 50_000,
        destination_port: 80,
        sequence,
        acknowledgment: 0,
        flags: TcpFlags {
            syn: false,
            ack: false,
            fin: false,
            rst: false,
        },
        payload,
    }
}

fn payload_for(flow: FlowContext) -> FlowPayload {
    FlowPayload::new(Direction::Outbound, flow, 60, None)
}

fn timestamp(monotonic_ns: u64) -> Timestamp {
    Timestamp {
        monotonic_ns,
        wall_time_unix_ns: monotonic_ns as i64,
    }
}

fn demo_flow(pid: u32, start_monotonic_ns: u64) -> FlowContext {
    let process = ProcessIdentity {
        pid,
        tgid: pid,
        start_time_ticks: u64::from(pid),
        boot_id: "boot".to_string(),
        exe_path: format!("/usr/bin/{pid}"),
        cmdline_hash: "hash".to_string(),
        uid: 1000,
        gid: 1000,
        cgroup: None,
        systemd_service: None,
        container_id: None,
        runtime_hint: None,
    };
    let local = AddressPort {
        address: "10.0.0.1".to_string(),
        port: 50_000,
    };
    let remote = AddressPort {
        address: "10.0.0.2".to_string(),
        port: 80,
    };
    FlowContext {
        id: FlowIdentity::stable(
            &process,
            &local,
            &remote,
            TransportProtocol::Tcp,
            start_monotonic_ns,
            None,
        ),
        process: ProcessContext {
            identity: process,
            name: pid.to_string(),
            cmdline: Vec::new(),
        },
        local,
        remote,
        protocol: TransportProtocol::Tcp,
        start_monotonic_ns,
        socket_cookie: None,
        attribution_confidence: 60,
    }
}

#[test]
fn handoff_delivers_what_waits() {
    let timestamp = timestamp(7);
    let flow = demo_flow(1, 10);
    let mut streams = StreamTracker::default();
    for (sequence, payload) in [(100, b"GET ".as_slice()), (108, b"HTTP".as_slice())] {
        streams.ingest_segment(
            timestamp,
            &decoded_segment(sequence, payload),
            &payload_for(flow.clone()),
            degradation_reason(None),
        );
    }

    let events = streams.flush_pending_for_handoff(timestamp);

    assert_eq!(events.len(), 2);
    assert!(matches!(
        &events[0],
        CaptureEvent::Gap(gap)
            if gap.gap.next_offset == Some(8) && gap.gap.reason.contains("handoff")
    ));
    assert!(matches!(
        &events[1],
        CaptureEvent::Bytes(bytes) if bytes.bytes.as_ref() == b"HTTP"
    ));
    assert!(!streams.has_pending());
}
