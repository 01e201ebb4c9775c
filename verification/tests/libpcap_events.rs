use capture::libpcap::decoder::{DecodedTcpSegment, TcpFlags};
use capture::libpcap::flow::model::{
    FlowCloseSequence, FlowClosure, FlowEnd, FlowFinalization, FlowLifecycleObservation,
    FlowPayload, FlowPayloadObservation,
};
use capture::libpcap::flush::PendingStreamFlush;
use capture::libpcap::provider::{
    event_sequence_from_lifecycle_observation, event_sequence_from_payload_observation,
    LibpcapState,
};
use capture::libpcap::stream::tracker::StreamTracker;
use capture::{
    AddressPort, CaptureEvent, CapturePoll, Direction, FlowContext, FlowIdentity, IpAddress,
    ProcessContext, ProcessIdentity, Timestamp, TransportProtocol,
};

const MILLISECOND_NS: u64 = 1_000_000;

#[test]
fn pending_stream_flush_waits_until_read_timeout_elapses() {
    let start: u64 = 7_000_000_000;
    let mut pending_flush = PendingStreamFlush::from_read_timeout_ms(1_000);

    pending_flush.observe(true, start);

    assert!(!pending_flush.should_flush(true, start + 999 * MILLISECOND_NS));
    assert!(pending_flush.should_flush(true, start + 1_000 * MILLISECOND_NS));
}

#[test]
fn pending_stream_flush_clears_deadline_when_streams_resolve() {
    let start: u64 = 7_000_000_000;
    let mut pending_flush = PendingStreamFlush::from_read_timeout_ms(1_000);

    pending_flush.observe(true, start);
    pending_flush.observe(false, start + 500 * MILLISECOND_NS);
    pending_flush.observe(true, start + 600 * MILLISECOND_NS);

    assert!(!pending_flush.should_flush(true, start + 1_500 * MILLISECOND_NS));
    assert!(pending_flush.should_flush(true, start + 1_600 * MILLISECOND_NS));
}

#[test]
fn provider_event_sequence_places_stale_close_before_new_bytes() {
    let timestamp = timestamp(7);
    let stale_flow = demo_flow(1, 10);
    let new_flow = demo_flow(2, 11);
    let sequence = event_sequence_from_payload_observation(
        &mut StreamTracker::default(),
        timestamp,
        &decoded_payload(),
        FlowPayloadObservation::new(
            vec![FlowClosure::new(stale_flow.clone(), Vec::new())],
            payload_observation(new_flow.clone()),
            None,
        ),
    )
    .into_iter()
    .collect::<Vec<_>>();

    assert!(matches!(
        &sequence[0],
        CaptureEvent::ConnectionClosed { flow, .. } if flow.id == stale_flow.id
    ));
    assert!(matches!(
        &sequence[1],
        CaptureEvent::Bytes(bytes) if bytes.flow.id == new_flow.id
    ));
}

#[test]
fn provider_event_sequence_places_current_close_after_payload_bytes() {
    let timestamp = timestamp(7);
    let flow = demo_flow(1, 10);
    let sequence = event_sequence_from_payload_observation(
        &mut StreamTracker::default(),
        timestamp,
        &decoded_payload(),
        FlowPayloadObservation::new(
            Vec::new(),
            payload_observation(flow.clone()),
            Some(FlowEnd::close(FlowClosure::new(flow.clone(), Vec::new()))),
        ),
    )
    .into_iter()
    .collect::<Vec<_>>();

    assert!(matches!(
        &sequence[0],
        CaptureEvent::Bytes(bytes) if bytes.flow.id == flow.id
    ));
    assert!(matches!(
        &sequence[1],
        CaptureEvent::ConnectionClosed { flow: closed, .. } if closed.id == flow.id
    ));
}

#[test]
fn event_sequence_flushes_pending_stream_before_connection_close() {
    let timestamp = timestamp(7);
    let flow = demo_flow(1, 10);
    let mut streams = StreamTracker::default();

    let first = event_sequence_from_payload_observation(
        &mut streams,
        timestamp,
        &decoded_segment(100, b"GET "),
        payload_flow_observation(flow.clone()),
    )
    .into_iter()
    .collect::<Vec<_>>();
    let pending = event_sequence_from_payload_observation(
        &mut streams,
        timestamp,
        &decoded_segment(108, b"HTTP"),
        payload_flow_observation(flow.clone()),
    )
    .into_iter()
    .collect::<Vec<_>>();
    let close_sequence = FlowCloseSequence {
        direction: Direction::Outbound,
        sequence: 112,
    };
    let close = event_sequence_from_payload_observation(
        &mut streams,
        timestamp,
        &decoded_segment(112, b""),
        FlowPayloadObservation::new(
            Vec::new(),
            payload_observation(flow.clone()),
            Some(FlowEnd::close(FlowClosure::new(
                flow.clone(),
                vec![close_sequence],
            ))),
        ),
    )
    .into_iter()
    .collect::<Vec<_>>();

    assert!(matches!(
        &first[0],
        CaptureEvent::Bytes(bytes) if bytes.stream_offset == 0 && bytes.bytes.as_ref() == b"GET "
    ));
    assert!(pending.is_empty());
    assert!(matches!(
        &close[0],
        CaptureEvent::Gap(gap)
            if gap.gap.expected_offset == 4 && gap.gap.next_offset == Some(8)
    ));
    assert!(matches!(
        &close[1],
        CaptureEvent::Bytes(bytes) if bytes.stream_offset == 8 && bytes.bytes.as_ref() == b"HTTP"
    ));
    assert!(matches!(
        &close[2],
        CaptureEvent::ConnectionClosed { flow: closed, .. } if closed.id == flow.id
    ));
}

#[test]
fn event_sequence_finalizes_half_closed_direction_before_connection_close() {
    let timestamp = timestamp(7);
    let flow = demo_flow(1, 10);
    let mut streams = StreamTracker::default();

    let first = event_sequence_from_payload_observation(
        &mut streams,
        timestamp,
        &decoded_segment(100, b"GET "),
        payload_flow_observation(flow.clone()),
    )
    .into_iter()
    .collect::<Vec<_>>();
    let half_close = event_sequence_from_lifecycle_observation(
        &mut streams,
        timestamp,
        FlowLifecycleObservation::new(
            Vec::new(),
            Some(FlowEnd::finalize(FlowFinalization::new(
                flow.clone(),
                FlowCloseSequence {
                    direction: Direction::Outbound,
                    sequence: 108,
                },
            ))),
        ),
    )
    .into_iter()
    .collect::<Vec<_>>();

    assert!(matches!(
        &first[0],
        CaptureEvent::Bytes(bytes) if bytes.stream_offset == 0 && bytes.bytes.as_ref() == b"GET "
    ));
    assert!(matches!(
        &half_close[0],
        CaptureEvent::Gap(gap)
            if gap.gap.expected_offset == 4 && gap.gap.next_offset == Some(8)
    ));
    assert!(!matches!(
        half_close.last(),
        Some(CaptureEvent::ConnectionClosed { .. })
    ));
}

fn decoded_payload() -> DecodedTcpSegment<'static> {
    decoded_segment(1, b"GET / HTTP/1.1\r\n\r\n")
}

fn decoded_segment(sequence: u32, payload: &'static [u8]) -> DecodedTcpSegment<'static> {
    DecodedTcpSegment {
        source: IpAddress::v4([10, 0, 0, 1]),
        destination: IpAddress::v4([10, 0, 0, 2]),
        source_port: 50_000,
        destination_port: 80,
        sequence,
        acknowledgment: 0,
        flags: TcpFlags {
            syn: false,
            ack: false,
            fin: false,
            rst: false,
        },
        payload,
    }
}

fn payload_flow_observation(flow: FlowContext) -> FlowPayloadObservation {
    FlowPayloadObservation::new(Vec::new(), payload_observation(flow), None)
}

fn payload_observation(flow: FlowContext) -> FlowPayload {
    FlowPayload::new(Direction::Outbound, flow, 60, None)
}

fn timestamp(monotonic_ns: u64) -> Timestamp {
    Timestamp {
        monotonic_ns,
        wall_time_unix_ns: monotonic_ns as i64,
    }
}

fn demo_flow(pid: u32, start_monotonic_ns: u64) -> FlowContext {
    let process = ProcessIdentity {
        pid,
        tgid: pid,
        start_time_ticks: u64::from(pid),
        boot_id: "boot".to_string(),
        exe_path: format!("/usr/bin/{pid}"),
        cmdline_hash: "hash".to_string(),
        uid: 1000,
        gid: 1000,
        cgroup: None,
        systemd_service: None,
        container_id: None,
        runtime_hint: None,
    };
    let local = AddressPort {
        address: "10.0.0.1".to_string(),
        port: 50_000,
    };
    let remote = AddressPort {
        address: "10.0.0.2".to_string(),
        port: 80,
    };
    FlowContext {
        id: FlowIdentity::stable(
            &process,
            &local,
            &remote,
            TransportProtocol::Tcp,
            start_monotonic_ns,
            None,
        ),
        process: ProcessContext {
            identity: process,
            name: pid.to_string(),
            cmdline: Vec::new(),
        },
        local,
        remote,
        protocol: TransportProtocol::Tcp,
        start_monotonic_ns,
        socket_cookie: None,
        attribution_confidence: 60,
    }
}

#[test]
fn libpcap_event_sequence_places_stale_close_before_new_bytes() {
    let timestamp = timestamp(7);
    let stale_flow = demo_flow(1, 10);
    let new_flow = demo_flow(2, 11);
    let mut state = LibpcapState::new(1_000);
    let first = state.accept_payload(
        timestamp,
        &decoded_payload(),
        FlowPayloadObservation::new(
            vec![FlowClosure::new(stale_flow.clone(), Vec::new())],
            payload_observation(new_flow.clone()),
            None,
        ),
        0,
    );
    let second = state.poll_ready(0, 0);

    assert!(matches!(
        first,
        CapturePoll::Event(event)
            if matches!(&*event, CaptureEvent::ConnectionClosed { flow, .. } if flow.id == stale_flow.id)
    ));
    assert!(matches!(
        second,
        Some(CapturePoll::Event(event))
            if matches!(&*event, CaptureEvent::Bytes(bytes) if bytes.flow.id == new_flow.id)
    ));
}

#[test]
fn libpcap_event_sequence_places_current_close_after_payload_bytes() {
    let timestamp = timestamp(7);
    let flow = demo_flow(1, 10);
    let mut state = LibpcapState::new(1_000);
    let first = state.accept_payload(
        timestamp,
        &decoded_payload(),
        FlowPayloadObservation::new(
            Vec::new(),
            payload_observation(flow.clone()),
            Some(FlowEnd::close(FlowClosure::new(flow.clone(), Vec::new()))),
        ),
        0,
    );
    let second = state.poll_ready(0, 0);

    assert!(matches!(
        first,
        CapturePoll::Event(event)
            if matches!(&*event, CaptureEvent::Bytes(bytes) if bytes.flow.id == flow.id)
    ));
    assert!(matches!(
        second,
        Some(CapturePoll::Event(event))
            if matches!(&*event, CaptureEvent::ConnectionClosed { flow: closed, .. } if closed.id == flow.id)
    ));
}
