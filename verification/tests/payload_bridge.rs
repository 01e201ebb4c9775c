use capture::ebpf::descriptor_lease::DescriptorLease;
use capture::ebpf::payload_bridge::{read_events, write_events};
use capture::ebpf::payload_direction::PayloadDirections;
use capture::ebpf::tracked_flow::TrackedEbpfFlows;
use capture::{
    AddressPort, CaptureEvent, CaptureProviderKind, CaptureSource, Direction, EbpfObservedProcess,
    EbpfSocketReadObservation, EbpfSocketWriteObservation, EnforcementEvidence, FlowContext,
    FlowIdentity, ProcessContext, ProcessIdentity, Timestamp, TransportProtocol,
};

#[test]
fn payload_bridge_emits_outbound_bytes_for_tracked_write() {
    let mut watched = tracked_flow(7);
    let events = write_events(
        &mut watched,
        &write_observation(7, 5, b"GET /", false, false),
        timestamp(1),
    );

    let [CaptureEvent::Bytes(bytes)] = events.as_slice() else {
        panic!("expected a single bytes event: {events:?}");
    };
    assert_eq!(bytes.flow.id, flow("flow-7").id);
    assert_eq!(bytes.origin.source(), CaptureSource::EbpfSyscall);
    assert_eq!(bytes.origin.provider(), CaptureProviderKind::Ebpf);
    assert_eq!(bytes.direction, Direction::Outbound);
    assert_eq!(bytes.stream_offset, 0);
    assert_eq!(bytes.bytes.as_ref(), b"GET /");
    assert_eq!(bytes.attribution_confidence, 90);
    assert!(bytes.degraded);
    assert_outbound_argument_reason(
        bytes
            .degradation_reason
            .as_deref()
            .expect("outbound eBPF bytes must include degradation reason"),
    );
    assert!(
        bytes
            .enforcement_evidence
            .destructive_enforcement_rejection_reason()
            .is_some_and(|reason| reason.contains("syscall payload snapshot"))
    );
}

#[test]
fn payload_bridge_emits_inbound_bytes_for_tracked_read() {
    let mut watched = tracked_flow(7);
    let events = read_events(
        &mut watched,
        &read_observation(7, 5, b"HTTP/", false, false),
        timestamp(1),
    );

    let [CaptureEvent::Bytes(bytes)] = events.as_slice() else {
        panic!("expected a single bytes event: {events:?}");
    };
    assert_eq!(bytes.flow.id, flow("flow-7").id);
    assert_eq!(bytes.origin.source(), CaptureSource::EbpfSyscall);
    assert_eq!(bytes.origin.provider(), CaptureProviderKind::Ebpf);
    assert_eq!(bytes.direction, Direction::Inbound);
    assert_eq!(bytes.stream_offset, 0);
    assert_eq!(bytes.bytes.as_ref(), b"HTTP/");
    assert_eq!(bytes.attribution_confidence, 90);
    assert!(bytes.degraded);
    assert_inbound_result_reason(
        bytes
            .degradation_reason
            .as_deref()
            .expect("inbound eBPF bytes must include degradation reason"),
    );
    assert!(
        bytes
            .enforcement_evidence
            .destructive_enforcement_rejection_reason()
            .is_some_and(|reason| reason.contains("syscall payload snapshot"))
    );
}

#[test]
fn payload_bridge_keeps_independent_offsets_by_direction() {
    let mut watched = tracked_flow(7);
    let write = write_events(
        &mut watched,
        &write_observation(7, 5, b"GET /", false, false),
        timestamp(1),
    );
    let read = read_events(
        &mut watched,
        &read_observation(7, 5, b"HTTP/", false, false),
        timestamp(2),
    );

    let [CaptureEvent::Bytes(write)] = write.as_slice() else {
        panic!("expected outbound bytes: {write:?}");
    };
    let [CaptureEvent::Bytes(read)] = read.as_slice() else {
        panic!("expected inbound bytes: {read:?}");
    };
    assert_eq!(write.direction, Direction::Outbound);
    assert_eq!(write.stream_offset, 0);
    assert_eq!(read.direction, Direction::Inbound);
    assert_eq!(read.stream_offset, 0);
}

#[test]
fn payload_bridge_emits_gap_for_truncated_payload_suffix() {
    let mut watched = tracked_flow(7);
    let events = write_events(
        &mut watched,
        &write_observation(7, 10, b"GET /", true, false),
        timestamp(1),
    );

    let [CaptureEvent::Bytes(bytes), CaptureEvent::Gap(gap)] = events.as_slice() else {
        panic!("expected bytes plus gap: {events:?}");
    };
    assert_eq!(bytes.stream_offset, 0);
    assert_eq!(bytes.bytes.as_ref(), b"GET /");
    assert!(bytes.degraded);
    let degradation_reason = bytes
        .degradation_reason
        .as_deref()
        .expect("truncated bytes must include degradation reason");
    assert_outbound_argument_reason(degradation_reason);
    assert!(degradation_reason.contains("captured 5 of 10"));
    assert!(
        bytes
            .enforcement_evidence
            .destructive_enforcement_rejection_reason()
            .is_some_and(|reason| reason.contains("syscall payload snapshot"))
    );
    assert!(matches!(
        &bytes.enforcement_evidence,
        EnforcementEvidence::ObservationOnly {
            detail: Some(detail),
            ..
        } if detail.contains("captured 5 of 10")
    ));
    assert_eq!(gap.gap.direction, Direction::Outbound);
    assert_eq!(gap.gap.expected_offset, 5);
    assert_eq!(gap.gap.next_offset, Some(10));
    assert!(gap.gap.reason.contains("truncated payload"));
}

#[test]
fn payload_bridge_emits_gap_for_failed_payload_read() {
    let mut watched = tracked_flow(7);
    let events = write_events(
        &mut watched,
        &write_observation(7, 5, b"", false, true),
        timestamp(1),
    );

    let [CaptureEvent::Gap(gap)] = events.as_slice() else {
        panic!("expected a single gap event: {events:?}");
    };
    assert_eq!(gap.timestamp.monotonic_ns, 1);
    assert_eq!(gap.origin.source(), CaptureSource::EbpfSyscall);
    assert_eq!(gap.origin.provider(), CaptureProviderKind::Ebpf);
    assert_eq!(gap.gap.direction, Direction::Outbound);
    assert_eq!(gap.gap.expected_offset, 0);
    assert_eq!(gap.gap.next_offset, Some(5));
    assert!(gap.gap.reason.contains("could not read"));
}

#[test]
fn payload_bridge_emits_gap_for_truncated_empty_payload() {
    let mut watched = tracked_flow(7);
    let events = write_events(
        &mut watched,
        &write_observation(7, 5, b"", true, false),
        timestamp(1),
    );

    let [CaptureEvent::Gap(gap)] = events.as_slice() else {
        panic!("expected a single gap event: {events:?}");
    };
    assert_eq!(gap.gap.direction, Direction::Outbound);
    assert_eq!(gap.gap.expected_offset, 0);
    assert_eq!(gap.gap.next_offset, Some(5));
    assert!(gap.gap.reason.contains("truncated payload"));
}

#[test]
fn payload_bridge_ignores_untracked_payload() {
    let mut watched = TrackedEbpfFlows::bounded(8);
    let events = write_events(
        &mut watched,
        &write_observation(7, 5, b"GET /", false, false),
        timestamp(1),
    );

    assert!(events.is_empty());
}

#[test]
fn payload_bridge_ignores_payload_from_unallowed_direction() {
    let mut watched = tracked_flow_with_directions(
        7,
        PayloadDirections::from_directions(&vec![Direction::Outbound]),
    );
    let events = read_events(
        &mut watched,
        &read_observation(7, 5, b"HTTP/", false, false),
        timestamp(1),
    );

    assert!(events.is_empty());
}

fn tracked_flow(fd: i32) -> TrackedEbpfFlows {
    tracked_flow_with_directions(
        fd,
        PayloadDirections::from_directions(&vec![Direction::Outbound, Direction::Inbound]),
    )
}

fn tracked_flow_with_directions(
    fd: i32,
    payload_directions: PayloadDirections,
) -> TrackedEbpfFlows {
    let mut watched = TrackedEbpfFlows::bounded(8);
    let lease = DescriptorLease::new(100, fd, 1, 1).expect("valid descriptor lease");
    let displaced = watched.insert_flow(lease, flow(&format!("flow-{fd}")), payload_directions);
    assert!(displaced.is_none());
    watched
}

fn write_observation(
    fd: i32,
    original_len: u32,
    payload: &[u8],
    truncated: bool,
    read_failed: bool,
) -> EbpfSocketWriteObservation {
    EbpfSocketWriteObservation {
        process: observed_process(),
        fd,
        fd_generation: 1,
        original_len,
        buffer: payload.to_vec(),
        truncated,
        read_failed,
        kernel_transfer: false,
    }
}

fn read_observation(
    fd: i32,
    original_len: u32,
    payload: &[u8],
    truncated: bool,
    read_failed: bool,
) -> EbpfSocketReadObservation {
    EbpfSocketReadObservation {
        process: observed_process(),
        fd,
        fd_generation: 1,
        original_len,
        buffer: payload.to_vec(),
        truncated,
        read_failed,
    }
}

fn observed_process() -> EbpfObservedProcess {
    EbpfObservedProcess {
        pid: 101,
        tgid: 100,
        uid: 1000,
        gid: 1000,
        command: [0; 16],
    }
}

fn flow(id: &str) -> FlowContext {
    FlowContext {
        id: FlowIdentity(id.to_string()),
        process: ProcessContext {
            identity: ProcessIdentity {
                pid: 100,
                tgid: 100,
                start_time_ticks: 1234,
                boot_id: "boot".to_string(),
                exe_path: "/usr/bin/curl".to_string(),
                cmdline_hash: "cmd".to_string(),
                uid: 1000,
                gid: 1000,
                cgroup: None,
                systemd_service: None,
                container_id: None,
                runtime_hint: None,
            },
            name: "curl".to_string(),
            cmdline: vec!["curl".to_string()],
        },
        local: AddressPort {
            address: "127.0.0.1".to_string(),
            port: 50_000,
        },
        remote: AddressPort {
            address: "127.0.0.1".to_string(),
            port: 443,
        },
        protocol: TransportProtocol::Tcp,
        start_monotonic_ns: 1,
        socket_cookie: None,
        attribution_confidence: 90,
    }
}

fn timestamp(monotonic_ns: u64) -> Timestamp {
    Timestamp {
        monotonic_ns,
        wall_time_unix_ns: 0,
    }
}

fn assert_outbound_argument_reason(reason: &str) {
    assert!(reason.contains("outbound syscall sample"));
    assert!(reason.contains("before the kernel copies bytes"));
    assert!(reason.contains("best-effort"));
}

fn assert_inbound_result_reason(reason: &str) {
    assert!(reason.contains("inbound syscall sample"));
    assert!(reason.contains("after the kernel returns"));
    assert!(reason.contains("best-effort"));
}

#[test]
fn payload_samples_of_one_direction_make_one_stream() {
    let mut watched = tracked_flow(7);
    let mut covered = 0;
    for (original_len, payload, truncated, read_failed) in [
        (5, &b"GET /"[..], false, false),
        (10, &b"abc"[..], true, false),
        (4, &b""[..], false, true),
        (6, &b""[..], true, false),
        (2, &b""[..], false, false),
        (3, &b"xyz"[..], false, false),
    ] {
        let events = write_events(
            &mut watched,
            &write_observation(7, original_len, payload, truncated, read_failed),
            timestamp(1),
        );
        for event in events {
            match event {
                CaptureEvent::Bytes(bytes) => {
                    assert_eq!(bytes.stream_offset, covered);
                    covered += bytes.bytes.len() as u64;
                }
                CaptureEvent::Gap(gap) => {
                    assert_eq!(gap.gap.expected_offset, covered);
                    covered = gap.gap.next_offset.expect("known end");
                }
                event => panic!("unexpected event: {event:?}"),
            }
        }
    }

    assert_eq!(covered, 5 + 10 + 4 + 6 + 2 + 3);
}

#[test]
fn payload_without_octets_is_told_as_a_gap_of_its_length() {
    let mut watched = tracked_flow(7);
    let events = read_events(
        &mut watched,
        &read_observation(7, 9, b"", false, false),
        timestamp(1),
    );

    let [CaptureEvent::Gap(gap)] = events.as_slice() else {
        panic!("expected a single gap event: {events:?}");
    };
    assert_eq!(
        gap.gap.reason,
        "eBPF inbound syscall sample did not contain captured payload bytes"
    );
    assert_eq!((gap.gap.expected_offset, gap.gap.next_offset), (0, Some(9)));
    assert!(gap.enforcement_evidence_propagation.is_flow_carried());
}
