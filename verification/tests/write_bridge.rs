use capture::ebpf::descriptor_lease::DescriptorLease;
use capture::ebpf::payload_direction::PayloadDirections;
use capture::ebpf::tracked_flow::TrackedEbpfFlows;
use capture::ebpf::write_bridge::write_events;
use capture::{
    AddressPort, CaptureEvent, CaptureProviderKind, CaptureSource, Direction, EbpfObservedProcess,
    EbpfSocketWriteObservation, EnforcementEvidence, FlowContext, FlowIdentity, ProcessContext,
    ProcessIdentity, Timestamp, TransportProtocol,
};

#[test]
fn write_bridge_emits_bytes_for_tracked_payload() {
    let mut watched = tracked_flow(7);
    let events = write_events(
        &mut watched,
        &write_observation(7, 5, b"GET /", false, false),
        timestamp(1),
    );

    let [CaptureEvent::Bytes(bytes)] = events.as_slice() else {
        panic!("expected a single bytes event: {events:?}");
    };
    assert_eq!(bytes.flow.id, flow("flow-7").id);
    assert_eq!(bytes.origin.source(), CaptureSource::EbpfSyscall);
    assert_eq!(bytes.origin.provider(), CaptureProviderKind::Ebpf);
    assert_eq!(bytes.direction, Direction::Outbound);
    assert_eq!(bytes.stream_offset, 0);
    assert_eq!(bytes.bytes.as_ref(), b"GET /");
    assert_eq!(bytes.attribution_confidence, 90);
    assert!(bytes.degraded);
    assert!(
        bytes
            .degradation_reason
            .as_deref()
            .is_some_and(|reason| reason.contains("syscall argument snapshot"))
    );
    assert!(
        bytes
            .enforcement_evidence
            .destructive_enforcement_rejection_reason()
            .is_some_and(|reason| reason.contains("syscall argument snapshot"))
    );
}

#[test]
fn write_bridge_emits_gap_for_truncated_payload_suffix() {
    let mut watched = tracked_flow(7);
    let events = write_events(
        &mut watched,
        &write_observation(7, 10, b"GET /", true, false),
        timestamp(1),
    );

    let [CaptureEvent::Bytes(bytes), CaptureEvent::Gap(gap)] = events.as_slice() else {
        panic!("expected bytes plus gap: {events:?}");
    };
    assert_eq!(bytes.stream_offset, 0);
    assert_eq!(bytes.bytes.as_ref(), b"GET /");
    assert!(bytes.degraded);
    assert!(
        bytes
            .degradation_reason
            .as_deref()
            .is_some_and(|reason| reason.contains("captured 5 of 10"))
    );
    assert!(
        bytes
            .enforcement_evidence
            .destructive_enforcement_rejection_reason()
            .is_some_and(|reason| reason.contains("syscall argument snapshot"))
    );
    assert!(matches!(
        &bytes.enforcement_evidence,
        EnforcementEvidence::ObservationOnly {
            detail: Some(detail),
            ..
        } if detail.contains("captured 5 of 10")
    ));
    assert_eq!(gap.gap.direction, Direction::Outbound);
    assert_eq!(gap.gap.expected_offset, 5);
    assert_eq!(gap.gap.next_offset, Some(10));
    assert!(gap.gap.reason.contains("truncated payload"));
}

#[test]
fn write_bridge_emits_gap_for_failed_payload_read() {
    let mut watched = tracked_flow(7);
    let events = write_events(
        &mut watched,
        &write_observation(7, 5, b"", false, true),
        timestamp(1),
    );

    let [CaptureEvent::Gap(gap)] = events.as_slice() else {
        panic!("expected a single gap event: {events:?}");
    };
    assert_eq!(gap.timestamp.monotonic_ns, 1);
    assert_eq!(gap.origin.source(), CaptureSource::EbpfSyscall);
    assert_eq!(gap.origin.provider(), CaptureProviderKind::Ebpf);
    assert_eq!(gap.gap.direction, Direction::Outbound);
    assert_eq!(gap.gap.expected_offset, 0);
    assert_eq!(gap.gap.next_offset, Some(5));
    assert!(gap.gap.reason.contains("could not read"));
}

#[test]
fn write_bridge_emits_gap_for_truncated_empty_payload() {
    let mut watched = tracked_flow(7);
    let events = write_events(
        &mut watched,
        &write_observation(7, 5, b"", true, false),
        timestamp(1),
    );

    let [CaptureEvent::Gap(gap)] = events.as_slice() else {
        panic!("expected a single gap event: {events:?}");
    };
    assert_eq!(gap.gap.direction, Direction::Outbound);
    assert_eq!(gap.gap.expected_offset, 0);
    assert_eq!(gap.gap.next_offset, Some(5));
    assert!(gap.gap.reason.contains("truncated payload"));
}

#[test]
fn write_bridge_ignores_untracked_write() {
    let mut watched = TrackedEbpfFlows::bounded(8);
    let events = write_events(
        &mut watched,
        &write_observation(7, 5, b"GET /", false, false),
        timestamp(1),
    );

    assert!(events.is_empty());
}

fn tracked_flow(fd: i32) -> TrackedEbpfFlows {
    let mut watched = TrackedEbpfFlows::bounded(8);
    let lease = DescriptorLease::new(100, fd, 1, 1).expect("valid descriptor lease");
    let directions = PayloadDirections::from_directions(&vec![Direction::Outbound]);
    let displaced = watched.insert_flow(lease, flow(&format!("flow-{fd}")), directions);
    assert!(displaced.is_none());
    watched
}

fn write_observation(
    fd: i32,
    original_len: u32,
    payload: &[u8],
    truncated: bool,
    read_failed: bool,
) -> EbpfSocketWriteObservation {
    EbpfSocketWriteObservation {
        process: observed_process(),
        fd,
        fd_generation: 1,
        original_len,
        buffer: payload.to_vec(),
        truncated,
        read_failed,
        kernel_transfer: false,
    }
}

fn observed_process() -> EbpfObservedProcess {
    EbpfObservedProcess {
        pid: 101,
        tgid: 100,
        uid: 1000,
        gid: 1000,
        command: [0; 16],
    }
}

fn flow(id: &str) -> FlowContext {
    FlowContext {
        id: FlowIdentity(id.to_string()),
        process: ProcessContext {
            identity: ProcessIdentity {
                pid: 100,
                tgid: 100,
                start_time_ticks: 1234,
                boot_id: "boot".to_string(),
                exe_path: "/usr/bin/curl".to_string(),
                cmdline_hash: "cmd".to_string(),
                uid: 1000,
                gid: 1000,
                cgroup: None,
                systemd_service: None,
                container_id: None,
                runtime_hint: None,
            },
            name: "curl".to_string(),
            cmdline: vec!["curl".to_string()],
        },
        local: AddressPort {
            address: "127.0.0.1".to_string(),
            port: 50_000,
        },
        remote: AddressPort {
            address: "127.0.0.1".to_string(),
            port: 443,
        },
        protocol: TransportProtocol::Tcp,
        start_monotonic_ns: 1,
        socket_cookie: None,
        attribution_confidence: 90,
    }
}

fn timestamp(monotonic_ns: u64) -> Timestamp {
    Timestamp {
        monotonic_ns,
        wall_time_unix_ns: 0,
    }
}
