use capture::ebpf::probe_event::{
    process_observation_from_event, socket_flow_endpoint_from_flags, EbpfAcceptObservation,
    EbpfCloseObservation, EbpfCloseRangeObservation, EbpfConnectObservation,
    EbpfProcessProbeEvent, EbpfProcessProbeEventBody, EbpfSocketSample, EBPF_ADDRESS_FAMILY_INET,
    EBPF_ADDRESS_FAMILY_INET6, EBPF_SOCKET_FLOW_REMOTE_ENDPOINT_VALID,
    EBPF_SOCKET_FLOW_SOCKADDR_READ_FAILED, EBPF_SOCKET_FLOW_UNSUPPORTED_ADDRESS_FAMILY,
    EBPF_SOCKET_READ_TRUNCATED, EBPF_SOCKET_WRITE_KERNEL_TRANSFER, EBPF_SOCKET_WRITE_TRUNCATED,
};
use capture::ebpf::tracepoints::{
    optional_tracepoint_pair_state, process_optional_tracepoint_pair_specs,
    process_tracepoint_specs, EbpfProcessTracepointRole,
};
use capture::{
    EbpfProcessLifecycleKind, EbpfProcessObservation, EbpfProcessObservationLinkOwnershipSnapshot,
    EbpfProcessObservationOptionalTracepointPairSnapshot,
    EbpfProcessObservationOptionalTracepointPairState, EbpfProcessObservationProbeSnapshot,
    EbpfProcessObservationProgramLinkOwnershipSnapshot, EbpfSocketEndpoint, IpAddress,
    TcpEndpoint,
};

const SAMPLE_BYTES: usize = 256;

#[test]
fn process_observation_decodes_valid_wire_event() {
    let event = connect_tracepoint_observed(
        11,
        22,
        33,
        44,
        nul_padded_command("curl"),
        EbpfConnectObservation {
            fd_table_epoch: 9,
            fd_generation: 10,
            ..connect_remote_endpoint(
            7,
            16,
            EBPF_ADDRESS_FAMILY_INET,
            443,
            [127, 0, 0, 1, 0, 0, 0, 0, 0, 0, 0, 0, 0, 0, 0, 0],
            )
        },
        EBPF_SOCKET_FLOW_REMOTE_ENDPOINT_VALID,
    );

    let observation = process_observation_from_event(event);
    match observation {
        EbpfProcessObservation::Connect(connect) => {
            assert_eq!(connect.process.pid, 11);
            assert_eq!(connect.process.tgid, 22);
            assert_eq!(connect.process.uid, 33);
            assert_eq!(connect.process.gid, 44);
            assert_eq!(connect.process.command_lossy(), "curl");
            assert_eq!(connect.fd, 7);
            assert_eq!(connect.addrlen, 16);
            assert_eq!(connect.fd_table_epoch, 9);
            assert_eq!(connect.fd_generation, 10);
            assert_eq!(
                connect.endpoint,
                EbpfSocketEndpoint::Remote(TcpEndpoint::new(
                    IpAddress::v4([127, 0, 0, 1]),
                    443
                ))
            );
        }
        observation => panic!("unexpected observation: {observation:?}"),
    }
}

#[test]
fn process_observation_decodes_valid_accept_wire_event() {
    let event = accept_tracepoint_observed(
        11,
        22,
        33,
        44,
        nul_padded_command("server"),
        EbpfAcceptObservation {
            fd_table_epoch: 12,
            fd_generation: 10,
            ..accept_remote_endpoint(
            9,
            3,
            16,
            EBPF_ADDRESS_FAMILY_INET,
            50_000,
            [127, 0, 0, 1, 0, 0, 0, 0, 0, 0, 0, 0, 0, 0, 0, 0],
            )
        },
        EBPF_SOCKET_FLOW_REMOTE_ENDPOINT_VALID,
    );

    let observation = process_observation_from_event(event);
    match observation {
        EbpfProcessObservation::Accept(accept) => {
            assert_eq!(accept.process.pid, 11);
            assert_eq!(accept.process.tgid, 22);
            assert_eq!(accept.process.command_lossy(), "server");
            assert_eq!(accept.fd, 9);
            assert_eq!(accept.listen_fd, 3);
            assert_eq!(accept.addrlen, 16);
            assert_eq!(accept.fd_table_epoch, 12);
            assert_eq!(accept.fd_generation, 10);
            assert_eq!(
                accept.endpoint,
                EbpfSocketEndpoint::Remote(TcpEndpoint::new(
                    IpAddress::v4([127, 0, 0, 1]),
                    50_000
                ))
            );
        }
        observation => panic!("unexpected observation: {observation:?}"),
    }
}

#[test]
fn process_observation_decodes_valid_close_wire_event() {
    let event = close_tracepoint_observed(
        11,
        22,
        33,
        44,
        nul_padded_command("curl"),
        EbpfCloseObservation {
            fd: 7,
            fd_generation: 10,
        },
    );

    let observation = process_observation_from_event(event);
    match observation {
        EbpfProcessObservation::Close(close) => {
            assert_eq!(close.process.pid, 11);
            assert_eq!(close.process.tgid, 22);
            assert_eq!(close.process.uid, 33);
            assert_eq!(close.process.gid, 44);
            assert_eq!(close.process.command_lossy(), "curl");
            assert_eq!(close.fd, 7);
            assert_eq!(close.fd_generation, 10);
        }
        observation => panic!("unexpected observation: {observation:?}"),
    }
}

#[test]
fn process_observation_decodes_valid_close_range_wire_event() {
    let event = close_range_tracepoint_observed(
        11,
        22,
        33,
        44,
        nul_padded_command("curl"),
        EbpfCloseRangeObservation {
            first_fd: 7,
            last_fd: 11,
        },
    );

    let observation = process_observation_from_event(event);
    match observation {
        EbpfProcessObservation::CloseRange(close_range) => {
            assert_eq!(close_range.process.pid, 11);
            assert_eq!(close_range.process.tgid, 22);
            assert_eq!(close_range.process.uid, 33);
            assert_eq!(close_range.process.gid, 44);
            assert_eq!(close_range.process.command_lossy(), "curl");
            assert_eq!(close_range.first_fd, 7);
            assert_eq!(close_range.last_fd, 11);
        }
        observation => panic!("unexpected observation: {observation:?}"),
    }
}

#[test]
fn process_observation_decodes_process_exit_wire_event() {
    let event = process_exit_observed(
        11,
        22,
        33,
        44,
        nul_padded_command("curl"),
    );

    let observation = process_observation_from_event(event);
    match observation {
        EbpfProcessObservation::ProcessLifecycle(lifecycle) => {
            assert_eq!(lifecycle.process.pid, 11);
            assert_eq!(lifecycle.process.tgid, 22);
            assert_eq!(lifecycle.process.uid, 33);
            assert_eq!(lifecycle.process.gid, 44);
            assert_eq!(lifecycle.process.command_lossy(), "curl");
            assert_eq!(lifecycle.kind, EbpfProcessLifecycleKind::Exit);
        }
        observation => panic!("unexpected observation: {observation:?}"),
    }
}

#[test]
fn process_observation_decodes_process_exec_wire_event() {
    let event = process_exec_observed(
        11,
        22,
        33,
        44,
        nul_padded_command("curl"),
    );

    let observation = process_observation_from_event(event);
    match observation {
        EbpfProcessObservation::ProcessLifecycle(lifecycle) => {
            assert_eq!(lifecycle.process.pid, 11);
            assert_eq!(lifecycle.process.tgid, 22);
            assert_eq!(lifecycle.process.uid, 33);
            assert_eq!(lifecycle.process.gid, 44);
            assert_eq!(lifecycle.process.command_lossy(), "curl");
            assert_eq!(lifecycle.kind, EbpfProcessLifecycleKind::Exec);
        }
        observation => panic!("unexpected observation: {observation:?}"),
    }
}

#[test]
fn process_observation_decodes_socket_write_sample() {
    let mut buffer = [0; SAMPLE_BYTES];
    buffer[..5].copy_from_slice(b"GET /");
    let event = socket_write_sampled(
        11,
        22,
        33,
        44,
        nul_padded_command("curl"),
        sample(7, 10, 10, 5, buffer),
        EBPF_SOCKET_WRITE_TRUNCATED,
    );

    let observation = process_observation_from_event(event);
    match observation {
        EbpfProcessObservation::Write(write) => {
            assert_eq!(write.process.pid, 11);
            assert_eq!(write.process.tgid, 22);
            assert_eq!(write.process.uid, 33);
            assert_eq!(write.process.gid, 44);
            assert_eq!(write.process.command_lossy(), "curl");
            assert_eq!(write.fd, 7);
            assert_eq!(write.fd_generation, 10);
            assert_eq!(write.original_len, 10);
            assert_eq!(write.buffer, b"GET /");
            assert!(write.truncated);
            assert!(!write.read_failed);
            assert!(!write.kernel_transfer);
        }
        observation => panic!("unexpected observation: {observation:?}"),
    }
}

#[test]
fn process_observation_decodes_socket_read_sample() {
    let mut buffer = [0; SAMPLE_BYTES];
    buffer[..5].copy_from_slice(b"HTTP/");
    let event = socket_read_sampled(
        11,
        22,
        33,
        44,
        nul_padded_command("curl"),
        sample(7, 10, 10, 5, buffer),
        EBPF_SOCKET_READ_TRUNCATED,
    );

    let observation = process_observation_from_event(event);
    match observation {
        EbpfProcessObservation::Read(read) => {
            assert_eq!(read.process.pid, 11);
            assert_eq!(read.process.tgid, 22);
            assert_eq!(read.process.uid, 33);
            assert_eq!(read.process.gid, 44);
            assert_eq!(read.process.command_lossy(), "curl");
            assert_eq!(read.fd, 7);
            assert_eq!(read.fd_generation, 10);
            assert_eq!(read.original_len, 10);
            assert_eq!(read.buffer, b"HTTP/");
            assert!(read.truncated);
            assert!(!read.read_failed);
        }
        observation => panic!("unexpected observation: {observation:?}"),
    }
}

#[test]
fn process_observation_decodes_empty_truncated_socket_write_sample() {
    let event = socket_write_sampled(
        11,
        22,
        33,
        44,
        nul_padded_command("curl"),
        sample(7, 10, 10, 0, [0; SAMPLE_BYTES]),
        EBPF_SOCKET_WRITE_TRUNCATED,
    );

    let observation = process_observation_from_event(event);
    match observation {
        EbpfProcessObservation::Write(write) => {
            assert_eq!(write.fd, 7);
            assert_eq!(write.fd_generation, 10);
            assert_eq!(write.original_len, 10);
            assert!(write.buffer.is_empty());
            assert!(write.truncated);
            assert!(!write.read_failed);
            assert!(!write.kernel_transfer);
        }
        observation => panic!("unexpected observation: {observation:?}"),
    }
}

#[test]
fn process_observation_decodes_kernel_transfer_socket_write_gap() {
    let event = socket_write_sampled(
        11,
        22,
        33,
        44,
        nul_padded_command("curl"),
        sample(7, 10, 10, 0, [0; SAMPLE_BYTES]),
        EBPF_SOCKET_WRITE_KERNEL_TRANSFER,
    );

    let observation = process_observation_from_event(event);
    match observation {
        EbpfProcessObservation::Write(write) => {
            assert_eq!(write.fd, 7);
            assert_eq!(write.fd_generation, 10);
            assert_eq!(write.original_len, 10);
            assert!(write.buffer.is_empty());
            assert!(!write.truncated);
            assert!(!write.read_failed);
            assert!(write.kernel_transfer);
        }
        observation => panic!("unexpected observation: {observation:?}"),
    }
}

#[test]
fn process_observation_normalizes_ipv4_mapped_ipv6_remote_endpoint() {
    let event = connect_tracepoint_observed(
        11,
        22,
        33,
        44,
        nul_padded_command("curl"),
        connect_remote_endpoint(
            7,
            28,
            EBPF_ADDRESS_FAMILY_INET6,
            443,
            [0, 0, 0, 0, 0, 0, 0, 0, 0, 0, 0xff, 0xff, 127, 0, 0, 1],
        ),
        EBPF_SOCKET_FLOW_REMOTE_ENDPOINT_VALID,
    );

    let observation = process_observation_from_event(event);
    match observation {
        EbpfProcessObservation::Connect(connect) => {
            assert_eq!(
                connect.endpoint,
                EbpfSocketEndpoint::Remote(TcpEndpoint::new(
                    IpAddress::v4([127, 0, 0, 1]),
                    443
                ))
            );
        }
        observation => panic!("unexpected observation: {observation:?}"),
    }
}

#[test]
fn process_observation_marks_unavailable_remote_endpoint() {
    let event = connect_tracepoint_observed(
        11,
        22,
        33,
        44,
        nul_padded_command("curl"),
        connect_remote_endpoint(7, 0, 0, 0, [0; 16]),
        EBPF_SOCKET_FLOW_SOCKADDR_READ_FAILED,
    );

    let observation = process_observation_from_event(event);

    match observation {
        EbpfProcessObservation::Connect(connect) => {
            assert_eq!(connect.endpoint, EbpfSocketEndpoint::SockaddrReadFailed);
        }
        observation => panic!("unexpected observation: {observation:?}"),
    }
}

#[test]
fn link_ownership_snapshot_reports_committed_tracepoint_links() {
    let specs = process_tracepoint_specs();
    let ownership = EbpfProcessObservationLinkOwnershipSnapshot::from_attached_tracepoints(
        process_tracepoint_specs(),
    );

    assert!(ownership.is_reported());
    assert_eq!(
        ownership.owned_link_count(),
        specs.len()
    );
    let programs = ownership.into_programs();
    assert_eq!(programs.len(), specs.len());
    assert_eq!(
        programs
            .iter()
            .map(|program| (
                program.program_name(),
                program.category(),
                program.tracepoint_name(),
                program.owned_link_count()
            ))
            .collect::<Vec<_>>(),
        specs
            .iter()
            .map(|spec| (spec.program_name, spec.category, spec.tracepoint_name, 1))
            .collect::<Vec<_>>()
    );
}

fn nul_padded_command(command: &str) -> [u8; 16] {
    let mut bytes = [0; 16];
    for (target, source) in bytes.iter_mut().zip(command.as_bytes()) {
        *target = *source;
    }
    bytes
}

#[test]
fn endpoint_is_told_by_the_flags() {
    let address = [127, 0, 0, 1, 0, 0, 0, 0, 0, 0, 0, 0, 0, 0, 0, 0];

    assert_eq!(
        socket_flow_endpoint_from_flags(
            EBPF_SOCKET_FLOW_REMOTE_ENDPOINT_VALID,
            7,
            443,
            &address
        ),
        EbpfSocketEndpoint::UnsupportedAddressFamily { value: 7 }
    );
    assert_eq!(
        socket_flow_endpoint_from_flags(
            EBPF_SOCKET_FLOW_UNSUPPORTED_ADDRESS_FAMILY,
            1,
            0,
            &address
        ),
        EbpfSocketEndpoint::UnsupportedAddressFamily { value: 1 }
    );
    assert_eq!(
        socket_flow_endpoint_from_flags(0, EBPF_ADDRESS_FAMILY_INET, 443, &address),
        EbpfSocketEndpoint::Missing
    );
    let ipv6 = [0x20, 0x01, 0x0d, 0xb8, 0, 0, 0, 0, 0, 0, 0, 0, 0, 0, 0, 1];
    assert_eq!(
        socket_flow_endpoint_from_flags(
            EBPF_SOCKET_FLOW_REMOTE_ENDPOINT_VALID,
            EBPF_ADDRESS_FAMILY_INET6,
            443,
            &ipv6
        )
        .remote_endpoint(),
        Some(TcpEndpoint::new(IpAddress::v6(ipv6), 443))
    );
}

#[test]
fn link_ownership_leaves_programs_without_links_out() {
    let ownership = EbpfProcessObservationLinkOwnershipSnapshot::owned_by_programs(vec![
        EbpfProcessObservationProgramLinkOwnershipSnapshot::new("a", "syscalls", "x", 2),
        EbpfProcessObservationProgramLinkOwnershipSnapshot::new("b", "syscalls", "y", 0),
        EbpfProcessObservationProgramLinkOwnershipSnapshot::new("c", "sched", "z", 1),
    ]);

    assert!(ownership.is_reported());
    assert_eq!(ownership.owned_link_count(), 3);
    let names = ownership
        .into_programs()
        .iter()
        .map(|program| program.program_name())
        .collect::<Vec<_>>();
    assert_eq!(names, vec!["a", "c"]);
    assert!(!EbpfProcessObservationLinkOwnershipSnapshot::unreported().is_reported());
}

#[test]
fn optional_pair_is_attached_whole_or_not_at_all() {
    let pair = process_optional_tracepoint_pair_specs()[0];

    assert_eq!(
        optional_tracepoint_pair_state(&pair, true, true),
        Ok(EbpfProcessObservationOptionalTracepointPairState::Attached)
    );
    assert_eq!(
        optional_tracepoint_pair_state(&pair, false, false),
        Ok(EbpfProcessObservationOptionalTracepointPairState::KernelMissing)
    );
    let incomplete = optional_tracepoint_pair_state(&pair, true, false)
        .expect_err("one tracepoint alone");
    assert_eq!(incomplete.present, *pair.enter_spec());
    assert_eq!(incomplete.missing, *pair.exit_spec());
    let incomplete = optional_tracepoint_pair_state(&pair, false, true)
        .expect_err("one tracepoint alone");
    assert_eq!(incomplete.present, *pair.exit_spec());
    assert_eq!(incomplete.missing, *pair.enter_spec());
}

#[test]
fn probe_snapshot_keeps_links_and_pairs() {
    let pair = process_optional_tracepoint_pair_specs()[0];
    let snapshot =
        EbpfProcessObservationProbeSnapshot::from_attached_tracepoints_and_optional_pairs(
            vec![EbpfProcessTracepointRole::ConnectEnter.spec_of()],
            vec![
                EbpfProcessObservationOptionalTracepointPairSnapshot::attached(pair),
                EbpfProcessObservationOptionalTracepointPairSnapshot::kernel_missing(pair),
            ],
        );

    assert_eq!(snapshot.link_ownership().owned_link_count(), 1);
    let pairs = snapshot.optional_tracepoint_pairs();
    assert_eq!(pairs[0].family_name(), "sendfile");
    assert_eq!(pairs[0].enter_category(), "syscalls");
    assert_eq!(pairs[0].enter_tracepoint_name(), "sys_enter_sendfile64");
    assert_eq!(pairs[0].exit_category(), "syscalls");
    assert_eq!(pairs[0].exit_tracepoint_name(), "sys_exit_sendfile64");
    assert_eq!(
        pairs[0].state(),
        EbpfProcessObservationOptionalTracepointPairState::Attached
    );
    assert_eq!(
        pairs[1].state(),
        EbpfProcessObservationOptionalTracepointPairState::KernelMissing
    );
    let copy = snapshot.clone();
    assert_eq!(copy, snapshot);
    let (links, pairs) = snapshot.into_parts();
    assert_eq!(links.into_programs().len(), 1);
    assert_eq!(pairs.len(), 2);
}

fn event(
    (pid, tgid, uid, gid): (u32, u32, u32, u32),
    command: [u8; 16],
    body: EbpfProcessProbeEventBody,
    flags: u16,
) -> EbpfProcessProbeEvent {
    EbpfProcessProbeEvent {
        pid,
        tgid,
        uid,
        gid,
        command,
        flags,
        body,
    }
}

fn connect_tracepoint_observed(
    pid: u32,
    tgid: u32,
    uid: u32,
    gid: u32,
    command: [u8; 16],
    connect: EbpfConnectObservation,
    flags: u16,
) -> EbpfProcessProbeEvent {
    let body = EbpfProcessProbeEventBody::ConnectTracepointObserved(connect);
    event((pid, tgid, uid, gid), command, body, flags)
}

fn accept_tracepoint_observed(
    pid: u32,
    tgid: u32,
    uid: u32,
    gid: u32,
    command: [u8; 16],
    accept: EbpfAcceptObservation,
    flags: u16,
) -> EbpfProcessProbeEvent {
    let body = EbpfProcessProbeEventBody::AcceptTracepointObserved(accept);
    event((pid, tgid, uid, gid), command, body, flags)
}

fn close_tracepoint_observed(
    pid: u32,
    tgid: u32,
    uid: u32,
    gid: u32,
    command: [u8; 16],
    close: EbpfCloseObservation,
) -> EbpfProcessProbeEvent {
    let body = EbpfProcessProbeEventBody::CloseTracepointObserved(close);
    event((pid, tgid, uid, gid), command, body, 0)
}

fn close_range_tracepoint_observed(
    pid: u32,
    tgid: u32,
    uid: u32,
    gid: u32,
    command: [u8; 16],
    close_range: EbpfCloseRangeObservation,
) -> EbpfProcessProbeEvent {
    let body = EbpfProcessProbeEventBody::CloseRangeTracepointObserved(close_range);
    event((pid, tgid, uid, gid), command, body, 0)
}

fn process_exit_observed(
    pid: u32,
    tgid: u32,
    uid: u32,
    gid: u32,
    command: [u8; 16],
) -> EbpfProcessProbeEvent {
    let body = EbpfProcessProbeEventBody::ProcessExitObserved;
    event((pid, tgid, uid, gid), command, body, 0)
}

fn process_exec_observed(
    pid: u32,
    tgid: u32,
    uid: u32,
    gid: u32,
    command: [u8; 16],
) -> EbpfProcessProbeEvent {
    let body = EbpfProcessProbeEventBody::ProcessExecObserved;
    event((pid, tgid, uid, gid), command, body, 0)
}

fn socket_write_sampled(
    pid: u32,
    tgid: u32,
    uid: u32,
    gid: u32,
    command: [u8; 16],
    sample: EbpfSocketSample,
    flags: u16,
) -> EbpfProcessProbeEvent {
    let body = EbpfProcessProbeEventBody::SocketWriteSampled(sample);
    event((pid, tgid, uid, gid), command, body, flags)
}

fn socket_read_sampled(
    pid: u32,
    tgid: u32,
    uid: u32,
    gid: u32,
    command: [u8; 16],
    sample: EbpfSocketSample,
    flags: u16,
) -> EbpfProcessProbeEvent {
    let body = EbpfProcessProbeEventBody::SocketReadSampled(sample);
    event((pid, tgid, uid, gid), command, body, flags)
}

fn connect_remote_endpoint(
    fd: i32,
    addrlen: u32,
    address_family: u16,
    remote_port: u16,
    remote_address: [u8; 16],
) -> EbpfConnectObservation {
    EbpfConnectObservation {
        fd,
        addrlen,
        fd_table_epoch: 0,
        fd_generation: 0,
        address_family,
        remote_port,
        remote_address,
    }
}

fn accept_remote_endpoint(
    fd: i32,
    listen_fd: i32,
    addrlen: u32,
    address_family: u16,
    remote_port: u16,
    remote_address: [u8; 16],
) -> EbpfAcceptObservation {
    EbpfAcceptObservation {
        fd,
        listen_fd,
        addrlen,
        fd_table_epoch: 0,
        fd_generation: 0,
        address_family,
        remote_port,
        remote_address,
    }
}

fn sample(
    fd: i32,
    fd_generation: u64,
    original_len: u32,
    captured_len: u16,
    buffer: [u8; SAMPLE_BYTES],
) -> EbpfSocketSample {
    EbpfSocketSample {
        fd,
        fd_generation,
        original_len,
        captured_len,
        buffer: buffer.to_vec(),
    }
}
