use capture::ebpf::ledger::ResolverLedger;
use capture::ebpf::bridge::{
    output_loss_event, pending_payload_queue_loss_event, process_context_from_observed,
    unresolved_accept_gap_from_observation, unresolved_connect_gap_from_observation,
};
use capture::ebpf::resolution::{
    accept_opened_event_from_observation, connect_opened_event_from_observation,
    observed_accept_opened_event_from_observation, observed_connect_opened_event_from_observation,
    resolve_flow_start_process, resolve_observed_process,
};
use capture::{
    CaptureError, CaptureEvent, CaptureProviderKind, CaptureSource, Direction,
    EbpfAcceptTracepointObservation, EbpfConnectTracepointObservation, EbpfListenSocketLookup,
    EbpfObservedProcess, EbpfProcessHint, EbpfResolvedListenSocket, EbpfResolvedSocketFlow,
    EbpfSocketEndpoint, EbpfSocketFlowLookup, EbpfSocketFlowResolver, EnforcementEvidence,
    IpAddress, ObservationOnlyReason, ProcessContext, ProcessIdentity, TcpConnection, TcpEndpoint,
    Timestamp,
};

#[test]
fn connect_observation_builds_connection_opened_event_from_fd_resolution() -> Result<(), CaptureError> {
    let expected_remote = TcpEndpoint::new(IpAddress::v4([127, 0, 0, 1]), 443);
    let observation = EbpfConnectTracepointObservation {
        process: EbpfObservedProcess {
            pid: 101,
            tgid: 100,
            uid: 1000,
            gid: 1000,
            command: nul_padded_command("curl"),
        },
        fd: 7,
        addrlen: 16,
        fd_table_epoch: 0,
        fd_generation: 10,
        endpoint: EbpfSocketEndpoint::Remote(expected_remote),
    };
    let mut resolver = ResolverLedger::new(ExpectedSocketResolver {
        expected: EbpfSocketFlowLookup {
            tgid: 100,
            thread_pid: 101,
            fd: 7,
            expected_remote_endpoint: Some(expected_remote),
            process_hint: Some(EbpfProcessHint {
                name: String::from("curl"),
                uid: 1000,
                gid: 1000,
            }),
        },
        seen: false,
        resolved: Some(EbpfResolvedSocketFlow {
            process: demo_process(),
            confidence: 80,
            connection: TcpConnection::new(
                TcpEndpoint::new(IpAddress::v4([127, 0, 0, 1]), 50_000),
                expected_remote,
            ),
            socket_cookie: Some(99),
        }),
    });

    let event = connect_opened_event_from_observation(
        &observation,
        Timestamp {
            monotonic_ns: 42,
            wall_time_unix_ns: 99,
        },
        &mut resolver,
    )?
    .expect("expected connection opened event");

    assert!(resolver.resolver().seen);
    match event {
        CaptureEvent::ConnectionOpened {
            timestamp,
            flow,
            origin,
        } => {
            assert_eq!(timestamp.monotonic_ns, 42);
            assert_eq!(origin.source(), CaptureSource::EbpfSyscall);
            assert_eq!(origin.provider(), CaptureProviderKind::Ebpf);
            assert_eq!(flow.process.identity.pid, 100);
            assert_eq!(flow.local.port, 50_000);
            assert_eq!(flow.remote.port, 443);
            assert_eq!(flow.socket_cookie, Some(99));
            assert_eq!(flow.attribution_confidence, 80);
        }
        event => panic!("unexpected event: {event:?}"),
    }
    Ok(())
}

#[test]
fn connect_observation_without_fd_resolution_yields_no_event() -> Result<(), CaptureError> {
    let observation = EbpfConnectTracepointObservation {
        process: EbpfObservedProcess {
            pid: 101,
            tgid: 100,
            uid: 1000,
            gid: 1000,
            command: [0; 16],
        },
        fd: 7,
        addrlen: 0,
        fd_table_epoch: 0,
        fd_generation: 10,
        endpoint: EbpfSocketEndpoint::SockaddrReadFailed,
    };
    let mut resolver = ResolverLedger::new(ExpectedSocketResolver {
        expected: EbpfSocketFlowLookup {
            tgid: 100,
            thread_pid: 101,
            fd: 7,
            expected_remote_endpoint: None,
            process_hint: None,
        },
        seen: false,
        resolved: None,
    });

    let event = connect_opened_event_from_observation(
        &observation,
        Timestamp {
            monotonic_ns: 42,
            wall_time_unix_ns: 99,
        },
        &mut resolver,
    )?;

    assert!(event.is_none());
    assert!(resolver.resolver().seen);
    Ok(())
}

#[test]
fn accept_observation_builds_connection_opened_event_from_accepted_fd_resolution() -> Result<(), CaptureError> {
    let remote = TcpEndpoint::new(IpAddress::v4([127, 0, 0, 1]), 50_000);
    let local = TcpEndpoint::new(IpAddress::v4([127, 0, 0, 1]), 443);
    let observation = EbpfAcceptTracepointObservation {
        process: EbpfObservedProcess {
            pid: 101,
            tgid: 100,
            uid: 1000,
            gid: 1000,
            command: nul_padded_command("server"),
        },
        fd: 9,
        listen_fd: 3,
        addrlen: 16,
        fd_table_epoch: 11,
        fd_generation: 10,
        endpoint: EbpfSocketEndpoint::Remote(remote),
    };
    let mut resolver = ResolverLedger::new(ExpectedSocketResolver {
        expected: EbpfSocketFlowLookup {
            tgid: 100,
            thread_pid: 101,
            fd: 9,
            expected_remote_endpoint: Some(remote),
            process_hint: Some(EbpfProcessHint {
                name: String::from("server"),
                uid: 1000,
                gid: 1000,
            }),
        },
        seen: false,
        resolved: Some(EbpfResolvedSocketFlow {
            process: demo_process(),
            confidence: 80,
            connection: TcpConnection::new(local, remote),
            socket_cookie: Some(123),
        }),
    });

    let event = accept_opened_event_from_observation(
        &observation,
        Timestamp {
            monotonic_ns: 42,
            wall_time_unix_ns: 99,
        },
        &mut resolver,
    )?
    .expect("expected connection opened event");

    assert!(resolver.resolver().seen);
    match event {
        CaptureEvent::ConnectionOpened { flow, .. } => {
            assert_eq!(flow.local.port, 443);
            assert_eq!(flow.remote.port, 50_000);
            assert_eq!(flow.socket_cookie, Some(123));
            assert_eq!(flow.attribution_confidence, 80);
        }
        event => panic!("unexpected event: {event:?}"),
    }
    Ok(())
}

#[test]
fn accept_observation_fallback_uses_listen_fd_local_endpoint() -> Result<(), CaptureError> {
    let remote = TcpEndpoint::new(IpAddress::v4([127, 0, 0, 1]), 50_000);
    let local = TcpEndpoint::new(IpAddress::v4([127, 0, 0, 1]), 443);
    let observation = EbpfAcceptTracepointObservation {
        process: EbpfObservedProcess {
            pid: 101,
            tgid: 100,
            uid: 1000,
            gid: 1000,
            command: nul_padded_command("server"),
        },
        fd: 9,
        listen_fd: 3,
        addrlen: 16,
        fd_table_epoch: 11,
        fd_generation: 10,
        endpoint: EbpfSocketEndpoint::Remote(remote),
    };
    let mut resolver = ResolverLedger::new(ListenSocketResolver {
        expected: EbpfListenSocketLookup {
            tgid: 100,
            thread_pid: 101,
            fd: 3,
            process_hint: Some(EbpfProcessHint {
                name: String::from("server"),
                uid: 1000,
                gid: 1000,
            }),
        },
        seen: false,
        resolved: Some(EbpfResolvedListenSocket {
            process: demo_process(),
            confidence: 80,
            local,
        }),
    });

    let event = observed_accept_opened_event_from_observation(
        &observation,
        Timestamp {
            monotonic_ns: 42,
            wall_time_unix_ns: 99,
        },
        &mut resolver,
    )?
    .expect("expected fallback connection opened event");

    assert!(resolver.resolver().seen);
    match event {
        CaptureEvent::ConnectionOpened { flow, .. } => {
            assert_eq!(flow.local.port, 443);
            assert_eq!(flow.remote.port, 50_000);
            assert_eq!(flow.socket_cookie, None);
            assert_eq!(flow.attribution_confidence, 80);
        }
        event => panic!("unexpected event: {event:?}"),
    }
    Ok(())
}

#[test]
fn observed_process_resolution_prefers_matching_direct_tgid_over_ambiguous_hint() {
    let observed = EbpfObservedProcess {
        pid: 42,
        tgid: 42,
        uid: 1000,
        gid: 1000,
        command: nul_padded_command("python3"),
    };
    let direct = process_context(42, "python3", 1000, 1000);
    let mut resolver = ResolverLedger::new(ProcessResolutionResolver {
        direct: Some(direct.clone()),
        hinted: vec![direct.clone(), process_context(44, "python3", 1000, 1000)],
        direct_calls: 0,
        hint_calls: 0,
    });

    let resolved =
        resolve_observed_process(&mut resolver, &observed).expect("direct process match");

    assert_eq!(resolved.identity.pid, 42);
    assert_eq!(resolver.resolver().direct_calls, 1);
    assert_eq!(resolver.resolver().hint_calls, 0);
}

#[test]
fn observed_process_resolution_rejects_hint_when_direct_tgid_mismatches() {
    let observed = EbpfObservedProcess {
        pid: 42,
        tgid: 42,
        uid: 1000,
        gid: 1000,
        command: nul_padded_command("python3"),
    };
    let hinted = process_context(242, "python3", 1000, 1000);
    let mut resolver = ResolverLedger::new(ProcessResolutionResolver {
        direct: Some(process_context(42, "unrelated", 1000, 1000)),
        hinted: vec![hinted],
        direct_calls: 0,
        hint_calls: 0,
    });

    let resolved = resolve_observed_process(&mut resolver, &observed);

    assert!(resolved.is_none());
    assert_eq!(resolver.resolver().direct_calls, 1);
    assert_eq!(resolver.resolver().hint_calls, 0);
}

struct ExpectedSocketResolver {
    expected: EbpfSocketFlowLookup,
    seen: bool,
    resolved: Option<EbpfResolvedSocketFlow>,
}

impl EbpfSocketFlowResolver for ExpectedSocketResolver {
    fn resolve_socket_flow(
        &mut self,
        lookup: EbpfSocketFlowLookup,
    ) -> Result<Option<EbpfResolvedSocketFlow>, CaptureError> {
        assert_eq!(lookup, self.expected);
        self.seen = true;
        Ok(self.resolved.clone())
    }

    fn resolve_processes(&mut self) -> Result<Vec<ProcessContext>, CaptureError> {
        Ok(Vec::new())
    }
}

struct ListenSocketResolver {
    expected: EbpfListenSocketLookup,
    seen: bool,
    resolved: Option<EbpfResolvedListenSocket>,
}

impl EbpfSocketFlowResolver for ListenSocketResolver {
    fn resolve_socket_flow(
        &mut self,
        _lookup: EbpfSocketFlowLookup,
    ) -> Result<Option<EbpfResolvedSocketFlow>, CaptureError> {
        Ok(None)
    }

    fn resolve_processes(&mut self) -> Result<Vec<ProcessContext>, CaptureError> {
        Ok(Vec::new())
    }

    fn resolve_listen_socket(
        &mut self,
        lookup: EbpfListenSocketLookup,
    ) -> Result<Option<EbpfResolvedListenSocket>, CaptureError> {
        assert_eq!(lookup, self.expected);
        self.seen = true;
        Ok(self.resolved.clone())
    }
}

struct ProcessResolutionResolver {
    direct: Option<ProcessContext>,
    hinted: Vec<ProcessContext>,
    direct_calls: usize,
    hint_calls: usize,
}

impl EbpfSocketFlowResolver for ProcessResolutionResolver {
    fn resolve_socket_flow(
        &mut self,
        _lookup: EbpfSocketFlowLookup,
    ) -> Result<Option<EbpfResolvedSocketFlow>, CaptureError> {
        Ok(None)
    }

    fn resolve_process(&mut self, _tgid: u32) -> Result<Option<ProcessContext>, CaptureError> {
        self.direct_calls += 1;
        Ok(self.direct.clone())
    }

    fn resolve_processes_by_hint(
        &mut self,
        _hint: EbpfProcessHint,
    ) -> Result<Vec<ProcessContext>, CaptureError> {
        self.hint_calls += 1;
        Ok(self.hinted.clone())
    }

    fn resolve_processes(&mut self) -> Result<Vec<ProcessContext>, CaptureError> {
        Ok(Vec::new())
    }
}

fn demo_process() -> ProcessContext {
    process_context(100, "curl", 1000, 1000)
}

fn process_context(pid: u32, name: &str, uid: u32, gid: u32) -> ProcessContext {
    ProcessContext {
        identity: ProcessIdentity {
            pid,
            tgid: pid,
            start_time_ticks: 1234,
            boot_id: "boot".to_string(),
            exe_path: format!("/usr/bin/{name}"),
            cmdline_hash: "cmd".to_string(),
            uid,
            gid,
            cgroup: None,
            systemd_service: None,
            container_id: None,
            runtime_hint: None,
        },
        name: name.to_string(),
        cmdline: vec![name.to_string()],
    }
}

fn nul_padded_command(command: &str) -> [u8; 16] {
    let mut bytes = [0; 16];
    for (target, source) in bytes.iter_mut().zip(command.as_bytes()) {
        *target = *source;
    }
    bytes
}

#[test]
fn flow_start_process_falls_back_to_the_one_hinted_process() {
    let observed = EbpfObservedProcess {
        pid: 42,
        tgid: 42,
        uid: 1000,
        gid: 1000,
        command: nul_padded_command("python3"),
    };
    let unique = ProcessResolutionResolver {
        direct: Some(process_context(42, "unrelated", 1000, 1000)),
        hinted: vec![process_context(242, "python3", 1000, 1000)],
        direct_calls: 0,
        hint_calls: 0,
    };
    let ambiguous = ProcessResolutionResolver {
        direct: None,
        hinted: vec![
            process_context(242, "python3", 1000, 1000),
            process_context(243, "python3", 1000, 1000),
        ],
        direct_calls: 0,
        hint_calls: 0,
    };

    let mut unique = ResolverLedger::new(unique);
    let found = resolve_flow_start_process(&mut unique, &observed).expect("one hinted process");
    assert_eq!(found.identity.pid, 242);
    assert_eq!(unique.resolver().direct_calls, 1);
    assert_eq!(unique.resolver().hint_calls, 1);
    assert!(resolve_flow_start_process(&mut ResolverLedger::new(ambiguous), &observed).is_none());
}

#[test]
fn observed_process_without_a_name_is_unknown() {
    let observed = EbpfObservedProcess {
        pid: 43,
        tgid: 42,
        uid: 1000,
        gid: 1001,
        command: [0; 16],
    };

    let context = process_context_from_observed(&observed);

    assert_eq!(context.name, "unknown");
    assert_eq!(context.cmdline, vec!["unknown".to_string()]);
    assert_eq!(context.identity.pid, 42);
    assert_eq!((context.identity.uid, context.identity.gid), (1000, 1001));
}

#[test]
fn command_name_with_invalid_octets_is_read_with_replacements() {
    let mut command = [0; 16];
    command[..4].copy_from_slice(&[b'a', 0xff, b'b', 0]);
    command[4] = b'c';
    let observed = EbpfObservedProcess {
        pid: 1,
        tgid: 1,
        uid: 0,
        gid: 0,
        command,
    };

    assert_eq!(observed.command_lossy(), "a\u{fffd}b");
}

#[test]
fn observed_connect_needs_a_remote_endpoint() {
    let mut connect = demo_connect();

    let event = observed_connect_opened_event_from_observation(&connect, demo_timestamp(), None)
        .expect("remote endpoint is known");
    let CaptureEvent::ConnectionOpened { flow, .. } = event else {
        panic!("unexpected event: {event:?}");
    };
    assert_eq!(flow.local.address, "0.0.0.0");
    assert_eq!(flow.local.port, 0);
    assert_eq!(flow.remote.address, "127.0.0.1");
    assert_eq!(flow.remote.port, 443);
    assert_eq!(flow.process.name, "curl");
    assert_eq!(flow.attribution_confidence, 0);

    connect.endpoint = EbpfSocketEndpoint::Missing;
    assert!(
        observed_connect_opened_event_from_observation(&connect, demo_timestamp(), None).is_none()
    );
}

#[test]
fn unresolved_gaps_keep_what_is_known_of_the_flow() {
    let mut connect = demo_connect();
    connect.endpoint = EbpfSocketEndpoint::UnsupportedAddressFamily { value: 1 };
    let event = unresolved_connect_gap_from_observation(
        &connect,
        demo_timestamp(),
        "not found".to_string(),
        Some(demo_process()),
    );
    let CaptureEvent::Gap(gap) = event else {
        panic!("unexpected event: {event:?}");
    };
    assert_eq!(gap.gap.direction, Direction::Outbound);
    assert_eq!(gap.flow.remote.address, "0.0.0.0");
    assert_eq!(gap.flow.remote.port, 0);
    assert_eq!(gap.flow.process.identity.pid, 100);
    assert_eq!(
        gap.enforcement_evidence,
        EnforcementEvidence::observation_only_with_detail(
            ObservationOnlyReason::EbpfUnresolvedFlow,
            "not found".to_string(),
        )
    );

    let accept = EbpfAcceptTracepointObservation {
        process: connect.process,
        fd: 9,
        listen_fd: 3,
        addrlen: 28,
        fd_table_epoch: 11,
        fd_generation: 10,
        endpoint: EbpfSocketEndpoint::Remote(TcpEndpoint::new(
            IpAddress::v6([0, 0, 0, 0, 0, 0, 0, 0, 0, 0, 0, 0, 0, 0, 0, 1]),
            50_000,
        )),
    };
    let event = unresolved_accept_gap_from_observation(
        &accept,
        demo_timestamp(),
        "not found".to_string(),
        None,
    );
    let CaptureEvent::Gap(gap) = event else {
        panic!("unexpected event: {event:?}");
    };
    assert_eq!(gap.gap.direction, Direction::Inbound);
    assert_eq!(gap.flow.local.address, "::");
    assert_eq!(gap.flow.remote.address, "::1");
    assert_eq!(gap.flow.remote.port, 50_000);
    assert_eq!(gap.flow.process.name, "curl");
}

#[test]
fn losses_are_told_with_their_number() {
    let CaptureEvent::Loss(ring) = output_loss_event(demo_timestamp(), 3) else {
        panic!("expected a loss event");
    };
    assert_eq!(ring.loss.lost_events, 3);
    assert_eq!(
        ring.loss.reason,
        "eBPF process observation output ring buffer could not accept 3 event(s); parser state may have missed connection or payload observations"
    );
    let CaptureEvent::Loss(queue) = pending_payload_queue_loss_event(demo_timestamp(), 12) else {
        panic!("expected a loss event");
    };
    assert_eq!(
        queue.loss.reason,
        "eBPF process observation userspace pending payload queue dropped 12 event(s) while waiting for flow recovery; parser state may have missed payload observations"
    );
}

fn demo_connect() -> EbpfConnectTracepointObservation {
    EbpfConnectTracepointObservation {
        process: EbpfObservedProcess {
            pid: 101,
            tgid: 100,
            uid: 1000,
            gid: 1000,
            command: nul_padded_command("curl"),
        },
        fd: 7,
        addrlen: 16,
        fd_table_epoch: 9,
        fd_generation: 10,
        endpoint: EbpfSocketEndpoint::Remote(TcpEndpoint::new(
            IpAddress::v4([127, 0, 0, 1]),
            443,
        )),
    }
}

fn demo_timestamp() -> Timestamp {
    Timestamp {
        monotonic_ns: 42,
        wall_time_unix_ns: 99,
    }
}
