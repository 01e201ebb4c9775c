use std::collections::VecDeque;

use capture::ebpf::payload_authorization::SocketPayloadSampleAuthorization;
use capture::output_loss::OutputLossTracker;
use capture::{
    CaptureError, CaptureEvent, CapturePoll, CaptureProviderKind, CaptureSource, CapturedLoss,
    CompiledSelector, Direction, EbpfAcceptTracepointObservation, EbpfCloseTracepointObservation,
    EbpfConnectTracepointObservation, EbpfObservationSource, EbpfObservedProcess,
    EbpfProcessObservation, EbpfProcessObservationProbeSnapshot, EbpfProcessObservationProvider,
    EbpfResolvedSocketFlow, EbpfSocketEndpoint, EbpfSocketFlowLookup, EbpfSocketFlowResolver,
    EbpfSocketReadObservation, IpAddress, ProcessContext, ProcessIdentity,
    ProcessPayloadSampleAuthorization, ProcessSelector, TcpConnection, TcpEndpoint, TrafficSelector,
};

/// A provider with a clock that stands still.
struct Harness {
    inner: EbpfProcessObservationProvider,
}

const NOW_NS: u64 = 1_000;
const WALL_TIME_UNIX_NS: i64 = 1;

impl Harness {
    fn with_output_loss_check_interval_for_test(mut self, interval: u32) -> Self {
        self.inner.state.output_loss = OutputLossTracker::new(interval);
        self
    }

    fn poll_next(&mut self) -> Result<CapturePoll, CaptureError> {
        self.inner.poll_next(NOW_NS, WALL_TIME_UNIX_NS)
    }

    fn next(&mut self) -> Result<Option<CaptureEvent>, CaptureError> {
        loop {
            match self.poll_next()? {
                CapturePoll::Event(event) => return Ok(Some(*event)),
                CapturePoll::Progress => {}
                CapturePoll::Idle | CapturePoll::Finished => return Ok(None),
            }
        }
    }
}

fn provider_over(
    observations: impl EbpfObservationSource + 'static,
    resolver: Box<dyn EbpfSocketFlowResolver>,
    deep_observe_selector: Option<CompiledSelector>,
) -> Harness {
    let mut inner = EbpfProcessObservationProvider::open(
        Box::new(observations),
        resolver,
        deep_observe_selector.clone(),
        deep_observe_selector,
        EbpfProcessObservationProbeSnapshot::unreported(),
    );
    inner.state.resolution_retries = 0;
    inner.state.resolution_retry_sleep_ns = 0;
    inner.state.stop_when_idle = true;
    Harness { inner }
}

struct VecObservationSource {
    observations: VecDeque<EbpfProcessObservation>,
}

impl EbpfObservationSource for VecObservationSource {
    fn next_observation(&mut self) -> Result<Option<EbpfProcessObservation>, CaptureError> {
        Ok(self.observations.pop_front())
    }

    fn allow_socket_payload_sample(
        &mut self,
        _authorization: SocketPayloadSampleAuthorization,
    ) -> Result<(), CaptureError> {
        Ok(())
    }

    fn allow_process_payload_sample(
        &mut self,
        _authorization: ProcessPayloadSampleAuthorization,
    ) -> Result<(), CaptureError> {
        Ok(())
    }

    fn revoke_process_payload_sample(&mut self, _tgid: u32) -> Result<(), CaptureError> {
        Ok(())
    }
}

struct StaticResolver {
    resolved: Option<EbpfResolvedSocketFlow>,
}

impl EbpfSocketFlowResolver for StaticResolver {
    fn resolve_socket_flow(
        &mut self,
        _lookup: EbpfSocketFlowLookup,
    ) -> Result<Option<EbpfResolvedSocketFlow>, CaptureError> {
        Ok(self.resolved.clone())
    }
}

struct RetryResolver {
    calls: u32,
    resolved: EbpfResolvedSocketFlow,
}

impl EbpfSocketFlowResolver for RetryResolver {
    fn resolve_socket_flow(
        &mut self,
        _lookup: EbpfSocketFlowLookup,
    ) -> Result<Option<EbpfResolvedSocketFlow>, CaptureError> {
        self.calls = self.calls.saturating_add(1);
        if self.calls == 1 {
            return Ok(None);
        }
        Ok(Some(self.resolved.clone()))
    }
}

struct FailingAllowObservationSource {
    observations: VecDeque<EbpfProcessObservation>,
}

impl EbpfObservationSource for FailingAllowObservationSource {
    fn next_observation(&mut self) -> Result<Option<EbpfProcessObservation>, CaptureError> {
        Ok(self.observations.pop_front())
    }

    fn allow_socket_payload_sample(
        &mut self,
        _authorization: SocketPayloadSampleAuthorization,
    ) -> Result<(), CaptureError> {
        Err(CaptureError::provider("ebpf", "allow map unavailable"))
    }

    fn allow_process_payload_sample(
        &mut self,
        _authorization: ProcessPayloadSampleAuthorization,
    ) -> Result<(), CaptureError> {
        Ok(())
    }

    fn revoke_process_payload_sample(&mut self, _tgid: u32) -> Result<(), CaptureError> {
        Ok(())
    }
}

struct OutputLossObservationSource {
    observations: VecDeque<EbpfProcessObservation>,
    counts: VecDeque<u64>,
}

impl EbpfObservationSource for OutputLossObservationSource {
    fn next_observation(&mut self) -> Result<Option<EbpfProcessObservation>, CaptureError> {
        Ok(self.observations.pop_front())
    }

    fn allow_socket_payload_sample(
        &mut self,
        _authorization: SocketPayloadSampleAuthorization,
    ) -> Result<(), CaptureError> {
        Ok(())
    }

    fn allow_process_payload_sample(
        &mut self,
        _authorization: ProcessPayloadSampleAuthorization,
    ) -> Result<(), CaptureError> {
        Ok(())
    }

    fn revoke_process_payload_sample(&mut self, _tgid: u32) -> Result<(), CaptureError> {
        Ok(())
    }

    fn process_output_loss_count(&mut self) -> Result<u64, CaptureError> {
        Ok(self.counts.pop_front().unwrap_or(5))
    }
}

fn expect_output_loss(poll: CapturePoll) -> CapturedLoss {
    let CapturePoll::Event(event) = poll else {
        panic!("expected output loss event, got {poll:?}");
    };
    let CaptureEvent::Loss(loss) = *event else {
        panic!("expected output loss event, got {event:?}");
    };
    loss
}

fn source_from_observations(
    observations: impl IntoIterator<Item = EbpfProcessObservation>,
) -> VecObservationSource {
    VecObservationSource {
        observations: observations.into_iter().collect(),
    }
}

fn static_resolver(local: TcpEndpoint, remote: TcpEndpoint) -> Box<StaticResolver> {
    Box::new(StaticResolver {
        resolved: Some(EbpfResolvedSocketFlow {
            process: demo_process(),
            confidence: 90,
            connection: TcpConnection::new(local, remote),
            socket_cookie: None,
        }),
    })
}

fn connect_observation(
    process: EbpfObservedProcess,
    fd: i32,
    remote: TcpEndpoint,
) -> EbpfProcessObservation {
    connect_observation_with_lease(process, fd, remote, 9, 10)
}

fn connect_observation_with_lease(
    process: EbpfObservedProcess,
    fd: i32,
    remote: TcpEndpoint,
    fd_table_epoch: u64,
    fd_generation: u64,
) -> EbpfProcessObservation {
    EbpfProcessObservation::Connect(EbpfConnectTracepointObservation {
        process,
        fd,
        addrlen: 16,
        fd_table_epoch,
        fd_generation,
        endpoint: EbpfSocketEndpoint::Remote(remote),
    })
}

fn missing_connect_observation(
    process: EbpfObservedProcess,
    fd: i32,
) -> EbpfProcessObservation {
    EbpfProcessObservation::Connect(EbpfConnectTracepointObservation {
        process,
        fd,
        addrlen: 0,
        fd_table_epoch: 9,
        fd_generation: 10,
        endpoint: EbpfSocketEndpoint::Missing,
    })
}

fn accept_observation(
    process: EbpfObservedProcess,
    fd: i32,
    listen_fd: i32,
    remote: TcpEndpoint,
) -> EbpfProcessObservation {
    EbpfProcessObservation::Accept(EbpfAcceptTracepointObservation {
        process,
        fd,
        listen_fd,
        addrlen: 16,
        fd_table_epoch: 9,
        fd_generation: 10,
        endpoint: EbpfSocketEndpoint::Remote(remote),
    })
}

fn close_observation(process: EbpfObservedProcess, fd: i32) -> EbpfProcessObservation {
    EbpfProcessObservation::Close(EbpfCloseTracepointObservation {
        process,
        fd,
        fd_generation: 10,
    })
}

fn observed_process(pid: u32, tgid: u32) -> EbpfObservedProcess {
    EbpfObservedProcess {
        pid,
        tgid,
        uid: 1000,
        gid: 1000,
        command: [0; 16],
    }
}

fn demo_process() -> ProcessContext {
    ProcessContext {
        identity: ProcessIdentity {
            pid: 100,
            tgid: 100,
            start_time_ticks: 1234,
            boot_id: "boot".to_string(),
            exe_path: "/usr/bin/curl".to_string(),
            cmdline_hash: "cmd".to_string(),
            uid: 1000,
            gid: 1000,
            cgroup: None,
            systemd_service: None,
            container_id: None,
            runtime_hint: None,
        },
        name: "curl".to_string(),
        cmdline: vec!["curl".to_string()],
    }
}

#[test]
fn ebpf_process_observation_provider_emits_connection_opened_events() -> Result<(), CaptureError> {
    let remote = TcpEndpoint::new(IpAddress::v4([127, 0, 0, 1]), 443);
    let local = TcpEndpoint::new(IpAddress::v4([127, 0, 0, 1]), 50_000);
    let observation = connect_observation(observed_process(101, 100), 7, remote);
    let resolver = static_resolver(local, remote);
    let mut provider =
        provider_over(source_from_observations([observation]), resolver, None);

    let Some(CaptureEvent::ConnectionOpened {
        timestamp,
        flow,
        origin,
    }) = provider.next()?
    else {
        panic!("expected connection opened event");
    };

    assert_eq!(timestamp.monotonic_ns, 1);
    assert_eq!(origin.source(), CaptureSource::EbpfSyscall);
    assert_eq!(origin.provider(), CaptureProviderKind::Ebpf);
    assert_eq!(flow.local.port, 50_000);
    assert_eq!(flow.remote.port, 443);
    assert_eq!(flow.attribution_confidence, 90);
    assert!(provider.next()?.is_none());
    Ok(())
}

#[test]
fn ebpf_process_observation_provider_emits_accepted_connection_opened_events() -> Result<(), CaptureError> {
    let remote = TcpEndpoint::new(IpAddress::v4([127, 0, 0, 1]), 50_000);
    let local = TcpEndpoint::new(IpAddress::v4([127, 0, 0, 1]), 443);
    let observation = accept_observation(observed_process(101, 100), 9, 3, remote);
    let resolver = static_resolver(local, remote);
    let mut provider =
        provider_over(source_from_observations([observation]), resolver, None);

    let Some(CaptureEvent::ConnectionOpened {
        timestamp,
        flow,
        origin,
    }) = provider.next()?
    else {
        panic!("expected accepted connection opened event");
    };

    assert_eq!(timestamp.monotonic_ns, 1);
    assert_eq!(origin.source(), CaptureSource::EbpfSyscall);
    assert_eq!(origin.provider(), CaptureProviderKind::Ebpf);
    assert_eq!(flow.local.port, 443);
    assert_eq!(flow.remote.port, 50_000);
    assert_eq!(flow.attribution_confidence, 90);
    assert!(provider.next()?.is_none());
    Ok(())
}

#[test]
fn ebpf_process_observation_provider_emits_inbound_read_bytes() -> Result<(), CaptureError> {
    let remote = TcpEndpoint::new(IpAddress::v4([127, 0, 0, 1]), 443);
    let local = TcpEndpoint::new(IpAddress::v4([127, 0, 0, 1]), 50_000);
    let process = observed_process(101, 100);
    let observations = [
        connect_observation(process.clone(), 7, remote),
        EbpfProcessObservation::Read(EbpfSocketReadObservation {
            process,
            fd: 7,
            fd_generation: 10,
            original_len: 5,
            buffer: b"HTTP/".to_vec(),
            truncated: false,
            read_failed: false,
        }),
    ];
    let resolver = static_resolver(local, remote);
    let selector = CompiledSelector::term(
        ProcessSelector::default(),
        TrafficSelector {
            remote_ports: vec![443],
            directions: vec![Direction::Inbound],
            ..TrafficSelector::default()
        },
    );
    let mut provider = provider_over(
        VecObservationSource {
            observations: observations.into_iter().collect(),
        },
        resolver,
        Some(selector),
    );

    let Some(CaptureEvent::ConnectionOpened { .. }) = provider.next()? else {
        panic!("expected connection opened event");
    };
    let Some(CaptureEvent::Bytes(bytes)) = provider.next()? else {
        panic!("expected inbound read bytes");
    };

    assert_eq!(bytes.origin.source(), CaptureSource::EbpfSyscall);
    assert_eq!(bytes.origin.provider(), CaptureProviderKind::Ebpf);
    assert_eq!(bytes.direction, Direction::Inbound);
    assert_eq!(bytes.stream_offset, 0);
    assert_eq!(bytes.bytes.as_ref(), b"HTTP/");
    assert!(bytes.degraded);
    let degradation_reason = bytes
        .degradation_reason
        .as_deref()
        .expect("inbound eBPF bytes must include degradation reason");
    assert!(degradation_reason.contains("inbound syscall sample"));
    assert!(degradation_reason.contains("after the kernel returns"));
    assert!(degradation_reason.contains("best-effort"));
    Ok(())
}

#[test]
fn ebpf_process_observation_provider_emits_inbound_read_bytes_for_accepted_flow() -> Result<(), CaptureError> {
    let remote = TcpEndpoint::new(IpAddress::v4([127, 0, 0, 1]), 50_000);
    let local = TcpEndpoint::new(IpAddress::v4([127, 0, 0, 1]), 443);
    let process = observed_process(101, 100);
    let observations = [
        accept_observation(process.clone(), 9, 3, remote),
        EbpfProcessObservation::Read(EbpfSocketReadObservation {
            process,
            fd: 9,
            fd_generation: 10,
            original_len: 5,
            buffer: b"GET /".to_vec(),
            truncated: false,
            read_failed: false,
        }),
    ];
    let resolver = static_resolver(local, remote);
    let selector = CompiledSelector::term(
        ProcessSelector::default(),
        TrafficSelector {
            local_ports: vec![443],
            directions: vec![Direction::Inbound],
            ..TrafficSelector::default()
        },
    );
    let mut provider = provider_over(
        VecObservationSource {
            observations: observations.into_iter().collect(),
        },
        resolver,
        Some(selector),
    );

    let Some(CaptureEvent::ConnectionOpened { .. }) = provider.next()? else {
        panic!("expected accepted connection opened event");
    };
    let Some(CaptureEvent::Bytes(bytes)) = provider.next()? else {
        panic!("expected accepted inbound read bytes");
    };

    assert_eq!(bytes.direction, Direction::Inbound);
    assert_eq!(bytes.flow.local.port, 443);
    assert_eq!(bytes.flow.remote.port, 50_000);
    assert_eq!(bytes.bytes.as_ref(), b"GET /");
    assert!(bytes.degraded);
    Ok(())
}

#[test]
fn ebpf_process_observation_provider_emits_connection_closed_events() -> Result<(), CaptureError> {
    let remote = TcpEndpoint::new(IpAddress::v4([127, 0, 0, 1]), 443);
    let local = TcpEndpoint::new(IpAddress::v4([127, 0, 0, 1]), 50_000);
    let process = observed_process(101, 100);
    let observations = [
        connect_observation(process.clone(), 7, remote),
        close_observation(process, 7),
    ];
    let resolver = static_resolver(local, remote);
    let mut provider =
        provider_over(source_from_observations(observations), resolver, None);

    let Some(CaptureEvent::ConnectionOpened { flow, .. }) = provider.next()? else {
        panic!("expected connection opened event");
    };

    let opened_flow = flow.clone();
    assert_eq!(flow.local.port, 50_000);
    assert_eq!(flow.remote.port, 443);

    let Some(CaptureEvent::ConnectionClosed {
        timestamp,
        flow,
        origin,
    }) = provider.next()?
    else {
        panic!("expected connection closed event");
    };

    assert_eq!(timestamp.monotonic_ns, 2);
    assert_eq!(origin.source(), CaptureSource::EbpfSyscall);
    assert_eq!(origin.provider(), CaptureProviderKind::Ebpf);
    assert_eq!(flow.id, opened_flow.id);
    assert!(provider.next()?.is_none());
    Ok(())
}

#[test]
fn ebpf_process_observation_provider_closes_same_process_fd_from_sibling_thread() -> Result<(), CaptureError> {
    let remote = TcpEndpoint::new(IpAddress::v4([127, 0, 0, 1]), 443);
    let local = TcpEndpoint::new(IpAddress::v4([127, 0, 0, 1]), 50_000);
    let observations = [
        connect_observation(observed_process(101, 100), 7, remote),
        close_observation(observed_process(102, 100), 7),
    ];
    let resolver = static_resolver(local, remote);
    let mut provider =
        provider_over(source_from_observations(observations), resolver, None);

    let Some(CaptureEvent::ConnectionOpened { flow: opened, .. }) = provider.next()? else {
        panic!("expected connection opened event");
    };
    let opened_flow_id = opened.id.clone();
    assert_eq!(opened.local.port, 50_000);
    let Some(CaptureEvent::ConnectionClosed { flow, .. }) = provider.next()? else {
        panic!("expected sibling-thread close to close the process fd flow");
    };
    assert_eq!(flow.id, opened_flow_id);
    assert!(provider.next()?.is_none());
    Ok(())
}

#[test]
fn ebpf_process_observation_provider_does_not_close_different_fd_from_same_process() -> Result<(), CaptureError> {
    let remote = TcpEndpoint::new(IpAddress::v4([127, 0, 0, 1]), 443);
    let local = TcpEndpoint::new(IpAddress::v4([127, 0, 0, 1]), 50_000);
    let process = observed_process(101, 100);
    let observations = [
        connect_observation(process.clone(), 7, remote),
        close_observation(process, 8),
    ];
    let resolver = static_resolver(local, remote);
    let mut provider =
        provider_over(source_from_observations(observations), resolver, None);

    let Some(CaptureEvent::ConnectionOpened { flow: opened, .. }) = provider.next()? else {
        panic!("expected connection opened event");
    };
    assert_eq!(opened.local.port, 50_000);
    assert!(provider.next()?.is_none());
    Ok(())
}

#[test]
fn ebpf_process_observation_provider_does_not_track_when_payload_authorization_fails() -> Result<(), CaptureError> {
    let remote = TcpEndpoint::new(IpAddress::v4([127, 0, 0, 1]), 443);
    let local = TcpEndpoint::new(IpAddress::v4([127, 0, 0, 1]), 50_000);
    let process = observed_process(101, 100);
    let observations = [
        connect_observation(process.clone(), 7, remote),
        close_observation(process, 7),
    ];
    let source = FailingAllowObservationSource {
        observations: observations.into_iter().collect(),
    };
    let resolver = static_resolver(local, remote);
    let selector = CompiledSelector::term(
        ProcessSelector::default(),
        TrafficSelector {
            remote_ports: vec![443],
            directions: vec![Direction::Outbound],
            ..TrafficSelector::default()
        },
    );
    let mut provider =
        provider_over(source, resolver, Some(selector));

    let error = provider
        .next()
        .expect_err("matching deep observation authorization should fail");
    assert!(error.message().contains("allow map unavailable"));
    assert!(provider.next()?.is_none());
    Ok(())
}

#[test]
fn ebpf_process_observation_provider_ignores_untracked_close_and_keeps_polling() -> Result<(), CaptureError> {
    let remote = TcpEndpoint::new(IpAddress::v4([127, 0, 0, 1]), 443);
    let local = TcpEndpoint::new(IpAddress::v4([127, 0, 0, 1]), 50_000);
    let observations = [
        close_observation(observed_process(101, 100), 7),
        connect_observation(observed_process(101, 100), 8, remote),
    ];
    let resolver = static_resolver(local, remote);
    let mut provider =
        provider_over(source_from_observations(observations), resolver, None);

    let Some(CaptureEvent::ConnectionOpened {
        timestamp, flow, ..
    }) = provider.next()?
    else {
        panic!("expected provider to continue after an untracked close");
    };

    assert_eq!(timestamp.monotonic_ns, 1);
    assert_eq!(flow.local.port, 50_000);
    assert_eq!(flow.remote.port, 443);
    assert!(provider.next()?.is_none());
    Ok(())
}

#[test]
fn ebpf_process_observation_provider_keeps_fd_reuse_as_distinct_connect_events() -> Result<(), CaptureError> {
    let remote = TcpEndpoint::new(IpAddress::v4([127, 0, 0, 1]), 443);
    let local = TcpEndpoint::new(IpAddress::v4([127, 0, 0, 1]), 50_000);
    let process = observed_process(101, 100);
    let observations = [
        connect_observation(process.clone(), 7, remote),
        close_observation(process.clone(), 7),
        connect_observation(process, 7, remote),
    ];
    let resolver = static_resolver(local, remote);
    let mut provider =
        provider_over(source_from_observations(observations), resolver, None);

    let Some(CaptureEvent::ConnectionOpened {
        timestamp, flow, ..
    }) = provider.next()?
    else {
        panic!("expected first connection opened event");
    };
    let first_flow_id = flow.id.clone();
    assert_eq!(timestamp.monotonic_ns, 1);

    let Some(CaptureEvent::ConnectionClosed {
        timestamp, flow, ..
    }) = provider.next()?
    else {
        panic!("expected first connection closed event");
    };
    assert_eq!(timestamp.monotonic_ns, 2);
    assert_eq!(flow.id, first_flow_id);

    let Some(CaptureEvent::ConnectionOpened {
        timestamp, flow, ..
    }) = provider.next()?
    else {
        panic!("expected reused fd connection opened event");
    };
    assert_eq!(timestamp.monotonic_ns, 3);
    assert_ne!(flow.id, first_flow_id);
    assert!(provider.next()?.is_none());
    Ok(())
}

#[test]
fn ebpf_process_observation_provider_emits_gap_for_unresolved_observations() -> Result<(), CaptureError> {
    let observation = missing_connect_observation(observed_process(101, 100), 7);
    let resolver = Box::new(StaticResolver { resolved: None });
    let mut provider =
        provider_over(source_from_observations([observation]), resolver, None);

    let Some(CaptureEvent::Gap(gap)) = provider.next()? else {
        panic!("expected degraded gap event");
    };

    assert_eq!(gap.origin.source(), CaptureSource::EbpfSyscall);
    assert_eq!(gap.origin.provider(), CaptureProviderKind::Ebpf);
    assert_eq!(gap.gap.direction, Direction::Outbound);
    assert_eq!(gap.gap.expected_offset, 0);
    assert_eq!(gap.gap.next_offset, None);
    assert_eq!(gap.flow.process.identity.pid, 100);
    assert_eq!(gap.flow.attribution_confidence, 0);
    assert!(gap.gap.reason.contains("could not be resolved"));
    assert!(gap.gap.reason.contains("thread_pid=101"));
    assert!(provider.next()?.is_none());
    Ok(())
}

#[test]
fn ebpf_process_observation_provider_retries_fd_resolution() -> Result<(), CaptureError> {
    let remote = TcpEndpoint::new(IpAddress::v4([127, 0, 0, 1]), 443);
    let local = TcpEndpoint::new(IpAddress::v4([127, 0, 0, 1]), 50_000);
    let observation = connect_observation(observed_process(101, 100), 7, remote);
    let resolver = Box::new(RetryResolver {
        calls: 0,
        resolved: EbpfResolvedSocketFlow {
            process: demo_process(),
            confidence: 90,
            connection: TcpConnection::new(local, remote),
            socket_cookie: None,
        },
    });
    let mut provider =
        provider_over(source_from_observations([observation]), resolver, None);
    provider.inner.state.resolution_retries = 1;

    let Some(CaptureEvent::ConnectionOpened { flow, .. }) = provider.next()? else {
        panic!("expected connection opened event after retry");
    };

    assert_eq!(flow.local.port, 50_000);
    Ok(())
}

#[test]
fn ebpf_process_observation_provider_emits_output_loss_delta_through_poll() -> Result<(), CaptureError> {
    let source = OutputLossObservationSource {
        observations: VecDeque::new(),
        counts: VecDeque::from([2, 2, 5]),
    };
    let resolver = Box::new(StaticResolver { resolved: None });
    let mut provider =
        provider_over(source, resolver, None);
    provider.inner.state.stop_when_idle = false;

    let first = expect_output_loss(provider.poll_next()?);
    assert_eq!(first.origin.source(), CaptureSource::EbpfSyscall);
    assert_eq!(first.origin.provider(), CaptureProviderKind::Ebpf);
    assert_eq!(first.loss.lost_events, 2);
    assert!(
        first
            .loss
            .reason
            .contains("output ring buffer could not accept 2 event(s)")
    );

    assert!(matches!(provider.poll_next()?, CapturePoll::Idle));
    let second = expect_output_loss(provider.poll_next()?);
    assert_eq!(second.loss.lost_events, 3);
    assert!(matches!(provider.poll_next()?, CapturePoll::Idle));
    Ok(())
}

#[test]
fn ebpf_process_observation_provider_interleaves_output_loss_during_observation_drain() -> Result<(), CaptureError> {
    let process = observed_process(101, 100);
    let source = OutputLossObservationSource {
        observations: VecDeque::from([
            close_observation(process.clone(), 70),
            close_observation(process.clone(), 71),
            close_observation(process, 72),
        ]),
        counts: VecDeque::from([4]),
    };
    let resolver = Box::new(StaticResolver { resolved: None });
    let mut provider =
        provider_over(source, resolver, None)
            .with_output_loss_check_interval_for_test(2);

    assert!(matches!(provider.poll_next()?, CapturePoll::Progress));
    assert!(matches!(provider.poll_next()?, CapturePoll::Progress));
    let loss = expect_output_loss(provider.poll_next()?);
    assert_eq!(loss.loss.lost_events, 4);
    assert!(matches!(provider.poll_next()?, CapturePoll::Progress));
    Ok(())
}
