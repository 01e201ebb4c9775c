use std::{
    collections::VecDeque,
    sync::{Arc, Mutex},
};

use capture::ebpf::descriptor_lease::DescriptorLeaseKey;
use capture::ebpf::flow_start::{PendingEbpfFlowResolution, PendingEbpfFlowStart};
use capture::ebpf::observing::MAX_PENDING_EBPF_FLOW_RESOLUTIONS;
use capture::ebpf::payload_authorization::SocketPayloadSampleAuthorization;
use capture::ebpf::tracepoints::EbpfProcessTracepointRole;
use capture::ebpf::tracked_flow::TrackedEbpfFlows;
use capture::output_loss::OutputLossTracker;
use capture::{
    CaptureError, CaptureEvent, CapturePoll, CaptureProviderKind, CaptureSource, CapturedBytes,
    CapturedGap, CapturedLoss, CompiledSelector, Direction, EbpfAcceptTracepointObservation,
    EbpfCloseRangeTracepointObservation, EbpfCloseTracepointObservation,
    EbpfConnectTracepointObservation, EbpfObservationSource, EbpfObservedProcess, EbpfProcessHint,
    EbpfProcessLifecycleKind, EbpfProcessLifecycleObservation, EbpfProcessObservation,
    EbpfProcessObservationActiveTracepointLiveness,
    EbpfProcessObservationActiveTracepointLivenessProgram,
    EbpfProcessObservationActiveTracepointLivenessState, EbpfProcessObservationProbeSnapshot,
    EbpfProcessObservationProvider, EbpfProcessObservationRuntimeDiagnostics,
    EbpfProcessObservationTracepointFiring, EbpfResolvedSocketFlow, EbpfSocketEndpoint,
    EbpfSocketFlowLookup, EbpfSocketFlowResolver, EbpfSocketReadObservation,
    EbpfSocketWriteObservation, EnforcementEvidence, EnforcementEvidencePropagation, FlowContext,
    IpAddress, ObservationOnlyReason, ProcessContext, ProcessIdentity,
    ProcessPayloadSampleAuthorization, ProcessSelector, SelectorTerm, TcpConnection, TcpEndpoint,
    Timestamp, TrafficSelector,
};

/// A provider with a clock that stands still.
struct Harness {
    inner: EbpfProcessObservationProvider,
}

const NOW_NS: u64 = 1_000;
const WALL_TIME_UNIX_NS: i64 = 1;

impl Harness {
    fn with_output_loss_check_interval_for_test(mut self, interval: u32) -> Self {
        self.inner.state.output_loss = OutputLossTracker::new(interval);
        self
    }

    fn with_max_tracked_flows_for_test(mut self, max_tracked_flows: usize) -> Self {
        self.inner.state.tracked_flows = TrackedEbpfFlows::bounded(max_tracked_flows);
        self
    }

    fn with_runtime_diagnostics_refresh_interval_for_test(mut self, interval_ns: u64) -> Self {
        self.inner.runtime_diagnostics.refresh_interval_ns = interval_ns;
        self
    }

    fn poll_next(&mut self) -> Result<CapturePoll, CaptureError> {
        self.inner.poll_next(NOW_NS, WALL_TIME_UNIX_NS)
    }

    fn drain_before_handoff(&mut self) -> Result<CapturePoll, CaptureError> {
        self.inner.drain_before_handoff(NOW_NS, WALL_TIME_UNIX_NS)
    }

    fn next(&mut self) -> Result<Option<CaptureEvent>, CaptureError> {
        loop {
            match self.poll_next()? {
                CapturePoll::Event(event) => return Ok(Some(*event)),
                CapturePoll::Progress => {}
                CapturePoll::Idle | CapturePoll::Finished => return Ok(None),
            }
        }
    }

    fn queue_pending_flow_resolution(&mut self, pending: PendingEbpfFlowResolution) -> CapturePoll {
        self.inner
            .state
            .queue_pending_flow_resolution(&mut self.inner.resolver, pending)
    }

    fn runtime_diagnostics(&mut self) -> &EbpfProcessObservationRuntimeDiagnostics {
        if let Some(before) = self.inner.begin_runtime_diagnostics(NOW_NS) {
            self.inner.finish_runtime_diagnostics(before, Ok(()));
        }
        self.inner.runtime_diagnostics()
    }
}

fn provider_over(
    observations: impl EbpfObservationSource + 'static,
    resolver: Box<dyn EbpfSocketFlowResolver>,
    deep_observe_selector: Option<CompiledSelector>,
) -> Harness {
    let mut inner = EbpfProcessObservationProvider::open(
        Box::new(observations),
        resolver,
        deep_observe_selector.clone(),
        deep_observe_selector,
        EbpfProcessObservationProbeSnapshot::unreported(),
    );
    inner.state.resolution_retries = 0;
    inner.state.resolution_retry_sleep_ns = 0;
    inner.state.stop_when_idle = true;
    Harness { inner }
}

struct VecObservationSource {
    observations: VecDeque<EbpfProcessObservation>,
}

impl EbpfObservationSource for VecObservationSource {
    fn next_observation(&mut self) -> Result<Option<EbpfProcessObservation>, CaptureError> {
        Ok(self.observations.pop_front())
    }

    fn allow_socket_payload_sample(
        &mut self,
        _authorization: SocketPayloadSampleAuthorization,
    ) -> Result<(), CaptureError> {
        Ok(())
    }

    fn allow_process_payload_sample(
        &mut self,
        _authorization: ProcessPayloadSampleAuthorization,
    ) -> Result<(), CaptureError> {
        Ok(())
    }

    fn revoke_process_payload_sample(&mut self, _tgid: u32) -> Result<(), CaptureError> {
        Ok(())
    }
}

struct RecordingObservationSource {
    observations: VecDeque<EbpfProcessObservation>,
    allowed: Arc<Mutex<Vec<DescriptorLeaseKey>>>,
    revoked: Arc<Mutex<Vec<DescriptorLeaseKey>>>,
}

impl EbpfObservationSource for RecordingObservationSource {
    fn next_observation(&mut self) -> Result<Option<EbpfProcessObservation>, CaptureError> {
        Ok(self.observations.pop_front())
    }

    fn allow_socket_payload_sample(
        &mut self,
        authorization: SocketPayloadSampleAuthorization,
    ) -> Result<(), CaptureError> {
        self.allowed.lock().expect("allowed lock poisoned").push(
            DescriptorLeaseKey::from_observed(
                authorization.tgid(),
                authorization.fd(),
                authorization.fd_generation(),
            )
            .expect("authorization carries a valid descriptor lease"),
        );
        Ok(())
    }

    fn allow_process_payload_sample(
        &mut self,
        _authorization: ProcessPayloadSampleAuthorization,
    ) -> Result<(), CaptureError> {
        Ok(())
    }

    fn revoke_process_payload_sample(&mut self, _tgid: u32) -> Result<(), CaptureError> {
        Ok(())
    }

    fn revoke_socket_payload_sample(
        &mut self,
        key: DescriptorLeaseKey,
    ) -> Result<(), CaptureError> {
        self.revoked
            .lock()
            .expect("revoked lock poisoned")
            .push(key);
        Ok(())
    }
}

struct ProcessRecordingObservationSource {
    observations: VecDeque<EbpfProcessObservation>,
    allowed: Arc<Mutex<Vec<u32>>>,
    revoked: Arc<Mutex<Vec<u32>>>,
}

impl EbpfObservationSource for ProcessRecordingObservationSource {
    fn next_observation(&mut self) -> Result<Option<EbpfProcessObservation>, CaptureError> {
        Ok(self.observations.pop_front())
    }

    fn allow_socket_payload_sample(
        &mut self,
        _authorization: SocketPayloadSampleAuthorization,
    ) -> Result<(), CaptureError> {
        Ok(())
    }

    fn revoke_socket_payload_sample(
        &mut self,
        _key: DescriptorLeaseKey,
    ) -> Result<(), CaptureError> {
        Ok(())
    }

    fn allow_process_payload_sample(
        &mut self,
        authorization: ProcessPayloadSampleAuthorization,
    ) -> Result<(), CaptureError> {
        self.allowed
            .lock()
            .expect("allowed process lock poisoned")
            .push(authorization.tgid());
        Ok(())
    }

    fn revoke_process_payload_sample(&mut self, tgid: u32) -> Result<(), CaptureError> {
        self.revoked
            .lock()
            .expect("revoked process lock poisoned")
            .push(tgid);
        Ok(())
    }
}

#[test]
fn emits_connection_opened_events() -> Result<(), CaptureError> {
    let (local, remote) = outbound_loopback();
    let mut provider = provider_from_observations(
        [connect_observation(observed_process(101, 100), 7, remote)],
        local,
        remote,
    );

    let (timestamp, flow) = expect_connection_opened(&mut provider)?;
    assert_eq!(timestamp.monotonic_ns, 1);
    assert_eq!(flow.local.port, 50_000);
    assert_eq!(flow.remote.port, 443);
    assert_eq!(flow.attribution_confidence, 90);
    assert!(provider.next()?.is_none());
    Ok(())
}

#[test]
fn emits_accepted_connection_opened_events() -> Result<(), CaptureError> {
    let (local, remote) = inbound_loopback();
    let mut provider = provider_from_observations(
        [accept_observation(observed_process(101, 100), 9, 3, remote)],
        local,
        remote,
    );

    let (timestamp, flow) = expect_connection_opened(&mut provider)?;
    assert_eq!(timestamp.monotonic_ns, 1);
    assert_eq!(flow.local.port, 443);
    assert_eq!(flow.remote.port, 50_000);
    assert_eq!(flow.attribution_confidence, 90);
    assert!(provider.next()?.is_none());
    Ok(())
}

#[test]
fn emits_inbound_read_bytes() -> Result<(), CaptureError> {
    let (local, remote) = outbound_loopback();
    let process = observed_process(101, 100);
    let observations = [
        connect_observation(process.clone(), 7, remote),
        EbpfProcessObservation::Read(EbpfSocketReadObservation {
            process,
            fd: 7,
            fd_generation: 10,
            original_len: 5,
            buffer: b"HTTP/".to_vec(),
            truncated: false,
            read_failed: false,
        }),
    ];
    let selector = CompiledSelector::term(
        ProcessSelector::default(),
        TrafficSelector {
            remote_ports: vec![443],
            directions: vec![Direction::Inbound],
            ..TrafficSelector::default()
        },
    );
    let mut provider = provider_over(
        source_from_observations(observations),
        static_resolver(local, remote),
        Some(selector),
    );

    expect_connection_opened(&mut provider)?;
    let bytes = expect_bytes(&mut provider)?;

    assert_eq!(bytes.origin.source(), CaptureSource::EbpfSyscall);
    assert_eq!(bytes.origin.provider(), CaptureProviderKind::Ebpf);
    assert_eq!(bytes.direction, Direction::Inbound);
    assert_eq!(bytes.stream_offset, 0);
    assert_eq!(bytes.bytes.as_ref(), b"HTTP/");
    assert!(bytes.degraded);
    let degradation_reason = bytes
        .degradation_reason
        .as_deref()
        .expect("inbound eBPF bytes must include degradation reason");
    assert!(degradation_reason.contains("inbound syscall sample"));
    assert!(degradation_reason.contains("after the kernel returns"));
    assert!(degradation_reason.contains("best-effort"));
    Ok(())
}

#[test]
fn emits_inbound_read_bytes_for_accepted_flow() -> Result<(), CaptureError> {
    let (local, remote) = inbound_loopback();
    let process = observed_process(101, 100);
    let observations = [
        accept_observation(process.clone(), 9, 3, remote),
        EbpfProcessObservation::Read(EbpfSocketReadObservation {
            process,
            fd: 9,
            fd_generation: 10,
            original_len: 5,
            buffer: b"GET /".to_vec(),
            truncated: false,
            read_failed: false,
        }),
    ];
    let selector = CompiledSelector::term(
        ProcessSelector::default(),
        TrafficSelector {
            local_ports: vec![443],
            directions: vec![Direction::Inbound],
            ..TrafficSelector::default()
        },
    );
    let mut provider = provider_over(
        source_from_observations(observations),
        static_resolver(local, remote),
        Some(selector),
    );

    expect_connection_opened(&mut provider)?;
    let bytes = expect_bytes(&mut provider)?;

    assert_eq!(bytes.direction, Direction::Inbound);
    assert_eq!(bytes.flow.local.port, 443);
    assert_eq!(bytes.flow.remote.port, 50_000);
    assert_eq!(bytes.bytes.as_ref(), b"GET /");
    assert!(bytes.degraded);
    Ok(())
}

#[test]
fn pending_flow_resolution_precedes_later_payload_observations() -> Result<(), CaptureError> {
    let (local, remote) = inbound_loopback();
    let process = observed_process(101, 100);
    let observations = [
        missing_accept_observation(process.clone(), 9, 3),
        EbpfProcessObservation::Read(EbpfSocketReadObservation {
            process,
            fd: 9,
            fd_generation: 10,
            original_len: 5,
            buffer: b"GET /".to_vec(),
            truncated: false,
            read_failed: false,
        }),
    ];
    let selector = CompiledSelector::term(
        ProcessSelector::default(),
        TrafficSelector {
            local_ports: vec![443],
            directions: vec![Direction::Inbound],
            ..TrafficSelector::default()
        },
    );
    let resolver = Box::new(RetryResolver {
        calls: 0,
        resolved: EbpfResolvedSocketFlow {
            process: demo_process(),
            confidence: 90,
            connection: TcpConnection::new(local, remote),
            socket_cookie: None,
        },
    });
    let mut provider = provider_over(
        source_from_observations(observations),
        resolver,
        Some(selector),
    );
    provider.inner.state.resolution_retries = 1;
    provider.inner.state.resolution_retry_sleep_ns = 0;

    let (_, opened) = expect_connection_opened(&mut provider)?;
    let bytes = expect_bytes(&mut provider)?;

    assert_eq!(opened.local.port, 443);
    assert_eq!(opened.remote.port, 50_000);
    assert_eq!(bytes.direction, Direction::Inbound);
    assert_eq!(bytes.flow.local.port, 443);
    assert_eq!(bytes.flow.remote.port, 50_000);
    assert_eq!(bytes.bytes.as_ref(), b"GET /");
    Ok(())
}

#[test]
fn emits_connection_closed_events() -> Result<(), CaptureError> {
    let (local, remote) = outbound_loopback();
    let process = observed_process(101, 100);
    let observations = [
        connect_observation(process.clone(), 7, remote),
        close_observation(process, 7),
    ];
    let mut provider = provider_from_observations(observations, local, remote);

    let (_, opened_flow) = expect_connection_opened(&mut provider)?;
    assert_eq!(opened_flow.local.port, 50_000);
    assert_eq!(opened_flow.remote.port, 443);

    let (timestamp, flow) = expect_connection_closed(&mut provider)?;
    assert_eq!(timestamp.monotonic_ns, 2);
    assert_eq!(flow.id, opened_flow.id);
    assert!(provider.next()?.is_none());
    Ok(())
}

#[test]
fn closes_same_process_fd_from_sibling_thread() -> Result<(), CaptureError> {
    let (local, remote) = outbound_loopback();
    let observations = [
        connect_observation(observed_process(101, 100), 7, remote),
        close_observation(observed_process(102, 100), 7),
    ];
    let mut provider = provider_from_observations(observations, local, remote);

    let (_, opened) = expect_connection_opened(&mut provider)?;
    let opened_flow_id = opened.id.clone();
    assert_eq!(opened.local.port, 50_000);
    let (_, flow) = expect_connection_closed(&mut provider)?;
    assert_eq!(flow.id, opened_flow_id);
    assert!(provider.next()?.is_none());
    Ok(())
}

#[test]
fn closes_tracked_close_range() -> Result<(), CaptureError> {
    let (local, remote) = outbound_loopback();
    let process = observed_process(101, 100);
    let observations = [
        connect_observation(process.clone(), 7, remote),
        connect_observation(process.clone(), 10, remote),
        close_range_observation(process, 7, 10),
    ];
    let mut provider = provider_from_observations(observations, local, remote);

    let (_, first_opened) = expect_connection_opened(&mut provider)?;
    let first_flow_id = first_opened.id.clone();
    let (_, second_opened) = expect_connection_opened(&mut provider)?;
    let second_flow_id = second_opened.id.clone();

    let (timestamp, flow) = expect_connection_closed(&mut provider)?;
    assert_eq!(timestamp.monotonic_ns, 3);
    assert_eq!(flow.id, first_flow_id);

    let (timestamp, flow) = expect_connection_closed(&mut provider)?;
    assert_eq!(timestamp.monotonic_ns, 3);
    assert_eq!(flow.id, second_flow_id);
    assert!(provider.next()?.is_none());
    Ok(())
}

#[test]
fn emits_process_lifecycle_gaps_on_exit() -> Result<(), CaptureError> {
    let (local, remote) = outbound_loopback();
    let process = observed_process(101, 100);
    let observations = [
        connect_observation(process.clone(), 7, remote),
        process_exit_observation(process),
    ];
    let selector = deep_observe_selector([443], [Direction::Inbound, Direction::Outbound]);
    let mut provider = provider_over(
        source_from_observations(observations),
        static_resolver(local, remote),
        Some(selector),
    );

    let (_, opened) = expect_connection_opened(&mut provider)?;
    let outbound = expect_gap(&mut provider)?;
    let inbound = expect_gap(&mut provider)?;
    let gaps = [outbound, inbound];

    assert!(gaps.iter().all(|gap| gap.timestamp.monotonic_ns == 2));
    assert!(gaps.iter().all(|gap| gap.flow.id == opened.id));
    assert!(gaps.iter().all(|gap| gap.gap.next_offset.is_none()));
    assert!(
        gaps.iter()
            .all(|gap| gap.gap.reason.contains("TGID leader exit"))
    );
    assert!(gaps.iter().all(|gap| gap.enforcement_evidence
        == EnforcementEvidence::observation_only_with_detail(
            ObservationOnlyReason::EbpfProcessLifecycleBoundary,
            gap.gap.reason.clone()
        )));
    assert!(
        gaps.iter()
            .any(|gap| gap.gap.direction == Direction::Outbound)
    );
    assert!(
        gaps.iter()
            .any(|gap| gap.gap.direction == Direction::Inbound)
    );
    assert!(provider.next()?.is_none());
    Ok(())
}

#[test]
fn emits_process_lifecycle_gap_on_exec() -> Result<(), CaptureError> {
    let (local, remote) = outbound_loopback();
    let process = observed_process(101, 100);
    let observations = [
        connect_observation(process.clone(), 7, remote),
        process_exec_observation(process),
    ];
    let selector = deep_observe_selector([443], [Direction::Outbound]);
    let mut provider = provider_over(
        source_from_observations(observations),
        static_resolver(local, remote),
        Some(selector),
    );

    let (_, opened) = expect_connection_opened(&mut provider)?;
    let gap = expect_gap(&mut provider)?;

    assert_eq!(gap.timestamp.monotonic_ns, 2);
    assert_eq!(gap.flow.id, opened.id);
    assert_eq!(gap.gap.direction, Direction::Outbound);
    assert_eq!(gap.gap.expected_offset, 0);
    assert_eq!(gap.gap.next_offset, None);
    assert!(gap.gap.reason.contains("process exec"));
    assert_eq!(
        gap.enforcement_evidence,
        EnforcementEvidence::observation_only_with_detail(
            ObservationOnlyReason::EbpfProcessLifecycleBoundary,
            gap.gap.reason.clone()
        )
    );
    assert!(provider.next()?.is_none());
    Ok(())
}

#[test]
fn process_exec_authorizes_matching_process_payload() -> Result<(), CaptureError> {
    let process = observed_process(101, 100);
    let allowed = Arc::new(Mutex::new(Vec::new()));
    let revoked = Arc::new(Mutex::new(Vec::new()));
    let source = ProcessRecordingObservationSource {
        observations: VecDeque::from([process_exec_observation(process)]),
        allowed: Arc::clone(&allowed),
        revoked: Arc::clone(&revoked),
    };
    let mut provider = provider_over(
        source,
        Box::new(ProcessIdentityResolver {
            process: Some(demo_process()),
        }),
        Some(process_selector([100])),
    );

    assert!(matches!(provider.poll_next()?, CapturePoll::Progress));
    assert_eq!(
        allowed
            .lock()
            .expect("allowed process lock poisoned")
            .as_slice(),
        &[100]
    );
    assert!(
        revoked
            .lock()
            .expect("revoked process lock poisoned")
            .is_empty()
    );
    Ok(())
}

#[test]
fn flow_start_does_not_grant_process_payload_allowance_from_hint_candidate() -> Result<(), CaptureError> {
    let (_, remote) = inbound_loopback();
    let process = observed_process_named(101, 4_271, "curl");
    let allowed = Arc::new(Mutex::new(Vec::new()));
    let revoked = Arc::new(Mutex::new(Vec::new()));
    let source = ProcessRecordingObservationSource {
        observations: VecDeque::from([accept_observation(process, 9, 3, remote)]),
        allowed: Arc::clone(&allowed),
        revoked: Arc::clone(&revoked),
    };
    let mut provider = provider_over(
        source,
        Box::new(HintProcessResolver {
            direct_process: None,
            hinted_processes: vec![demo_process()],
        }),
        Some(process_selector([100])),
    );

    let _ = provider.poll_next()?;

    assert!(
        allowed
            .lock()
            .expect("allowed process lock poisoned")
            .is_empty()
    );
    assert!(
        revoked
            .lock()
            .expect("revoked process lock poisoned")
            .is_empty()
    );
    Ok(())
}

#[test]
fn observed_flow_start_prefers_unique_hint_candidate_over_colliding_direct_tgid() -> Result<(), CaptureError> {
    let (_, remote) = inbound_loopback();
    let observed_tgid = 4_271;
    let process = observed_process_named(101, observed_tgid, "curl");
    let mut colliding = demo_process();
    colliding.identity.pid = observed_tgid;
    colliding.identity.tgid = observed_tgid;
    colliding.name = "unrelated".to_string();
    colliding.cmdline = vec!["unrelated".to_string()];
    let mut provider = provider_over(
        source_from_observations([accept_observation(process, 9, 3, remote)]),
        Box::new(HintProcessResolver {
            direct_process: Some(colliding),
            hinted_processes: vec![demo_process()],
        }),
        None,
    );

    let (_, flow) = expect_connection_opened(&mut provider)?;

    assert_eq!(flow.process.identity.pid, 100);
    assert_eq!(flow.process.identity.tgid, 100);
    assert_eq!(flow.process.name, "curl");
    assert_eq!(flow.attribution_confidence, 0);
    Ok(())
}

#[test]
fn process_exec_authorizes_observed_tgid_from_unique_hint_candidate() -> Result<(), CaptureError> {
    let observed_tgid = 4_271;
    let process = observed_process_named(101, observed_tgid, "curl");
    let allowed = Arc::new(Mutex::new(Vec::new()));
    let revoked = Arc::new(Mutex::new(Vec::new()));
    let source = ProcessRecordingObservationSource {
        observations: VecDeque::from([process_exec_observation(process)]),
        allowed: Arc::clone(&allowed),
        revoked: Arc::clone(&revoked),
    };
    let mut provider = provider_over(
        source,
        Box::new(HintProcessResolver {
            direct_process: None,
            hinted_processes: vec![demo_process()],
        }),
        Some(process_selector([100])),
    );

    assert!(matches!(provider.poll_next()?, CapturePoll::Progress));

    assert_eq!(
        allowed
            .lock()
            .expect("allowed process lock poisoned")
            .as_slice(),
        &[observed_tgid]
    );
    assert!(
        revoked
            .lock()
            .expect("revoked process lock poisoned")
            .is_empty()
    );
    Ok(())
}

#[test]
fn process_exec_skips_hint_authorization_when_candidates_are_ambiguous() -> Result<(), CaptureError> {
    let process = observed_process_named(101, 4_271, "curl");
    let allowed = Arc::new(Mutex::new(Vec::new()));
    let revoked = Arc::new(Mutex::new(Vec::new()));
    let source = ProcessRecordingObservationSource {
        observations: VecDeque::from([process_exec_observation(process)]),
        allowed: Arc::clone(&allowed),
        revoked: Arc::clone(&revoked),
    };
    let mut other = demo_process();
    other.identity.pid = 101;
    other.identity.tgid = 101;
    let mut provider = provider_over(
        source,
        Box::new(HintProcessResolver {
            direct_process: None,
            hinted_processes: vec![demo_process(), other],
        }),
        Some(process_selector([100, 101])),
    );

    assert!(matches!(provider.poll_next()?, CapturePoll::Progress));

    assert!(
        allowed
            .lock()
            .expect("allowed process lock poisoned")
            .is_empty()
    );
    assert_eq!(
        revoked
            .lock()
            .expect("revoked process lock poisoned")
            .as_slice(),
        &[4_271]
    );
    Ok(())
}

#[test]
fn process_exec_rejects_colliding_direct_tgid_without_unique_hint_candidate() -> Result<(), CaptureError> {
    let observed_tgid = 4_271;
    let process = observed_process_named(101, observed_tgid, "curl");
    let allowed = Arc::new(Mutex::new(Vec::new()));
    let revoked = Arc::new(Mutex::new(Vec::new()));
    let source = ProcessRecordingObservationSource {
        observations: VecDeque::from([process_exec_observation(process)]),
        allowed: Arc::clone(&allowed),
        revoked: Arc::clone(&revoked),
    };
    let mut colliding = demo_process();
    colliding.identity.pid = observed_tgid;
    colliding.identity.tgid = observed_tgid;
    let mut provider = provider_over(
        source,
        Box::new(HintProcessResolver {
            direct_process: Some(colliding),
            hinted_processes: Vec::new(),
        }),
        Some(process_selector([100])),
    );

    assert!(matches!(provider.poll_next()?, CapturePoll::Progress));

    assert!(
        allowed
            .lock()
            .expect("allowed process lock poisoned")
            .is_empty()
    );
    assert_eq!(
        revoked
            .lock()
            .expect("revoked process lock poisoned")
            .as_slice(),
        &[observed_tgid]
    );
    Ok(())
}

#[test]
fn process_exec_rejects_flow_dependent_process_payload_selector() -> Result<(), CaptureError> {
    let process = observed_process(101, 100);
    let allowed = Arc::new(Mutex::new(Vec::new()));
    let revoked = Arc::new(Mutex::new(Vec::new()));
    let source = ProcessRecordingObservationSource {
        observations: VecDeque::from([process_exec_observation(process)]),
        allowed: Arc::clone(&allowed),
        revoked: Arc::clone(&revoked),
    };
    let mut provider = provider_over(
        source,
        Box::new(ProcessIdentityResolver {
            process: Some(demo_process()),
        }),
        Some(process_remote_port_selector([100], [443])),
    );

    assert!(matches!(provider.poll_next()?, CapturePoll::Progress));
    assert!(
        allowed
            .lock()
            .expect("allowed process lock poisoned")
            .is_empty()
    );
    assert_eq!(
        revoked
            .lock()
            .expect("revoked process lock poisoned")
            .as_slice(),
        &[100]
    );
    Ok(())
}

#[test]
fn process_exec_revokes_payload_allowance_when_process_resolution_fails() -> Result<(), CaptureError> {
    let process = observed_process(101, 100);
    let allowed = Arc::new(Mutex::new(Vec::new()));
    let revoked = Arc::new(Mutex::new(Vec::new()));
    let source = ProcessRecordingObservationSource {
        observations: VecDeque::from([process_exec_observation(process)]),
        allowed: Arc::clone(&allowed),
        revoked: Arc::clone(&revoked),
    };
    let mut provider = provider_over(
        source,
        Box::new(FailingProcessIdentityResolver),
        Some(process_selector([100])),
    );

    assert!(matches!(provider.poll_next()?, CapturePoll::Progress));
    assert!(
        allowed
            .lock()
            .expect("allowed process lock poisoned")
            .is_empty()
    );
    assert_eq!(
        revoked
            .lock()
            .expect("revoked process lock poisoned")
            .as_slice(),
        &[100]
    );
    Ok(())
}

#[test]
fn process_exit_revokes_process_payload_allowance() -> Result<(), CaptureError> {
    let process = observed_process(101, 100);
    let allowed = Arc::new(Mutex::new(Vec::new()));
    let revoked = Arc::new(Mutex::new(Vec::new()));
    let source = ProcessRecordingObservationSource {
        observations: VecDeque::from([process_exit_observation(process)]),
        allowed: Arc::clone(&allowed),
        revoked: Arc::clone(&revoked),
    };
    let mut provider = provider_over(
        source,
        Box::new(ProcessIdentityResolver { process: None }),
        Some(process_selector([100])),
    );

    assert!(matches!(provider.poll_next()?, CapturePoll::Progress));
    assert!(
        allowed
            .lock()
            .expect("allowed process lock poisoned")
            .is_empty()
    );
    assert_eq!(
        revoked
            .lock()
            .expect("revoked process lock poisoned")
            .as_slice(),
        &[100]
    );
    Ok(())
}

#[test]
fn process_lifecycle_does_not_remove_tracked_flow() -> Result<(), CaptureError> {
    let (local, remote) = outbound_loopback();
    let process = observed_process(101, 100);
    let observations = [
        connect_observation(process.clone(), 7, remote),
        process_exit_observation(process.clone()),
        close_observation(process, 7),
    ];
    let selector = deep_observe_selector([443], [Direction::Outbound]);
    let mut provider = provider_over(
        source_from_observations(observations),
        static_resolver(local, remote),
        Some(selector),
    );

    let (_, opened) = expect_connection_opened(&mut provider)?;
    let gap = expect_gap(&mut provider)?;
    assert_eq!(gap.flow.id, opened.id);

    let (timestamp, flow) = expect_connection_closed(&mut provider)?;
    assert_eq!(timestamp.monotonic_ns, 3);
    assert_eq!(flow.id, opened.id);
    assert!(provider.next()?.is_none());
    Ok(())
}

#[test]
fn process_lifecycle_does_not_gap_or_close_other_tgid_flows() -> Result<(), CaptureError> {
    let (local, remote) = outbound_loopback();
    let owner = observed_process(101, 100);
    let other = observed_process(201, 200);
    let observations = [
        connect_observation(owner.clone(), 7, remote),
        connect_observation(other.clone(), 8, remote),
        process_exit_observation(owner),
        close_observation(other, 8),
    ];
    let selector = deep_observe_selector([40_007, 40_008], [Direction::Outbound]);
    let mut provider = provider_over(
        source_from_observations(observations),
        fd_distinct_resolver(local),
        Some(selector),
    );

    let (_, first_opened) = expect_connection_opened(&mut provider)?;
    let first_flow_id = first_opened.id.clone();
    let (_, second_opened) = expect_connection_opened(&mut provider)?;
    let second_flow_id = second_opened.id.clone();

    let gap = expect_gap(&mut provider)?;
    assert_eq!(gap.flow.id, first_flow_id);

    let (_, closed) = expect_connection_closed(&mut provider)?;
    assert_eq!(closed.id, second_flow_id);
    assert!(provider.next()?.is_none());
    Ok(())
}

#[test]
fn tracked_flow_capacity_eviction_emits_provider_state_boundary_gaps() -> Result<(), CaptureError> {
    let (local, remote) = outbound_loopback();
    let process = observed_process(101, 100);
    let selector =
        deep_observe_selector([40_007, 40_008], [Direction::Inbound, Direction::Outbound]);
    let observations = [
        connect_observation(process.clone(), 7, remote),
        EbpfProcessObservation::Write(EbpfSocketWriteObservation {
            process: process.clone(),
            fd: 7,
            fd_generation: 10,
            original_len: 5,
            buffer: b"GET /".to_vec(),
            truncated: false,
            read_failed: false,
            kernel_transfer: false,
        }),
        connect_observation(process.clone(), 8, remote),
        close_observation(process, 7),
    ];
    let mut provider = provider_over(
        source_from_observations(observations),
        fd_distinct_resolver(local),
        Some(selector),
    )
    .with_max_tracked_flows_for_test(1);

    let (_, first_opened) = expect_connection_opened(&mut provider)?;
    let bytes = expect_bytes(&mut provider)?;
    assert_eq!(bytes.flow.id, first_opened.id);
    assert_eq!(bytes.stream_offset, 0);
    assert_eq!(bytes.bytes.as_ref(), b"GET /");

    let (second_timestamp, second_opened) = expect_connection_opened(&mut provider)?;
    assert_ne!(second_opened.id, first_opened.id);

    let first_gap = expect_gap(&mut provider)?;
    let second_gap = expect_gap(&mut provider)?;
    let gaps = [first_gap, second_gap];
    assert!(
        gaps.iter()
            .all(|gap| gap.timestamp == second_timestamp && gap.flow.id == first_opened.id)
    );
    assert!(gaps.iter().all(|gap| gap.gap.next_offset.is_none()));
    assert!(gaps.iter().all(|gap| {
        gap.gap
            .reason
            .contains("tracked-flow capacity was exceeded")
    }));
    assert!(gaps.iter().all(|gap| gap.enforcement_evidence
        == EnforcementEvidence::observation_only_with_detail(
            ObservationOnlyReason::ProviderStateBoundary,
            gap.gap.reason.clone()
        )));
    assert!(gaps.iter().all(|gap| {
        gap.enforcement_evidence_propagation == EnforcementEvidencePropagation::Event
    }));
    assert!(gaps.iter().any(|gap| {
        gap.gap.direction == Direction::Outbound && gap.gap.expected_offset == 5
    }));
    assert!(
        gaps.iter()
            .any(|gap| gap.gap.direction == Direction::Inbound && gap.gap.expected_offset == 0)
    );
    assert!(provider.next()?.is_none());
    Ok(())
}

#[test]
fn tracked_flow_capacity_eviction_revokes_displaced_payload_allowance() -> Result<(), CaptureError> {
    let (local, remote) = outbound_loopback();
    let process = observed_process(101, 100);
    let selector =
        deep_observe_selector([40_007, 40_008], [Direction::Inbound, Direction::Outbound]);
    let observations = [
        connect_observation(process.clone(), 7, remote),
        connect_observation(process, 8, remote),
    ];
    let allowed = Arc::new(Mutex::new(Vec::new()));
    let revoked = Arc::new(Mutex::new(Vec::new()));
    let source = RecordingObservationSource {
        observations: observations.into_iter().collect(),
        allowed: Arc::clone(&allowed),
        revoked: Arc::clone(&revoked),
    };
    let mut provider = provider_over(
        source,
        fd_distinct_resolver(local),
        Some(selector),
    )
    .with_max_tracked_flows_for_test(1);

    expect_connection_opened(&mut provider)?;
    expect_connection_opened(&mut provider)?;

    let first_key =
        DescriptorLeaseKey::from_observed(100, 7, 10).expect("valid test descriptor key");
    let second_key =
        DescriptorLeaseKey::from_observed(100, 8, 10).expect("valid test descriptor key");
    assert_eq!(
        allowed.lock().expect("allowed lock poisoned").as_slice(),
        &[first_key, second_key]
    );
    assert_eq!(
        revoked.lock().expect("revoked lock poisoned").as_slice(),
        &[first_key]
    );
    Ok(())
}

#[test]
fn same_fd_replacement_keeps_new_payload_allowance() -> Result<(), CaptureError> {
    let (local, remote) = outbound_loopback();
    let process = observed_process(101, 100);
    let selector = deep_observe_selector([40_007], [Direction::Inbound, Direction::Outbound]);
    let observations = [
        connect_observation_with_lease(process.clone(), 7, remote, 9, 10),
        connect_observation_with_lease(process, 7, remote, 9, 11),
    ];
    let allowed = Arc::new(Mutex::new(Vec::new()));
    let revoked = Arc::new(Mutex::new(Vec::new()));
    let source = RecordingObservationSource {
        observations: observations.into_iter().collect(),
        allowed: Arc::clone(&allowed),
        revoked: Arc::clone(&revoked),
    };
    let mut provider = provider_over(
        source,
        fd_distinct_resolver(local),
        Some(selector),
    )
    .with_max_tracked_flows_for_test(1);

    expect_connection_opened(&mut provider)?;
    expect_connection_opened(&mut provider)?;

    let first_key =
        DescriptorLeaseKey::from_observed(100, 7, 10).expect("valid test descriptor key");
    let second_key =
        DescriptorLeaseKey::from_observed(100, 7, 11).expect("valid test descriptor key");
    assert_eq!(
        allowed.lock().expect("allowed lock poisoned").as_slice(),
        &[first_key, second_key]
    );
    assert!(revoked.lock().expect("revoked lock poisoned").is_empty());
    Ok(())
}

#[test]
fn retained_same_fd_generation_prevents_stale_allowance_revoke() -> Result<(), CaptureError> {
    let (local, remote) = outbound_loopback();
    let process = observed_process(101, 100);
    let selector = deep_observe_selector([40_007], [Direction::Inbound, Direction::Outbound]);
    let observations = [
        connect_observation_with_lease(process.clone(), 7, remote, 9, 10),
        connect_observation_with_lease(process.clone(), 7, remote, 9, 11),
        connect_observation(process, 8, remote),
    ];
    let allowed = Arc::new(Mutex::new(Vec::new()));
    let revoked = Arc::new(Mutex::new(Vec::new()));
    let source = RecordingObservationSource {
        observations: observations.into_iter().collect(),
        allowed: Arc::clone(&allowed),
        revoked: Arc::clone(&revoked),
    };
    let mut provider = provider_over(
        source,
        fd_distinct_resolver(local),
        Some(selector),
    )
    .with_max_tracked_flows_for_test(2);

    expect_connection_opened(&mut provider)?;
    expect_connection_opened(&mut provider)?;
    expect_connection_opened(&mut provider)?;

    let first_key =
        DescriptorLeaseKey::from_observed(100, 7, 10).expect("valid test descriptor key");
    let second_key =
        DescriptorLeaseKey::from_observed(100, 7, 11).expect("valid test descriptor key");
    assert_eq!(
        allowed.lock().expect("allowed lock poisoned").as_slice(),
        &[first_key, second_key]
    );
    assert!(revoked.lock().expect("revoked lock poisoned").is_empty());
    Ok(())
}

#[test]
fn does_not_close_different_fd_from_same_process() -> Result<(), CaptureError> {
    let (local, remote) = outbound_loopback();
    let process = observed_process(101, 100);
    let observations = [
        connect_observation(process.clone(), 7, remote),
        close_observation(process, 8),
    ];
    let mut provider = provider_from_observations(observations, local, remote);

    let (_, opened) = expect_connection_opened(&mut provider)?;
    assert_eq!(opened.local.port, 50_000);
    assert!(provider.next()?.is_none());
    Ok(())
}

#[test]
fn does_not_track_when_payload_authorization_fails() -> Result<(), CaptureError> {
    let (local, remote) = outbound_loopback();
    let process = observed_process(101, 100);
    let observations = [
        connect_observation(process.clone(), 7, remote),
        close_observation(process, 7),
    ];
    let source = FailingAllowObservationSource {
        observations: observations.into_iter().collect(),
    };
    let resolver = static_resolver(local, remote);
    let selector = CompiledSelector::term(
        ProcessSelector::default(),
        TrafficSelector {
            remote_ports: vec![443],
            directions: vec![Direction::Outbound],
            ..TrafficSelector::default()
        },
    );
    let mut provider =
        provider_over(source, resolver, Some(selector));

    let error = provider
        .next()
        .expect_err("matching deep observation authorization should fail");
    assert!(error.message().contains("allow map unavailable"));
    assert!(provider.next()?.is_none());
    Ok(())
}

#[test]
fn ignores_untracked_close_and_keeps_polling() -> Result<(), CaptureError> {
    let (local, remote) = outbound_loopback();
    let observations = [
        close_observation(observed_process(101, 100), 7),
        connect_observation(observed_process(101, 100), 8, remote),
    ];
    let mut provider = provider_from_observations(observations, local, remote);

    let (timestamp, flow) = expect_connection_opened(&mut provider)?;
    assert_eq!(timestamp.monotonic_ns, 1);
    assert_eq!(flow.local.port, 50_000);
    assert_eq!(flow.remote.port, 443);
    assert!(provider.next()?.is_none());
    Ok(())
}

#[test]
fn keeps_fd_reuse_as_distinct_connect_events() -> Result<(), CaptureError> {
    let (local, remote) = outbound_loopback();
    let process = observed_process(101, 100);
    let observations = [
        connect_observation(process.clone(), 7, remote),
        close_observation(process.clone(), 7),
        connect_observation(process, 7, remote),
    ];
    let mut provider = provider_from_observations(observations, local, remote);

    let (timestamp, flow) = expect_connection_opened(&mut provider)?;
    let first_flow_id = flow.id.clone();
    assert_eq!(timestamp.monotonic_ns, 1);

    let (timestamp, flow) = expect_connection_closed(&mut provider)?;
    assert_eq!(timestamp.monotonic_ns, 2);
    assert_eq!(flow.id, first_flow_id);

    let (timestamp, flow) = expect_connection_opened(&mut provider)?;
    assert_eq!(timestamp.monotonic_ns, 3);
    assert_ne!(flow.id, first_flow_id);
    assert!(provider.next()?.is_none());
    Ok(())
}

#[test]
fn emits_gap_for_unresolved_observations() -> Result<(), CaptureError> {
    let observation = missing_connect_observation(observed_process(101, 100), 7);
    let resolver = Box::new(StaticResolver { resolved: None });
    let mut provider =
        provider_over(source_from_observations([observation]), resolver, None);

    let Some(CaptureEvent::Gap(gap)) = provider.next()? else {
        panic!("expected degraded gap event");
    };

    assert_eq!(gap.origin.source(), CaptureSource::EbpfSyscall);
    assert_eq!(gap.origin.provider(), CaptureProviderKind::Ebpf);
    assert_eq!(gap.gap.direction, Direction::Outbound);
    assert_eq!(gap.gap.expected_offset, 0);
    assert_eq!(gap.gap.next_offset, None);
    assert_eq!(gap.flow.process.identity.pid, 100);
    assert_eq!(gap.flow.attribution_confidence, 0);
    assert!(gap.gap.reason.contains("could not be resolved"));
    assert!(gap.gap.reason.contains("thread_pid=101"));
    assert!(provider.next()?.is_none());
    Ok(())
}

#[test]
fn degraded_observed_flow_keeps_resolved_process_identity() -> Result<(), CaptureError> {
    let (_, remote) = inbound_loopback();
    let observation = accept_observation(observed_process(101, 100), 9, 3, remote);
    let resolver = Box::new(ProcessOnlyResolver {
        process: demo_process(),
    });
    let mut provider =
        provider_over(source_from_observations([observation]), resolver, None);

    let (_, flow) = expect_connection_opened(&mut provider)?;

    assert_eq!(flow.attribution_confidence, 0);
    assert_eq!(flow.local.port, 0);
    assert_eq!(flow.remote.port, 50_000);
    assert_eq!(flow.process.identity.pid, 100);
    assert_eq!(flow.process.identity.exe_path, "/usr/bin/curl");
    let selector = CompiledSelector::term(
        ProcessSelector {
            exe_paths: vec!["/usr/bin/curl".to_string()],
            ..ProcessSelector::default()
        },
        TrafficSelector {
            directions: vec![Direction::Inbound],
            ..TrafficSelector::default()
        },
    );
    assert!(selector.matches_flow(&flow, Direction::Inbound));
    assert!(provider.next()?.is_none());
    Ok(())
}

#[test]
fn flow_start_retries_procfs_before_observed_endpoint_fallback() -> Result<(), CaptureError> {
    let (local, remote) = inbound_loopback();
    let observation = accept_observation(observed_process(101, 100), 9, 3, remote);
    let resolver = Box::new(RetryResolver {
        calls: 0,
        resolved: EbpfResolvedSocketFlow {
            process: demo_process(),
            confidence: 90,
            connection: TcpConnection::new(local, remote),
            socket_cookie: None,
        },
    });
    let mut provider =
        provider_over(source_from_observations([observation]), resolver, None);
    provider.inner.state.resolution_retries = 1;
    provider.inner.state.resolution_retry_sleep_ns = 0;

    let (_, flow) = expect_connection_opened(&mut provider)?;

    assert_eq!(flow.attribution_confidence, 90);
    assert_eq!(flow.local.port, 443);
    assert_eq!(flow.remote.port, 50_000);
    assert!(provider.next()?.is_none());
    Ok(())
}

#[test]
fn degraded_observed_flow_tracks_authorized_payload() -> Result<(), CaptureError> {
    let (_, remote) = inbound_loopback();
    let process = observed_process(101, 100);
    let payload = b"HTTP/1.1 401 Unauthorized\r\ncontent-length: 0\r\n\r\n";
    let observations = [
        accept_observation(process.clone(), 9, 3, remote),
        EbpfProcessObservation::Write(EbpfSocketWriteObservation {
            process,
            fd: 9,
            fd_generation: 10,
            original_len: payload.len() as u32,
            buffer: payload.to_vec(),
            truncated: false,
            read_failed: false,
            kernel_transfer: false,
        }),
    ];
    let selector = CompiledSelector::term(
        ProcessSelector::default(),
        TrafficSelector {
            directions: vec![Direction::Outbound],
            ..TrafficSelector::default()
        },
    );
    let mut provider = provider_over(
        source_from_observations(observations),
        Box::new(StaticResolver { resolved: None }),
        Some(selector),
    );

    let (_, flow) = expect_connection_opened(&mut provider)?;
    let bytes = expect_bytes(&mut provider)?;

    assert_eq!(flow.attribution_confidence, 0);
    assert_eq!(bytes.flow.id, flow.id);
    assert_eq!(bytes.direction, Direction::Outbound);
    assert_eq!(bytes.bytes.as_ref(), payload);
    assert!(provider.next()?.is_none());
    Ok(())
}

#[test]
fn emits_gap_instead_of_unclosable_flow_for_invalid_descriptor_lease() -> Result<(), CaptureError> {
    let (_, remote) = outbound_loopback();
    let observation =
        connect_observation_with_lease(observed_process(101, 100), 7, remote, 9, 0);
    let mut provider = provider_from_observations(
        [
            observation,
            close_observation(observed_process(101, 100), 7),
        ],
        loopback_endpoint(50_000),
        remote,
    );

    let Some(CaptureEvent::Gap(gap)) = provider.next()? else {
        panic!("expected degraded gap event");
    };

    assert_eq!(gap.origin.source(), CaptureSource::EbpfSyscall);
    assert!(gap.gap.reason.contains("valid descriptor lease"));
    assert!(gap.gap.reason.contains("fd_generation=0"));
    assert!(provider.next()?.is_none());
    Ok(())
}

#[test]
fn retries_fd_resolution() -> Result<(), CaptureError> {
    let (local, remote) = outbound_loopback();
    let observation = missing_connect_observation(observed_process(101, 100), 7);
    let resolver = Box::new(RetryResolver {
        calls: 0,
        resolved: EbpfResolvedSocketFlow {
            process: demo_process(),
            confidence: 90,
            connection: TcpConnection::new(local, remote),
            socket_cookie: None,
        },
    });
    let mut provider =
        provider_over(source_from_observations([observation]), resolver, None);
    provider.inner.state.resolution_retries = 1;

    let (_, flow) = expect_connection_opened(&mut provider)?;
    assert_eq!(flow.local.port, 50_000);
    Ok(())
}

#[test]
fn process_lifecycle_waits_for_pending_flow_resolution() -> Result<(), CaptureError> {
    let (local, remote) = outbound_loopback();
    let process = observed_process(101, 100);
    let observations = [
        missing_connect_observation(process.clone(), 7),
        process_exec_observation(process),
    ];
    let resolver = Box::new(RetryResolver {
        calls: 0,
        resolved: EbpfResolvedSocketFlow {
            process: demo_process(),
            confidence: 90,
            connection: TcpConnection::new(local, remote),
            socket_cookie: None,
        },
    });
    let mut provider =
        provider_over(source_from_observations(observations), resolver, None);
    provider.inner.state.resolution_retries = 1;
    provider.inner.state.resolution_retry_sleep_ns = 0;

    let (_, flow) = expect_connection_opened(&mut provider)?;

    assert_eq!(flow.local.port, 50_000);
    assert_eq!(flow.remote.port, 443);
    assert!(provider.next()?.is_none());
    Ok(())
}

#[test]
fn unresolved_flow_resolution_emits_gap_before_later_flow_start() -> Result<(), CaptureError> {
    let (local, remote) = outbound_loopback();
    let process = observed_process(101, 100);
    let observations = [
        missing_connect_observation(process.clone(), 7),
        connect_observation(process, 8, remote),
    ];
    let resolver = Box::new(FdSelectiveResolver {
        unresolved_fd: 7,
        resolved: EbpfResolvedSocketFlow {
            process: demo_process(),
            confidence: 90,
            connection: TcpConnection::new(local, remote),
            socket_cookie: None,
        },
    });
    let mut provider =
        provider_over(source_from_observations(observations), resolver, None);
    provider.inner.state.resolution_retries = 1;

    let Some(CaptureEvent::Gap(gap)) = provider.next()? else {
        panic!("expected unresolved flow gap before later flow start");
    };
    assert!(gap.gap.reason.contains("fd=7"));

    let (_, flow) = expect_connection_opened(&mut provider)?;
    assert_eq!(flow.local.port, 50_000);
    assert_eq!(flow.remote.port, 443);
    assert!(provider.next()?.is_none());
    Ok(())
}

#[test]
fn full_pending_flow_resolution_queue_emits_gap() -> Result<(), CaptureError> {
    let (_, remote) = outbound_loopback();
    let process = observed_process(101, 100);
    let mut provider = provider_over(source_from_observations([]), Box::new(StaticResolver { resolved: None }), None);
    provider.inner.state.resolution_retries = 1;
    for fd in 0..MAX_PENDING_EBPF_FLOW_RESOLUTIONS {
        provider.inner.state.pending_flows.push_back(pending_connect_resolution(
            process.clone(),
            1000 + fd as i32,
            remote,
        ));
    }

    let CapturePoll::Event(event) = provider
        .queue_pending_flow_resolution(pending_missing_connect_resolution(process.clone(), 7))
    else {
        panic!("expected degraded gap when pending flow queue is full");
    };
    let CaptureEvent::Gap(gap) = *event else {
        panic!("expected degraded gap when pending flow queue is full");
    };
    assert!(
        gap.gap
            .reason
            .contains("pending flow resolution queue is full")
    );
    assert!(gap.gap.reason.contains("fd=7"));
    Ok(())
}

#[test]
fn emits_output_loss_delta_through_poll() -> Result<(), CaptureError> {
    let source = OutputLossObservationSource {
        observations: VecDeque::new(),
        counts: VecDeque::from([2, 2, 5]),
    };
    let resolver = Box::new(StaticResolver { resolved: None });
    let mut provider =
        provider_over(source, resolver, None);
    provider.inner.state.stop_when_idle = false;

    let first = expect_output_loss(provider.poll_next()?);
    assert_eq!(first.origin.source(), CaptureSource::EbpfSyscall);
    assert_eq!(first.origin.provider(), CaptureProviderKind::Ebpf);
    assert_eq!(first.loss.lost_events, 2);
    assert!(
        first
            .loss
            .reason
            .contains("output ring buffer could not accept 2 event(s)")
    );

    assert!(matches!(provider.poll_next()?, CapturePoll::Idle));
    let second = expect_output_loss(provider.poll_next()?);
    assert_eq!(second.loss.lost_events, 3);
    assert!(matches!(provider.poll_next()?, CapturePoll::Idle));
    Ok(())
}

#[test]
fn runtime_diagnostics_reads_tracepoint_firing_counts() {
    let source = TracepointFiringObservationSource {
        firings: vec![
            EbpfProcessObservationTracepointFiring {
                program_name: "connect_enter",
                category: "syscalls",
                tracepoint_name: "sys_enter_connect",
                firing_count: 2,
            },
            EbpfProcessObservationTracepointFiring {
                program_name: "connect_exit",
                category: "syscalls",
                tracepoint_name: "sys_exit_connect",
                firing_count: 1,
            },
        ],
    };
    let resolver = Box::new(StaticResolver { resolved: None });
    let mut provider = provider_over(source, resolver, None)
        .with_runtime_diagnostics_refresh_interval_for_test(0);

    let diagnostics = provider.runtime_diagnostics();

    let tracepoints = diagnostics
        .tracepoints
        .as_ref()
        .expect("tracepoint diagnostics should be available");
    let firings = &tracepoints.firings;
    assert_eq!(firings.len(), 2);
    assert_eq!(firings[0].program_name, "connect_enter");
    assert_eq!(firings[0].category, "syscalls");
    assert_eq!(firings[0].tracepoint_name, "sys_enter_connect");
    assert_eq!(firings[0].firing_count, 2);
    assert_eq!(firings[1].program_name, "connect_exit");
    assert_eq!(firings[1].category, "syscalls");
    assert_eq!(firings[1].tracepoint_name, "sys_exit_connect");
    assert_eq!(firings[1].firing_count, 1);
}

#[test]
fn runtime_diagnostics_reports_active_tracepoint_liveness() {
    let source = QueuedTracepointFiringObservationSource {
        firings: VecDeque::from([
            vec![tracepoint_firing(EbpfProcessTracepointRole::WriteEnter, 10)],
            vec![tracepoint_firing(EbpfProcessTracepointRole::WriteEnter, 11)],
        ]),
    };
    let resolver = Box::new(StaticResolver { resolved: None });
    let mut provider = provider_over(source, resolver, None)
        .with_runtime_diagnostics_refresh_interval_for_test(0);

    let diagnostics = provider.runtime_diagnostics();

    let tracepoints = diagnostics
        .tracepoints
        .as_ref()
        .expect("tracepoint diagnostics should be available");
    let firings = &tracepoints.firings;
    assert_eq!(
        firings[0].program_name,
        EbpfProcessTracepointRole::WriteEnter.spec_of().program_name
    );
    assert_eq!(firings[0].firing_count, 11);

    let liveness = tracepoints
        .active_liveness
        .as_ref()
        .expect("active tracepoint liveness should be available");
    let write_enter = active_liveness_program(liveness, EbpfProcessTracepointRole::WriteEnter);
    assert_eq!(
        write_enter.state,
        EbpfProcessObservationActiveTracepointLivenessState::Advanced
    );
    assert_eq!(write_enter.before_firing_count, 10);
    assert_eq!(write_enter.after_firing_count, 11);

    let connect_enter =
        active_liveness_program(liveness, EbpfProcessTracepointRole::ConnectEnter);
    assert_eq!(
        connect_enter.state,
        EbpfProcessObservationActiveTracepointLivenessState::Unsupported
    );
}

#[test]
fn output_loss_fans_out_unknown_gaps_to_active_payload_flows() -> Result<(), CaptureError> {
    let (local, remote) = outbound_loopback();
    let process = observed_process(101, 100);
    let source = OutputLossObservationSource {
        observations: VecDeque::from([connect_observation(process, 7, remote)]),
        counts: VecDeque::from([2, 2]),
    };
    let selector = CompiledSelector::term(
        ProcessSelector::default(),
        TrafficSelector {
            remote_ports: vec![443],
            directions: vec![Direction::Inbound, Direction::Outbound],
            ..TrafficSelector::default()
        },
    );
    let mut provider = provider_over(
        source,
        static_resolver(local, remote),
        Some(selector),
    );

    let (_, opened_flow) = expect_connection_opened(&mut provider)?;
    let loss = expect_output_loss(provider.poll_next()?);
    assert_eq!(loss.loss.lost_events, 2);

    let first_gap = expect_gap_event(provider.poll_next()?);
    let second_gap = expect_gap_event(provider.poll_next()?);
    let gaps = [first_gap, second_gap];

    assert!(gaps.iter().all(|gap| gap.flow.id == opened_flow.id));
    assert!(gaps.iter().all(|gap| gap.gap.next_offset.is_none()));
    assert!(
        gaps.iter()
            .all(|gap| gap.gap.reason.contains("affected flow, time, bytes"))
    );
    assert!(
        gaps.iter()
            .any(|gap| gap.gap.direction == Direction::Inbound)
    );
    assert!(
        gaps.iter()
            .any(|gap| gap.gap.direction == Direction::Outbound)
    );
    Ok(())
}

#[test]
fn interleaves_output_loss_during_observation_drain() -> Result<(), CaptureError> {
    let process = observed_process(101, 100);
    let source = OutputLossObservationSource {
        observations: VecDeque::from([
            EbpfProcessObservation::Close(EbpfCloseTracepointObservation {
                process: process.clone(),
                fd: 70,
                fd_generation: 10,
            }),
            EbpfProcessObservation::Close(EbpfCloseTracepointObservation {
                process: process.clone(),
                fd: 71,
                fd_generation: 10,
            }),
            EbpfProcessObservation::Close(EbpfCloseTracepointObservation {
                process,
                fd: 72,
                fd_generation: 10,
            }),
        ]),
        counts: VecDeque::from([4]),
    };
    let resolver = Box::new(StaticResolver { resolved: None });
    let mut provider =
        provider_over(source, resolver, None)
            .with_output_loss_check_interval_for_test(2);

    assert!(matches!(provider.poll_next()?, CapturePoll::Progress));
    assert!(matches!(provider.poll_next()?, CapturePoll::Progress));
    let loss = expect_output_loss(provider.poll_next()?);
    assert_eq!(loss.loss.lost_events, 4);
    assert!(matches!(provider.poll_next()?, CapturePoll::Progress));
    Ok(())
}

#[test]
fn handoff_drain_emits_pending_payload_events_without_polling_new_observations() -> Result<(), CaptureError> {
    let (local, remote) = outbound_loopback();
    let process = observed_process(101, 100);
    let observations = [
        connect_observation(process.clone(), 7, remote),
        EbpfProcessObservation::Read(EbpfSocketReadObservation {
            process: process.clone(),
            fd: 7,
            fd_generation: 10,
            original_len: 9,
            buffer: b"HTTP/".to_vec(),
            truncated: true,
            read_failed: false,
        }),
        connect_observation(process, 8, remote),
    ];
    let selector = CompiledSelector::term(
        ProcessSelector::default(),
        TrafficSelector {
            remote_ports: vec![443],
            directions: vec![Direction::Inbound],
            ..TrafficSelector::default()
        },
    );
    let mut provider = provider_over(
        source_from_observations(observations),
        static_resolver(local, remote),
        Some(selector),
    );

    expect_connection_opened(&mut provider)?;
    let bytes = expect_bytes(&mut provider)?;
    assert_eq!(bytes.bytes.as_ref(), b"HTTP/");

    let gap = expect_gap_event(provider.drain_before_handoff()?);
    assert_eq!(gap.gap.direction, Direction::Inbound);
    assert_eq!(gap.gap.expected_offset, 5);
    assert_eq!(gap.gap.next_offset, Some(9));
    assert!(gap.gap.reason.contains("truncated payload"));
    let gap = expect_gap_event(provider.drain_before_handoff()?);
    assert_eq!(gap.gap.direction, Direction::Inbound);
    assert_eq!(gap.gap.expected_offset, 9);
    assert!(gap.gap.reason.contains("runtime generation handoff"));
    assert!(matches!(
        provider.drain_before_handoff()?,
        CapturePoll::Idle
    ));

    let (timestamp, _) = expect_connection_opened(&mut provider)?;
    assert_eq!(timestamp.monotonic_ns, 4);
    Ok(())
}

#[test]
fn handoff_drain_retries_pending_flow_resolution_until_safe_point() -> Result<(), CaptureError> {
    let (local, remote) = outbound_loopback();
    let process = observed_process(101, 100);
    let resolver = Box::new(RetryResolver {
        calls: 0,
        resolved: EbpfResolvedSocketFlow {
            process: demo_process(),
            confidence: 90,
            connection: TcpConnection::new(local, remote),
            socket_cookie: None,
        },
    });
    let mut provider = provider_over(source_from_observations([]), resolver, None);
    provider.inner.state.resolution_retries = 1;
    provider.inner.state.resolution_retry_sleep_ns = 60_000_000_000;
    provider.inner.state.pending_flows
        .push_back(pending_missing_connect_resolution(process, 7));

    assert!(matches!(
        provider.drain_before_handoff()?,
        CapturePoll::Progress
    ));
    assert_eq!(provider.inner.state.pending_flows.len(), 1);

    let CapturePoll::Event(event) = provider.drain_before_handoff()? else {
        panic!("expected pending flow resolution event before handoff safe point");
    };
    let CaptureEvent::ConnectionOpened { flow, .. } = *event else {
        panic!("expected connection opened event, got {event:?}");
    };
    assert_eq!(flow.local.port, 50_000);
    assert_eq!(flow.remote.port, 443);
    assert!(matches!(
        provider.drain_before_handoff()?,
        CapturePoll::Idle
    ));
    Ok(())
}

#[test]
fn handoff_drain_does_not_consume_live_observations() -> Result<(), CaptureError> {
    let (local, remote) = outbound_loopback();
    let process = observed_process(101, 100);
    let mut provider =
        provider_from_observations([connect_observation(process, 7, remote)], local, remote);

    assert!(matches!(
        provider.drain_before_handoff()?,
        CapturePoll::Idle
    ));
    let (timestamp, flow) = expect_connection_opened(&mut provider)?;
    assert_eq!(timestamp.monotonic_ns, 1);
    assert_eq!(flow.remote.port, 443);
    Ok(())
}

#[test]
fn handoff_drain_emits_boundary_gap_without_discarding_tracked_flow() -> Result<(), CaptureError> {
    let (local, remote) = outbound_loopback();
    let process = observed_process(101, 100);
    let payload = b"GET /".to_vec();
    let observations = [
        connect_observation(process.clone(), 7, remote),
        EbpfProcessObservation::Write(EbpfSocketWriteObservation {
            process,
            fd: 7,
            fd_generation: 10,
            original_len: payload.len() as u32,
            buffer: payload.clone(),
            truncated: false,
            read_failed: false,
            kernel_transfer: false,
        }),
    ];
    let selector = CompiledSelector::term(
        ProcessSelector::default(),
        TrafficSelector {
            remote_ports: vec![443],
            directions: vec![Direction::Outbound],
            ..TrafficSelector::default()
        },
    );
    let mut provider = provider_over(
        source_from_observations(observations),
        static_resolver(local, remote),
        Some(selector),
    );

    expect_connection_opened(&mut provider)?;
    let gap = expect_gap_event(provider.drain_before_handoff()?);
    assert_eq!(gap.gap.direction, Direction::Outbound);
    assert_eq!(gap.gap.expected_offset, 0);
    assert!(gap.gap.next_offset.is_none());
    assert!(gap.gap.reason.contains("runtime generation handoff"));
    assert!(matches!(
        provider.drain_before_handoff()?,
        CapturePoll::Idle
    ));

    let bytes = expect_bytes(&mut provider)?;
    assert_eq!(bytes.bytes.as_ref(), payload.as_slice());

    let gap = expect_gap_event(provider.drain_before_handoff()?);
    assert_eq!(gap.gap.expected_offset, payload.len() as u64);
    assert!(matches!(
        provider.drain_before_handoff()?,
        CapturePoll::Idle
    ));
    Ok(())
}

struct StaticResolver {
    resolved: Option<EbpfResolvedSocketFlow>,
}

impl EbpfSocketFlowResolver for StaticResolver {
    fn resolve_socket_flow(
        &mut self,
        _lookup: EbpfSocketFlowLookup,
    ) -> Result<Option<EbpfResolvedSocketFlow>, CaptureError> {
        Ok(self.resolved.clone())
    }
}

struct ProcessIdentityResolver {
    process: Option<ProcessContext>,
}

impl EbpfSocketFlowResolver for ProcessIdentityResolver {
    fn resolve_socket_flow(
        &mut self,
        _lookup: EbpfSocketFlowLookup,
    ) -> Result<Option<EbpfResolvedSocketFlow>, CaptureError> {
        Ok(None)
    }

    fn resolve_process(&mut self, _tgid: u32) -> Result<Option<ProcessContext>, CaptureError> {
        Ok(self.process.clone())
    }
}

struct ProcessOnlyResolver {
    process: ProcessContext,
}

impl EbpfSocketFlowResolver for ProcessOnlyResolver {
    fn resolve_socket_flow(
        &mut self,
        _lookup: EbpfSocketFlowLookup,
    ) -> Result<Option<EbpfResolvedSocketFlow>, CaptureError> {
        Ok(None)
    }

    fn resolve_process(&mut self, _tgid: u32) -> Result<Option<ProcessContext>, CaptureError> {
        Ok(Some(self.process.clone()))
    }
}

struct HintProcessResolver {
    direct_process: Option<ProcessContext>,
    hinted_processes: Vec<ProcessContext>,
}

impl EbpfSocketFlowResolver for HintProcessResolver {
    fn resolve_socket_flow(
        &mut self,
        _lookup: EbpfSocketFlowLookup,
    ) -> Result<Option<EbpfResolvedSocketFlow>, CaptureError> {
        Ok(None)
    }

    fn resolve_process(&mut self, _tgid: u32) -> Result<Option<ProcessContext>, CaptureError> {
        Ok(self.direct_process.clone())
    }

    fn resolve_processes_by_hint(
        &mut self,
        hint: EbpfProcessHint,
    ) -> Result<Vec<ProcessContext>, CaptureError> {
        Ok(self
            .hinted_processes
            .iter()
            .filter(|process| {
                process.name == hint.name
                    && process.identity.uid == hint.uid
                    && process.identity.gid == hint.gid
            })
            .cloned()
            .collect())
    }
}

struct FailingProcessIdentityResolver;

impl EbpfSocketFlowResolver for FailingProcessIdentityResolver {
    fn resolve_socket_flow(
        &mut self,
        _lookup: EbpfSocketFlowLookup,
    ) -> Result<Option<EbpfResolvedSocketFlow>, CaptureError> {
        Ok(None)
    }

    fn resolve_process(&mut self, _tgid: u32) -> Result<Option<ProcessContext>, CaptureError> {
        Err(CaptureError::provider(
            "procfs",
            "process table unavailable",
        ))
    }
}

struct FdDistinctResolver {
    local: TcpEndpoint,
}

impl EbpfSocketFlowResolver for FdDistinctResolver {
    fn resolve_socket_flow(
        &mut self,
        lookup: EbpfSocketFlowLookup,
    ) -> Result<Option<EbpfResolvedSocketFlow>, CaptureError> {
        let Ok(fd) = u16::try_from(lookup.fd) else {
            return Ok(None);
        };
        Ok(Some(EbpfResolvedSocketFlow {
            process: demo_process(),
            confidence: 90,
            connection: TcpConnection::new(
                self.local,
                loopback_endpoint(40_000_u16.saturating_add(fd)),
            ),
            socket_cookie: Some(u64::from(fd)),
        }))
    }
}

struct RetryResolver {
    calls: u32,
    resolved: EbpfResolvedSocketFlow,
}

impl EbpfSocketFlowResolver for RetryResolver {
    fn resolve_socket_flow(
        &mut self,
        _lookup: EbpfSocketFlowLookup,
    ) -> Result<Option<EbpfResolvedSocketFlow>, CaptureError> {
        self.calls = self.calls.saturating_add(1);
        if self.calls == 1 {
            return Ok(None);
        }
        Ok(Some(self.resolved.clone()))
    }
}

struct FdSelectiveResolver {
    unresolved_fd: i32,
    resolved: EbpfResolvedSocketFlow,
}

impl EbpfSocketFlowResolver for FdSelectiveResolver {
    fn resolve_socket_flow(
        &mut self,
        lookup: EbpfSocketFlowLookup,
    ) -> Result<Option<EbpfResolvedSocketFlow>, CaptureError> {
        if lookup.fd == self.unresolved_fd {
            return Ok(None);
        }
        Ok(Some(self.resolved.clone()))
    }
}

struct FailingAllowObservationSource {
    observations: VecDeque<EbpfProcessObservation>,
}

impl EbpfObservationSource for FailingAllowObservationSource {
    fn next_observation(&mut self) -> Result<Option<EbpfProcessObservation>, CaptureError> {
        Ok(self.observations.pop_front())
    }

    fn allow_socket_payload_sample(
        &mut self,
        _authorization: SocketPayloadSampleAuthorization,
    ) -> Result<(), CaptureError> {
        Err(CaptureError::provider("ebpf", "allow map unavailable"))
    }

    fn allow_process_payload_sample(
        &mut self,
        _authorization: ProcessPayloadSampleAuthorization,
    ) -> Result<(), CaptureError> {
        Ok(())
    }

    fn revoke_process_payload_sample(&mut self, _tgid: u32) -> Result<(), CaptureError> {
        Ok(())
    }
}

struct OutputLossObservationSource {
    observations: VecDeque<EbpfProcessObservation>,
    counts: VecDeque<u64>,
}

impl EbpfObservationSource for OutputLossObservationSource {
    fn next_observation(&mut self) -> Result<Option<EbpfProcessObservation>, CaptureError> {
        Ok(self.observations.pop_front())
    }

    fn allow_socket_payload_sample(
        &mut self,
        _authorization: SocketPayloadSampleAuthorization,
    ) -> Result<(), CaptureError> {
        Ok(())
    }

    fn allow_process_payload_sample(
        &mut self,
        _authorization: ProcessPayloadSampleAuthorization,
    ) -> Result<(), CaptureError> {
        Ok(())
    }

    fn revoke_process_payload_sample(&mut self, _tgid: u32) -> Result<(), CaptureError> {
        Ok(())
    }

    fn process_output_loss_count(&mut self) -> Result<u64, CaptureError> {
        Ok(self.counts.pop_front().unwrap_or(5))
    }
}

struct TracepointFiringObservationSource {
    firings: Vec<EbpfProcessObservationTracepointFiring>,
}

impl EbpfObservationSource for TracepointFiringObservationSource {
    fn next_observation(&mut self) -> Result<Option<EbpfProcessObservation>, CaptureError> {
        Ok(None)
    }

    fn allow_socket_payload_sample(
        &mut self,
        _authorization: SocketPayloadSampleAuthorization,
    ) -> Result<(), CaptureError> {
        Ok(())
    }

    fn allow_process_payload_sample(
        &mut self,
        _authorization: ProcessPayloadSampleAuthorization,
    ) -> Result<(), CaptureError> {
        Ok(())
    }

    fn revoke_process_payload_sample(&mut self, _tgid: u32) -> Result<(), CaptureError> {
        Ok(())
    }

    fn process_tracepoint_firings(
        &mut self,
    ) -> Result<Option<Vec<EbpfProcessObservationTracepointFiring>>, CaptureError> {
        Ok(Some(self.firings.clone()))
    }
}

struct QueuedTracepointFiringObservationSource {
    firings: VecDeque<Vec<EbpfProcessObservationTracepointFiring>>,
}

impl EbpfObservationSource for QueuedTracepointFiringObservationSource {
    fn next_observation(&mut self) -> Result<Option<EbpfProcessObservation>, CaptureError> {
        Ok(None)
    }

    fn allow_socket_payload_sample(
        &mut self,
        _authorization: SocketPayloadSampleAuthorization,
    ) -> Result<(), CaptureError> {
        Ok(())
    }

    fn allow_process_payload_sample(
        &mut self,
        _authorization: ProcessPayloadSampleAuthorization,
    ) -> Result<(), CaptureError> {
        Ok(())
    }

    fn revoke_process_payload_sample(&mut self, _tgid: u32) -> Result<(), CaptureError> {
        Ok(())
    }

    fn process_tracepoint_firings(
        &mut self,
    ) -> Result<Option<Vec<EbpfProcessObservationTracepointFiring>>, CaptureError> {
        Ok(Some(self.firings.pop_front().unwrap_or_default()))
    }
}

fn active_liveness_program(
    liveness: &EbpfProcessObservationActiveTracepointLiveness,
    role: EbpfProcessTracepointRole,
) -> &EbpfProcessObservationActiveTracepointLivenessProgram {
    let spec = role.spec_of();
    liveness
        .programs
        .iter()
        .find(|program| {
            program.program_name == spec.program_name
                && program.category == spec.category
                && program.tracepoint_name == spec.tracepoint_name
        })
        .expect("role should have active liveness diagnostics")
}

fn tracepoint_firing(
    role: EbpfProcessTracepointRole,
    firing_count: u64,
) -> EbpfProcessObservationTracepointFiring {
    let spec = role.spec_of();
    EbpfProcessObservationTracepointFiring {
        program_name: spec.program_name,
        category: spec.category,
        tracepoint_name: spec.tracepoint_name,
        firing_count,
    }
}

fn expect_output_loss(poll: CapturePoll) -> CapturedLoss {
    let CapturePoll::Event(event) = poll else {
        panic!("expected output loss event, got {poll:?}");
    };
    let CaptureEvent::Loss(loss) = *event else {
        panic!("expected output loss event, got {event:?}");
    };
    loss
}

fn expect_gap_event(poll: CapturePoll) -> CapturedGap {
    let CapturePoll::Event(event) = poll else {
        panic!("expected gap event, got {poll:?}");
    };
    let CaptureEvent::Gap(gap) = *event else {
        panic!("expected gap event, got {event:?}");
    };
    gap
}

fn provider_from_observations(
    observations: impl IntoIterator<Item = EbpfProcessObservation> + 'static,
    local: TcpEndpoint,
    remote: TcpEndpoint,
) -> Harness {
    provider_over(source_from_observations(observations), static_resolver(local, remote), None)
}

fn source_from_observations(
    observations: impl IntoIterator<Item = EbpfProcessObservation>,
) -> VecObservationSource {
    VecObservationSource {
        observations: observations.into_iter().collect(),
    }
}

fn outbound_loopback() -> (TcpEndpoint, TcpEndpoint) {
    (loopback_endpoint(50_000), loopback_endpoint(443))
}

fn inbound_loopback() -> (TcpEndpoint, TcpEndpoint) {
    (loopback_endpoint(443), loopback_endpoint(50_000))
}

fn loopback_endpoint(port: u16) -> TcpEndpoint {
    TcpEndpoint::new(IpAddress::v4([127, 0, 0, 1]), port)
}

fn expect_connection_opened(
    provider: &mut Harness,
) -> Result<(Timestamp, FlowContext), CaptureError> {
    match provider.next()? {
        Some(CaptureEvent::ConnectionOpened {
            timestamp,
            flow,
            origin,
        }) => {
            assert_eq!(
                (origin.source(), origin.provider()),
                (CaptureSource::EbpfSyscall, CaptureProviderKind::Ebpf)
            );
            Ok((timestamp, flow))
        }
        event => panic!("expected connection opened event, got {event:?}"),
    }
}

fn expect_connection_closed(
    provider: &mut Harness,
) -> Result<(Timestamp, FlowContext), CaptureError> {
    match provider.next()? {
        Some(CaptureEvent::ConnectionClosed {
            timestamp,
            flow,
            origin,
        }) => {
            assert_eq!(
                (origin.source(), origin.provider()),
                (CaptureSource::EbpfSyscall, CaptureProviderKind::Ebpf)
            );
            Ok((timestamp, flow))
        }
        event => panic!("expected connection closed event, got {event:?}"),
    }
}

fn expect_bytes(
    provider: &mut Harness,
) -> Result<CapturedBytes, CaptureError> {
    match provider.next()? {
        Some(CaptureEvent::Bytes(bytes)) => Ok(bytes),
        event => panic!("expected bytes event, got {event:?}"),
    }
}

fn expect_gap(
    provider: &mut Harness,
) -> Result<CapturedGap, CaptureError> {
    match provider.next()? {
        Some(CaptureEvent::Gap(gap)) => Ok(gap),
        event => panic!("expected gap event, got {event:?}"),
    }
}

fn static_resolver(local: TcpEndpoint, remote: TcpEndpoint) -> Box<StaticResolver> {
    Box::new(StaticResolver {
        resolved: Some(EbpfResolvedSocketFlow {
            process: demo_process(),
            confidence: 90,
            connection: TcpConnection::new(local, remote),
            socket_cookie: None,
        }),
    })
}

fn fd_distinct_resolver(local: TcpEndpoint) -> Box<FdDistinctResolver> {
    Box::new(FdDistinctResolver { local })
}

fn deep_observe_selector(
    remote_ports: impl IntoIterator<Item = u16>,
    directions: impl IntoIterator<Item = Direction>,
) -> CompiledSelector {
    CompiledSelector::term(
        ProcessSelector::default(),
        TrafficSelector {
            remote_ports: remote_ports.into_iter().collect(),
            directions: directions.into_iter().collect(),
            ..TrafficSelector::default()
        },
    )
}

fn process_selector(
    pids: impl IntoIterator<Item = u32>,
) -> CompiledSelector {
    CompiledSelector::term(
        ProcessSelector {
            pids: pids.into_iter().collect(),
            ..ProcessSelector::default()
        },
        TrafficSelector::default(),
    )
}

fn process_remote_port_selector(
    pids: impl IntoIterator<Item = u32>,
    remote_ports: impl IntoIterator<Item = u16>,
) -> CompiledSelector {
    CompiledSelector {
        terms: vec![
            SelectorTerm {
                process: ProcessSelector {
                    pids: pids.into_iter().collect(),
                    ..ProcessSelector::default()
                },
                traffic: TrafficSelector::default(),
            },
            SelectorTerm {
                process: ProcessSelector::default(),
                traffic: TrafficSelector {
                    remote_ports: remote_ports.into_iter().collect(),
                    ..TrafficSelector::default()
                },
            },
        ],
    }
}

fn connect_observation(
    process: EbpfObservedProcess,
    fd: i32,
    remote: TcpEndpoint,
) -> EbpfProcessObservation {
    connect_observation_with_lease(process, fd, remote, 9, 10)
}

fn pending_connect_resolution(
    process: EbpfObservedProcess,
    fd: i32,
    remote: TcpEndpoint,
) -> PendingEbpfFlowResolution {
    let EbpfProcessObservation::Connect(connect) = connect_observation(process, fd, remote)
    else {
        unreachable!("connect_observation always creates a connect observation");
    };
    PendingEbpfFlowResolution::new(
        PendingEbpfFlowStart::Connect(connect),
        Timestamp {
            monotonic_ns: 1,
            wall_time_unix_ns: 1,
        },
    )
}

fn pending_missing_connect_resolution(
    process: EbpfObservedProcess,
    fd: i32,
) -> PendingEbpfFlowResolution {
    let EbpfProcessObservation::Connect(connect) = missing_connect_observation(process, fd)
    else {
        unreachable!("missing_connect_observation always creates a connect observation");
    };
    PendingEbpfFlowResolution::new(
        PendingEbpfFlowStart::Connect(connect),
        Timestamp {
            monotonic_ns: 1,
            wall_time_unix_ns: 1,
        },
    )
}

fn connect_observation_with_lease(
    process: EbpfObservedProcess,
    fd: i32,
    remote: TcpEndpoint,
    fd_table_epoch: u64,
    fd_generation: u64,
) -> EbpfProcessObservation {
    EbpfProcessObservation::Connect(EbpfConnectTracepointObservation {
        process,
        fd,
        addrlen: 16,
        fd_table_epoch,
        fd_generation,
        endpoint: EbpfSocketEndpoint::Remote(remote),
    })
}

fn missing_connect_observation(
    process: EbpfObservedProcess,
    fd: i32,
) -> EbpfProcessObservation {
    EbpfProcessObservation::Connect(EbpfConnectTracepointObservation {
        process,
        fd,
        addrlen: 0,
        fd_table_epoch: 9,
        fd_generation: 10,
        endpoint: EbpfSocketEndpoint::Missing,
    })
}

fn accept_observation(
    process: EbpfObservedProcess,
    fd: i32,
    listen_fd: i32,
    remote: TcpEndpoint,
) -> EbpfProcessObservation {
    EbpfProcessObservation::Accept(EbpfAcceptTracepointObservation {
        process,
        fd,
        listen_fd,
        addrlen: 16,
        fd_table_epoch: 9,
        fd_generation: 10,
        endpoint: EbpfSocketEndpoint::Remote(remote),
    })
}

fn missing_accept_observation(
    process: EbpfObservedProcess,
    fd: i32,
    listen_fd: i32,
) -> EbpfProcessObservation {
    EbpfProcessObservation::Accept(EbpfAcceptTracepointObservation {
        process,
        fd,
        listen_fd,
        addrlen: 0,
        fd_table_epoch: 9,
        fd_generation: 10,
        endpoint: EbpfSocketEndpoint::Missing,
    })
}

fn close_observation(process: EbpfObservedProcess, fd: i32) -> EbpfProcessObservation {
    EbpfProcessObservation::Close(EbpfCloseTracepointObservation {
        process,
        fd,
        fd_generation: 10,
    })
}

fn close_range_observation(
    process: EbpfObservedProcess,
    first_fd: u32,
    last_fd: u32,
) -> EbpfProcessObservation {
    EbpfProcessObservation::CloseRange(EbpfCloseRangeTracepointObservation {
        process,
        first_fd,
        last_fd,
    })
}

fn process_exit_observation(process: EbpfObservedProcess) -> EbpfProcessObservation {
    EbpfProcessObservation::ProcessLifecycle(EbpfProcessLifecycleObservation {
        process,
        kind: EbpfProcessLifecycleKind::Exit,
    })
}

fn process_exec_observation(process: EbpfObservedProcess) -> EbpfProcessObservation {
    EbpfProcessObservation::ProcessLifecycle(EbpfProcessLifecycleObservation {
        process,
        kind: EbpfProcessLifecycleKind::Exec,
    })
}

fn observed_process(pid: u32, tgid: u32) -> EbpfObservedProcess {
    EbpfObservedProcess {
        pid,
        tgid,
        uid: 1000,
        gid: 1000,
        command: [0; 16],
    }
}

fn observed_process_named(pid: u32, tgid: u32, name: &str) -> EbpfObservedProcess {
    let mut process = observed_process(pid, tgid);
    for (slot, byte) in process.command.iter_mut().zip(name.bytes()) {
        *slot = byte;
    }
    process
}

fn demo_process() -> ProcessContext {
    ProcessContext {
        identity: ProcessIdentity {
            pid: 100,
            tgid: 100,
            start_time_ticks: 1234,
            boot_id: "boot".to_string(),
            exe_path: "/usr/bin/curl".to_string(),
            cmdline_hash: "cmd".to_string(),
            uid: 1000,
            gid: 1000,
            cgroup: None,
            systemd_service: None,
            container_id: None,
            runtime_hint: None,
        },
        name: "curl".to_string(),
        cmdline: vec!["curl".to_string()],
    }
}
