//! What the kernel is told to sample, and what is asked before.
use std::sync::{Arc, Mutex};

use capture::ebpf::descriptor_lease::DescriptorLeaseKey;
use capture::ebpf::flow_start::PendingEbpfFlowStart;
use capture::ebpf::ledger::{ObservationLedger, ResolverLedger};
use capture::ebpf::payload_authorization::SocketPayloadSampleAuthorization;
use capture::ebpf::payload_recovery::{take_up_flow, PayloadFlowRecovery};
use capture::ebpf::process_payload_allowance::{
    sync_current_process_payload_allowance, sync_process_payload_allowance_for_flow_start,
};
use capture::ebpf::tracked_flow::TrackedEbpfFlows;
use capture::{
    CaptureError, CaptureEvent, CapturePoll, CompiledSelector, Direction,
    EbpfCloseTracepointObservation, EbpfConnectTracepointObservation, EbpfObservationSource,
    EbpfObservedProcess, EbpfProcessObservation, EbpfProcessObservationProbeSnapshot,
    EbpfProcessObservationProvider, EbpfResolvedSocketFlow, EbpfSocketEndpoint,
    EbpfSocketFlowLookup, EbpfSocketFlowResolver, EbpfSocketWriteObservation, IpAddress,
    ProcessContext, ProcessIdentity, ProcessPayloadSampleAuthorization, ProcessSelector,
    TcpConnection, TcpEndpoint, Timestamp, TrafficSelector,
};

type Told = Arc<Mutex<Vec<String>>>;

/// Notes what it is told, and refuses processes from some number on.
struct NotingSource {
    told: Told,
    observations: Vec<EbpfProcessObservation>,
    refuse_from: u32,
    refuse_sockets: bool,
}

impl NotingSource {
    fn note(&self, text: String) {
        self.told.lock().expect("notes").push(text);
    }
}

impl EbpfObservationSource for NotingSource {
    fn next_observation(&mut self) -> Result<Option<EbpfProcessObservation>, CaptureError> {
        if self.observations.is_empty() {
            return Ok(None);
        }
        Ok(Some(self.observations.remove(0)))
    }

    fn allow_socket_payload_sample(
        &mut self,
        authorization: SocketPayloadSampleAuthorization,
    ) -> Result<(), CaptureError> {
        self.note(format!(
            "socket {} {} {}",
            authorization.tgid(),
            authorization.fd(),
            authorization.payload_directions().to_abi_mask()
        ));
        if self.refuse_sockets {
            return Err(CaptureError::provider("ebpf", "full"));
        }
        Ok(())
    }

    fn revoke_socket_payload_sample(&mut self, key: DescriptorLeaseKey) -> Result<(), CaptureError> {
        self.note(format!("revoke socket {} {}", key.tgid(), key.fd()));
        Ok(())
    }

    fn allow_process_payload_sample(
        &mut self,
        authorization: ProcessPayloadSampleAuthorization,
    ) -> Result<(), CaptureError> {
        self.note(format!("process {}", authorization.tgid()));
        if authorization.tgid() >= self.refuse_from {
            return Err(CaptureError::provider("ebpf", "full"));
        }
        Ok(())
    }

    fn revoke_process_payload_sample(&mut self, tgid: u32) -> Result<(), CaptureError> {
        self.note(format!("revoke process {tgid}"));
        Ok(())
    }
}

struct KnowingResolver {
    processes: Vec<ProcessContext>,
    flow: Option<EbpfResolvedSocketFlow>,
    lookups: u32,
}

impl EbpfSocketFlowResolver for KnowingResolver {
    fn resolve_socket_flow(
        &mut self,
        _lookup: EbpfSocketFlowLookup,
    ) -> Result<Option<EbpfResolvedSocketFlow>, CaptureError> {
        self.lookups += 1;
        Ok(self.flow.clone())
    }

    fn resolve_process(&mut self, tgid: u32) -> Result<Option<ProcessContext>, CaptureError> {
        Ok(self
            .processes
            .iter()
            .find(|process| process.identity.tgid == tgid)
            .cloned())
    }

    fn resolve_processes(&mut self) -> Result<Vec<ProcessContext>, CaptureError> {
        Ok(self.processes.clone())
    }
}

fn source(told: &Told, refuse_from: u32) -> NotingSource {
    NotingSource {
        told: Arc::clone(told),
        observations: Vec::new(),
        refuse_from,
        refuse_sockets: false,
    }
}

fn notes(told: &Told) -> Vec<String> {
    told.lock().expect("notes").clone()
}

fn process(tgid: u32, name: &str) -> ProcessContext {
    ProcessContext {
        identity: ProcessIdentity {
            pid: tgid,
            tgid,
            start_time_ticks: 1,
            boot_id: "boot".to_string(),
            exe_path: format!("/usr/bin/{name}"),
            cmdline_hash: "hash".to_string(),
            uid: 1000,
            gid: 1000,
            cgroup: None,
            systemd_service: None,
            container_id: None,
            runtime_hint: None,
        },
        name: name.to_string(),
        cmdline: vec![name.to_string()],
    }
}

fn observed(tgid: u32) -> EbpfObservedProcess {
    EbpfObservedProcess {
        pid: tgid,
        tgid,
        uid: 1000,
        gid: 1000,
        command: [0; 16],
    }
}

fn named(name: &str) -> Option<CompiledSelector> {
    Some(CompiledSelector::term(
        ProcessSelector {
            names: vec![name.to_string()],
            ..ProcessSelector::default()
        },
        TrafficSelector::default(),
    ))
}

fn remote() -> TcpEndpoint {
    TcpEndpoint::new(IpAddress::v4([127, 0, 0, 1]), 443)
}

fn resolved() -> EbpfResolvedSocketFlow {
    EbpfResolvedSocketFlow {
        process: process(100, "curl"),
        confidence: 90,
        connection: TcpConnection::new(
            TcpEndpoint::new(IpAddress::v4([127, 0, 0, 1]), 50_000),
            remote(),
        ),
        socket_cookie: None,
    }
}

fn connect(tgid: u32, fd: i32, generation: u64) -> EbpfConnectTracepointObservation {
    EbpfConnectTracepointObservation {
        process: observed(tgid),
        fd,
        addrlen: 16,
        fd_table_epoch: 9,
        fd_generation: generation,
        endpoint: EbpfSocketEndpoint::Remote(remote()),
    }
}

fn timestamp() -> Timestamp {
    Timestamp {
        monotonic_ns: 7,
        wall_time_unix_ns: 8,
    }
}

#[test]
fn running_processes_are_allowed_as_selected() {
    {
        let told = Told::default();
        let mut observations = ObservationLedger::new(source(&told, u32::MAX));
        let mut resolver = ResolverLedger::new(KnowingResolver {
            processes: vec![process(1, "init"), process(2, "curl"), process(3, "curl")],
            flow: None,
            lookups: 0,
        });
        let diagnostics =
            sync_current_process_payload_allowance(&mut resolver, &mut observations, &named("curl"))
                .expect("allowed");
        assert!(diagnostics.selector_configured);
        assert_eq!(diagnostics.scanned_processes, 3);
        assert_eq!(diagnostics.matched_processes, 2);
        assert_eq!(diagnostics.allowed_processes, 2);
        assert_eq!(notes(&told), vec!["process 2", "process 3"]);
    }
    {
        let told = Told::default();
        let mut observations = ObservationLedger::new(source(&told, 2));
        let mut resolver = ResolverLedger::new(KnowingResolver {
            processes: vec![process(1, "curl"), process(2, "curl"), process(3, "curl")],
            flow: None,
            lookups: 0,
        });
        let error =
            sync_current_process_payload_allowance(&mut resolver, &mut observations, &named("curl"))
                .expect_err("refused");
        assert_eq!(error.message(), "capture provider ebpf failed: full");
        assert_eq!(notes(&told), vec!["process 1", "process 2"]);
    }
    {
        let told = Told::default();
        let mut observations = ObservationLedger::new(source(&told, 0));
        let mut resolver = ResolverLedger::new(KnowingResolver {
            processes: vec![process(1, "curl")],
            flow: None,
            lookups: 0,
        });
        let diagnostics =
            sync_current_process_payload_allowance(&mut resolver, &mut observations, &None)
                .expect("nothing to do");
        assert!(!diagnostics.selector_configured);
        assert_eq!(diagnostics.scanned_processes, 0);
        assert!(notes(&told).is_empty());
    }
}

#[test]
fn process_that_starts_a_flow_is_allowed_where_selected() {
    let told = Told::default();
    let mut observations = ObservationLedger::new(source(&told, u32::MAX));
    let mut resolver = ResolverLedger::new(KnowingResolver {
        processes: vec![process(100, "curl"), process(101, "wget")],
        flow: None,
        lookups: 0,
    });
    for tgid in [100, 101] {
        sync_process_payload_allowance_for_flow_start(
            &mut resolver,
            &mut observations,
            &PendingEbpfFlowStart::Connect(connect(tgid, 7, 10)),
            &named("curl"),
        )
        .expect("allowed or passed over");
    }
    assert_eq!(notes(&told), vec!["process 100"]);
}

#[test]
fn flow_is_taken_up_by_its_payload() {
    let mut flows = TrackedEbpfFlows::bounded(2);
    let mut resolver = ResolverLedger::new(KnowingResolver {
        processes: Vec::new(),
        flow: Some(resolved()),
        lookups: 0,
    });
    let selector = named("curl");
    let recovery = PayloadFlowRecovery::new(&selector);
    let outcome = recovery
        .recover(
            &mut flows,
            &mut resolver,
            DescriptorLeaseKey::from_observed(100, 7, 10),
            Direction::Outbound,
            &observed(100),
            7,
            timestamp(),
        )
        .expect("no failure")
        .expect("taken up");
    assert_eq!(resolver.resolver().lookups, 1);
    assert!(outcome.displacement.is_none());
    assert_eq!(outcome.prefix_events.len(), 2);
    assert!(matches!(
        &outcome.prefix_events[0],
        CaptureEvent::ConnectionOpened { flow, .. } if flow.remote.port == 443
    ));
    assert!(matches!(
        &outcome.prefix_events[1],
        CaptureEvent::Gap(gap)
            if gap.gap.direction == Direction::Outbound && gap.gap.next_offset.is_none()
    ));
    assert!(flows.has_active_payload_gap_targets());
}

#[test]
fn flow_is_not_taken_up_where_nothing_asks_for_it() {
    let mut flows = TrackedEbpfFlows::bounded(2);
    let mut resolver = ResolverLedger::new(KnowingResolver {
        processes: Vec::new(),
        flow: Some(resolved()),
        lookups: 0,
    });
    let other = named("wget");
    assert!(PayloadFlowRecovery::new(&other)
        .recover(
            &mut flows,
            &mut resolver,
            DescriptorLeaseKey::from_observed(100, 7, 10),
            Direction::Outbound,
            &observed(100),
            7,
            timestamp(),
        )
        .expect("no failure")
        .is_none());
    assert_eq!(resolver.resolver().lookups, 1);
    assert!(PayloadFlowRecovery::new(&None)
        .recover(
            &mut flows,
            &mut resolver,
            DescriptorLeaseKey::from_observed(100, 7, 10),
            Direction::Outbound,
            &observed(100),
            7,
            timestamp(),
        )
        .expect("no failure")
        .is_none());
    assert_eq!(resolver.resolver().lookups, 1);
    assert!(!flows.has_active_payload_gap_targets());
}

fn provider(
    told: &Told,
    observations: Vec<EbpfProcessObservation>,
    refuse_sockets: bool,
) -> EbpfProcessObservationProvider {
    let mut provider = EbpfProcessObservationProvider::open(
        Box::new(NotingSource {
            told: Arc::clone(told),
            observations,
            refuse_from: u32::MAX,
            refuse_sockets,
        }),
        Box::new(KnowingResolver {
            processes: Vec::new(),
            flow: Some(resolved()),
            lookups: 0,
        }),
        named("curl"),
        None,
        EbpfProcessObservationProbeSnapshot::unreported(),
    );
    provider.state.stop_when_idle = true;
    provider
}

fn write(fd: i32, generation: u64) -> EbpfProcessObservation {
    EbpfProcessObservation::Write(EbpfSocketWriteObservation {
        process: observed(100),
        fd,
        fd_generation: generation,
        original_len: 5,
        buffer: b"GET /".to_vec(),
        truncated: false,
        read_failed: false,
        kernel_transfer: false,
    })
}

#[test]
fn socket_is_sampled_where_selected_and_allowed() {
    {
        let told = Told::default();
        let mut provider = provider(
            &told,
            vec![EbpfProcessObservation::Connect(connect(100, 7, 10))],
            false,
        );
        assert!(matches!(provider.poll_next(1, 1), Ok(CapturePoll::Event(_))));
        assert_eq!(notes(&told), vec!["socket 100 7 3"]);
    }
    {
        let told = Told::default();
        let mut provider = provider(
            &told,
            vec![
                EbpfProcessObservation::Connect(connect(100, 7, 10)),
                write(7, 10),
            ],
            true,
        );
        assert!(provider.poll_next(1, 1).is_err());
        assert_eq!(provider.poll_next(1, 1), Ok(CapturePoll::Progress));
        assert_eq!(provider.poll_next(1, 1), Ok(CapturePoll::Finished));
    }
}

#[test]
fn closed_descriptor_has_no_payload() {
    let told = Told::default();
    let mut provider = provider(
        &told,
        vec![
            EbpfProcessObservation::Connect(connect(100, 7, 10)),
            EbpfProcessObservation::Close(EbpfCloseTracepointObservation {
                process: observed(100),
                fd: 7,
                fd_generation: 10,
            }),
            write(7, 10),
        ],
        false,
    );
    assert!(matches!(provider.poll_next(1, 1), Ok(CapturePoll::Event(_))));
    assert!(matches!(provider.poll_next(1, 1), Ok(CapturePoll::Event(_))));
    assert_eq!(provider.poll_next(1, 1), Ok(CapturePoll::Progress));
}

#[test]
fn displaced_socket_is_sampled_no_more() {
    let told = Told::default();
    let mut provider = provider(
        &told,
        vec![
            EbpfProcessObservation::Connect(connect(100, 7, 10)),
            EbpfProcessObservation::Connect(connect(100, 8, 11)),
        ],
        false,
    );
    provider.state.tracked_flows = TrackedEbpfFlows::bounded(1);
    assert!(matches!(provider.poll_next(1, 1), Ok(CapturePoll::Event(_))));
    assert!(matches!(provider.poll_next(1, 1), Ok(CapturePoll::Event(_))));
    assert_eq!(
        notes(&told),
        vec!["socket 100 7 3", "socket 100 8 3", "revoke socket 100 7"]
    );
}

#[test]
fn reused_descriptor_number_keeps_its_sampling() {
    let told = Told::default();
    let mut provider = provider(
        &told,
        vec![
            EbpfProcessObservation::Connect(connect(100, 7, 10)),
            EbpfProcessObservation::Connect(connect(100, 7, 11)),
        ],
        false,
    );
    provider.state.tracked_flows = TrackedEbpfFlows::bounded(1);
    assert!(matches!(provider.poll_next(1, 1), Ok(CapturePoll::Event(_))));
    assert!(matches!(provider.poll_next(1, 1), Ok(CapturePoll::Event(_))));
    assert_eq!(notes(&told), vec!["socket 100 7 3", "socket 100 7 3"]);
}

#[test]
fn handoff_boundary_is_told_once_and_drains_take_no_observation() {
    let told = Told::default();
    let mut provider = provider(
        &told,
        vec![
            EbpfProcessObservation::Connect(connect(100, 7, 10)),
            write(7, 10),
        ],
        false,
    );
    assert!(matches!(provider.poll_next(1, 1), Ok(CapturePoll::Event(_))));
    for _ in 0..2 {
        let Ok(CapturePoll::Event(event)) = provider.drain_before_handoff(1, 1) else {
            panic!("expected a boundary gap");
        };
        assert!(matches!(*event, CaptureEvent::Gap(_)));
    }
    assert_eq!(provider.drain_before_handoff(1, 1), Ok(CapturePoll::Idle));
    assert_eq!(provider.drain_before_handoff(1, 1), Ok(CapturePoll::Idle));
    let Ok(CapturePoll::Event(event)) = provider.poll_next(1, 1) else {
        panic!("expected the written payload");
    };
    assert!(matches!(*event, CaptureEvent::Bytes(_)));
}

#[test]
fn waiting_start_is_put_off_until_it_is_due() {
    let told = Told::default();
    let mut provider = EbpfProcessObservationProvider::open(
        Box::new(NotingSource {
            told: Arc::clone(&told),
            observations: vec![EbpfProcessObservation::Connect(connect(100, 7, 10))],
            refuse_from: u32::MAX,
            refuse_sockets: false,
        }),
        Box::new(KnowingResolver {
            processes: Vec::new(),
            flow: None,
            lookups: 0,
        }),
        None,
        None,
        EbpfProcessObservationProbeSnapshot::unreported(),
    );
    provider.state.resolution_retries = 1;
    provider.state.resolution_retry_sleep_ns = 100;
    assert_eq!(provider.poll_next(1_000, 1), Ok(CapturePoll::Progress));
    assert_eq!(provider.poll_next(1_099, 1), Ok(CapturePoll::Idle));
    let Ok(CapturePoll::Event(event)) = provider.poll_next(1_100, 1) else {
        panic!("expected the observed start of the flow");
    };
    assert!(matches!(
        *event,
        CaptureEvent::ConnectionOpened { flow, .. } if flow.remote.port == 443
    ));
}

#[test]
fn gap_of_an_unresolved_flow_takes_the_process_with_its_number() {
    let told = Told::default();
    let mut start = connect(100, 7, 10);
    start.process.command[..7].copy_from_slice(b"python3");
    start.endpoint = EbpfSocketEndpoint::Missing;
    let mut provider = EbpfProcessObservationProvider::open(
        Box::new(NotingSource {
            told: Arc::clone(&told),
            observations: vec![EbpfProcessObservation::Connect(start)],
            refuse_from: u32::MAX,
            refuse_sockets: false,
        }),
        Box::new(KnowingResolver {
            processes: vec![process(100, "unrelated")],
            flow: None,
            lookups: 0,
        }),
        None,
        None,
        EbpfProcessObservationProbeSnapshot::unreported(),
    );
    provider.state.resolution_retries = 0;
    let Ok(CapturePoll::Event(event)) = provider.poll_next(1, 1) else {
        panic!("expected a gap");
    };
    let CaptureEvent::Gap(gap) = *event else {
        panic!("expected a gap");
    };
    assert_eq!(gap.flow.process.name, "unrelated");
}

#[test]
fn observed_connect_takes_the_process_with_its_number() {
    let mut start = connect(100, 7, 10);
    start.process.command[..7].copy_from_slice(b"python3");
    let mut resolver = ResolverLedger::new(KnowingResolver {
        processes: vec![process(100, "unrelated")],
        flow: None,
        lookups: 0,
    });
    let Ok(Some(CaptureEvent::ConnectionOpened { flow, .. })) =
        PendingEbpfFlowStart::Connect(start).observed_opened_event(timestamp(), &mut resolver)
    else {
        panic!("expected the observed start of the flow");
    };
    assert_eq!(flow.process.name, "unrelated");
    assert_eq!(flow.remote.port, 443);
}

#[test]
fn start_of_a_flow_that_is_taken_up_is_kept_as_it_is() {
    let mut flows = TrackedEbpfFlows::bounded(2);
    let mut resolver = ResolverLedger::new(KnowingResolver {
        processes: Vec::new(),
        flow: Some(resolved()),
        lookups: 0,
    });
    let Ok(Some(start)) =
        PendingEbpfFlowStart::Connect(connect(100, 7, 10)).opened_event(timestamp(), &mut resolver)
    else {
        panic!("expected the start of the flow");
    };
    let selector = named("curl").expect("a selector");
    let later = Timestamp {
        monotonic_ns: 70,
        wall_time_unix_ns: 80,
    };
    let key = DescriptorLeaseKey::from_observed(100, 7, 10).expect("a key");
    let outcome = take_up_flow(&mut flows, key, Direction::Outbound, start, &selector, later)
        .expect("taken up");
    assert!(matches!(
        &outcome.prefix_events[0],
        CaptureEvent::ConnectionOpened { timestamp: told, .. } if *told == timestamp()
    ));
    assert!(matches!(
        &outcome.prefix_events[1],
        CaptureEvent::Gap(gap) if gap.timestamp == later
    ));
}
