use std::{
    cell::{Cell, RefCell},
    collections::VecDeque,
    rc::Rc,
};

use bytes::Bytes;
use capture::multiplex::ProviderTurn;
use capture::{
    AddressPort, CapabilityKind, CapabilityState, CaptureError, CaptureEvent, CaptureMultiplexer,
    CaptureOrigin, CapturePoll, CaptureProvider, CaptureSource, CapturedBytes, Direction,
    DisableHandler, EnforcementEvidence, EnforcementEvidencePropagation, FlowContext, FlowIdentity,
    MultiplexedProvider, ProcessContext, ProcessIdentity, Timestamp, TransportProtocol,
};

struct ReasonSink {
    reason: Rc<RefCell<Option<String>>>,
}

impl DisableHandler for ReasonSink {
    fn disabled(&mut self, reason: &str) {
        *self.reason.borrow_mut() = Some(reason.to_string());
    }
}

fn next_event(provider: &mut CaptureMultiplexer) -> Result<Option<CaptureEvent>, CaptureError> {
    loop {
        match provider.poll_next()? {
            CapturePoll::Event(event) => return Ok(Some(*event)),
            CapturePoll::Progress | CapturePoll::Idle => {}
            CapturePoll::Finished => return Ok(None),
        }
    }
}

#[test]
fn multiplexer_keeps_polling_after_one_source_finishes() -> Result<(), CaptureError> {
    let first = VecProvider::new([captured_bytes("first")]);
    let second = VecProvider::new([captured_bytes("second")]);
    let mut provider = CaptureMultiplexer::new(vec![
        Box::new(first) as Box<dyn CaptureProvider>,
        Box::new(second),
    ]);

    assert_bytes_payload(next_event(&mut provider)?, b"first");
    assert_bytes_payload(next_event(&mut provider)?, b"second");
    assert!(next_event(&mut provider)?.is_none());
    Ok(())
}

#[test]
fn multiplexer_reports_idle_until_an_active_source_emits() -> Result<(), CaptureError> {
    let idle = IdleThenProvider {
        idle_before_event: 1,
        event: Some(captured_bytes("late")),
    };
    let mut provider = CaptureMultiplexer::new(vec![Box::new(idle) as Box<dyn CaptureProvider>]);

    assert_eq!(provider.poll_next()?, CapturePoll::Idle);
    assert_bytes_payload(
        Some(match provider.poll_next()? {
            CapturePoll::Event(event) => *event,
            other => panic!("expected event after idle, got {other:?}"),
        }),
        b"late",
    );
    assert_eq!(provider.poll_next()?, CapturePoll::Finished);
    Ok(())
}

#[test]
fn multiplexer_reports_progress_without_marking_source_idle_or_finished() -> Result<(), CaptureError> {
    let progress = ProgressThenProvider {
        progressed: false,
        event: Some(captured_bytes("after-progress")),
    };
    let mut provider =
        CaptureMultiplexer::new(vec![Box::new(progress) as Box<dyn CaptureProvider>]);

    assert_eq!(provider.poll_next()?, CapturePoll::Progress);
    assert_bytes_payload(
        Some(match provider.poll_next()? {
            CapturePoll::Event(event) => *event,
            other => panic!("expected event after progress, got {other:?}"),
        }),
        b"after-progress",
    );
    assert_eq!(provider.poll_next()?, CapturePoll::Finished);
    Ok(())
}

#[test]
fn multiplexer_disables_best_effort_source_after_error() -> Result<(), CaptureError> {
    let primary = VecProvider::new([captured_bytes("primary")]);
    let sidecar = ErrorProvider;
    let mut provider = CaptureMultiplexer::from_providers(vec![
        MultiplexedProvider::best_effort(Box::new(sidecar)),
        MultiplexedProvider::required(Box::new(primary)),
    ]);

    assert_bytes_payload(next_event(&mut provider)?, b"primary");
    assert!(next_event(&mut provider)?.is_none());
    assert_eq!(
        provider.capabilities(),
        vec![CapabilityState::unavailable(
            CapabilityKind::LibsslUprobe,
            "best-effort capture provider error disabled after error: capture provider error failed: boom",
        )]
    );
    Ok(())
}

#[test]
fn multiplexer_notifies_best_effort_disable_handler_after_error() -> Result<(), CaptureError> {
    let disabled_reason = Rc::new(RefCell::new(None::<String>));
    let reason_sink = Rc::clone(&disabled_reason);
    let primary = VecProvider::new([captured_bytes("primary")]);
    let sidecar = ErrorProvider;
    let mut provider = CaptureMultiplexer::from_providers(vec![
        MultiplexedProvider::best_effort_with_disable_handler(
            Box::new(sidecar),
            Box::new(ReasonSink { reason: reason_sink }),
        ),
        MultiplexedProvider::required(Box::new(primary)),
    ]);

    assert_bytes_payload(next_event(&mut provider)?, b"primary");

    let reason = disabled_reason
        .borrow()
        .clone()
        .expect("best-effort disable handler should be called");
    assert_eq!(
        reason,
        "best-effort capture provider error disabled after error: capture provider error failed: boom"
    );
    Ok(())
}

#[test]
fn multiplexer_drops_best_effort_source_after_error() -> Result<(), CaptureError> {
    let dropped = Rc::new(Cell::new(false));
    let primary = VecProvider::new([captured_bytes("primary")]);
    let sidecar = DropNotifyErrorProvider {
        dropped: Rc::clone(&dropped),
    };
    let mut provider = CaptureMultiplexer::from_providers(vec![
        MultiplexedProvider::best_effort(Box::new(sidecar)),
        MultiplexedProvider::required(Box::new(primary)),
    ]);

    assert_bytes_payload(next_event(&mut provider)?, b"primary");

    assert!(dropped.get());
    Ok(())
}

#[test]
fn turn_goes_by_what_the_poll_brought() {
    let event = || Ok(CapturePoll::Event(Box::new(captured_bytes("settled"))));

    let mut required = MultiplexedProvider::required(Box::new(ErrorProvider));
    assert!(matches!(
        required.settle(event()),
        ProviderTurn::Return(Ok(CapturePoll::Event(_)))
    ));
    assert!(matches!(required.settle(Ok(CapturePoll::Progress)), ProviderTurn::Progress));
    assert!(matches!(required.settle(Ok(CapturePoll::Idle)), ProviderTurn::Quiet));
    assert!(matches!(
        required.settle(ErrorProvider.poll_next()),
        ProviderTurn::Return(Err(_))
    ));
    assert!(required.is_active());
    assert!(matches!(required.settle(Ok(CapturePoll::Finished)), ProviderTurn::Quiet));
    assert!(!required.is_active());

    let mut best_effort = MultiplexedProvider::best_effort(Box::new(ErrorProvider));
    assert!(matches!(
        best_effort.settle(ErrorProvider.poll_next()),
        ProviderTurn::Progress
    ));
    assert!(!best_effort.is_active());
}

#[test]
fn multiplexer_propagates_required_source_error() {
    let mut provider =
        CaptureMultiplexer::new(vec![Box::new(ErrorProvider) as Box<dyn CaptureProvider>]);

    let error = provider
        .poll_next()
        .expect_err("required provider errors must stop the multiplexer");

    assert!(error.message().contains("boom"));
}

fn assert_bytes_payload(event: Option<CaptureEvent>, expected: &[u8]) {
    match event.expect("expected capture event") {
        CaptureEvent::Bytes(bytes) => {
            assert_eq!(bytes.bytes.as_ref(), expected);
        }
        event => panic!("expected bytes event, got {event:?}"),
    }
}

fn captured_bytes(payload: &'static str) -> CaptureEvent {
    CaptureEvent::Bytes(CapturedBytes {
        timestamp: Timestamp {
            monotonic_ns: 1,
            wall_time_unix_ns: 1,
        },
        flow: demo_flow(),
        origin: CaptureOrigin::from_source(CaptureSource::Replay),
        direction: Direction::Outbound,
        stream_offset: 0,
        bytes: Bytes::from_static(payload.as_bytes()),
        attribution_confidence: 100,
        degraded: false,
        degradation_reason: None,
        enforcement_evidence: EnforcementEvidence::default(),
        enforcement_evidence_propagation: EnforcementEvidencePropagation::Event,
    })
}

fn demo_flow() -> FlowContext {
    let process = ProcessIdentity {
        pid: 1,
        tgid: 1,
        start_time_ticks: 1,
        boot_id: "boot".to_string(),
        exe_path: "/bin/demo".to_string(),
        cmdline_hash: "hash".to_string(),
        uid: 0,
        gid: 0,
        cgroup: None,
        systemd_service: None,
        container_id: None,
        runtime_hint: None,
    };
    let local = AddressPort {
        address: "127.0.0.1".to_string(),
        port: 50_000,
    };
    let remote = AddressPort {
        address: "127.0.0.1".to_string(),
        port: 443,
    };
    FlowContext {
        id: FlowIdentity::stable(&process, &local, &remote, TransportProtocol::Tcp, 1, None),
        process: ProcessContext {
            identity: process,
            name: "demo".to_string(),
            cmdline: vec!["demo".to_string()],
        },
        local,
        remote,
        protocol: TransportProtocol::Tcp,
        start_monotonic_ns: 1,
        socket_cookie: None,
        attribution_confidence: 100,
    }
}

struct VecProvider {
    events: VecDeque<CaptureEvent>,
}

impl VecProvider {
    fn new(events: impl IntoIterator<Item = CaptureEvent>) -> Self {
        Self {
            events: events.into_iter().collect(),
        }
    }
}

impl CaptureProvider for VecProvider {
    fn name(&self) -> &'static str {
        "vec"
    }

    fn capabilities(&self) -> Vec<CapabilityState> {
        Vec::new()
    }

    fn poll_next(&mut self) -> Result<CapturePoll, CaptureError> {
        Ok(self
            .events
            .pop_front()
            .map(CapturePoll::event)
            .unwrap_or(CapturePoll::Finished))
    }
}

struct ErrorProvider;

impl CaptureProvider for ErrorProvider {
    fn name(&self) -> &'static str {
        "error"
    }

    fn capabilities(&self) -> Vec<CapabilityState> {
        vec![CapabilityState::degraded(
            CapabilityKind::LibsslUprobe,
            "test sidecar starts degraded",
        )]
    }

    fn poll_next(&mut self) -> Result<CapturePoll, CaptureError> {
        Err(CaptureError::provider("error", "boom"))
    }
}

struct DropNotifyErrorProvider {
    dropped: Rc<Cell<bool>>,
}

impl CaptureProvider for DropNotifyErrorProvider {
    fn name(&self) -> &'static str {
        "drop_notify_error"
    }

    fn capabilities(&self) -> Vec<CapabilityState> {
        vec![CapabilityState::degraded(
            CapabilityKind::LibsslUprobe,
            "test sidecar starts degraded",
        )]
    }

    fn poll_next(&mut self) -> Result<CapturePoll, CaptureError> {
        Err(CaptureError::provider("drop_notify_error", "boom"))
    }
}

impl Drop for DropNotifyErrorProvider {
    fn drop(&mut self) {
        self.dropped.set(true);
    }
}

struct IdleThenProvider {
    idle_before_event: u8,
    event: Option<CaptureEvent>,
}

impl CaptureProvider for IdleThenProvider {
    fn name(&self) -> &'static str {
        "idle_then"
    }

    fn capabilities(&self) -> Vec<CapabilityState> {
        Vec::new()
    }

    fn poll_next(&mut self) -> Result<CapturePoll, CaptureError> {
        if self.idle_before_event > 0 {
            self.idle_before_event -= 1;
            return Ok(CapturePoll::Idle);
        }
        Ok(self
            .event
            .take()
            .map(CapturePoll::event)
            .unwrap_or(CapturePoll::Finished))
    }
}

struct ProgressThenProvider {
    progressed: bool,
    event: Option<CaptureEvent>,
}

impl CaptureProvider for ProgressThenProvider {
    fn name(&self) -> &'static str {
        "progress_then"
    }

    fn capabilities(&self) -> Vec<CapabilityState> {
        Vec::new()
    }

    fn poll_next(&mut self) -> Result<CapturePoll, CaptureError> {
        if !self.progressed {
            self.progressed = true;
            return Ok(CapturePoll::Progress);
        }
        Ok(self
            .event
            .take()
            .map(CapturePoll::event)
            .unwrap_or(CapturePoll::Finished))
    }
}
