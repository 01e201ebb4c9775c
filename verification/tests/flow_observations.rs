use std::{cell::RefCell, collections::VecDeque, rc::Rc};

use capture::libpcap::flow::ledger::ProcessLedger;
use capture::libpcap::decoder::{DecodedTcpSegment, TcpFlags};
use capture::libpcap::flow::candidate::{flow_from_decoded, synthetic_libpcap_process};
use capture::libpcap::flow::model::FlowEnd;
use capture::libpcap::flow::tracker::FlowTracker;
use capture::libpcap::flow::tracking::{
    FLOW_IDLE_TIMEOUT_UNIX_NS, MAX_FLOW_TRACKER_CONNECTIONS,
};
use capture::{
    CaptureError, Direction, IpAddress, ProcessContext, ProcessIdentity, ProcessResolver,
    ResolvedProcess, TcpConnection, TcpEndpoint, Timestamp,
};

#[test]
fn flow_builds_stable_flow_for_opposite_http_directions() {
    let request = DecodedTcpSegment {
        source: ipv4(10, 0, 0, 1),
        destination: ipv4(10, 0, 0, 2),
        source_port: 50_000,
        destination_port: 80,
        sequence: 100,
        acknowledgment: 0,
        flags: default_flags(),
        payload: b"GET / HTTP/1.1\r\n\r\n",
    };
    let response = DecodedTcpSegment {
        source: ipv4(10, 0, 0, 2),
        destination: ipv4(10, 0, 0, 1),
        source_port: 80,
        destination_port: 50_000,
        sequence: 200,
        acknowledgment: 0,
        flags: default_flags(),
        payload: b"HTTP/1.1 200 OK\r\n\r\n",
    };

    let process = synthetic_libpcap_process();
    let request_flow = flow_from_decoded(&request, Direction::Outbound, process.clone(), 0, 7);
    let response_flow = flow_from_decoded(&response, Direction::Inbound, process, 0, 7);

    assert_eq!(request_flow.id, response_flow.id);
    assert_eq!(request_flow.local.address, "10.0.0.1");
    assert_eq!(request_flow.remote.address, "10.0.0.2");
    assert_eq!(request_flow.attribution_confidence, 0);
    assert_eq!(request_flow.start_monotonic_ns, 7);
}

#[test]
fn flow_direction_tracker_keeps_response_body_inbound_after_response_headers() {
    let response_headers = DecodedTcpSegment {
        source: ipv4(10, 0, 0, 2),
        destination: ipv4(10, 0, 0, 1),
        source_port: 80,
        destination_port: 50_000,
        sequence: 200,
        acknowledgment: 0,
        flags: default_flags(),
        payload: b"HTTP/1.1 200 OK\r\nContent-Length: 5\r\n\r\n",
    };
    let response_body = DecodedTcpSegment {
        source: ipv4(10, 0, 0, 2),
        destination: ipv4(10, 0, 0, 1),
        source_port: 80,
        destination_port: 50_000,
        sequence: 240,
        acknowledgment: 0,
        flags: default_flags(),
        payload: b"hello",
    };
    let mut tracker = FlowTracker::default();
    let mut resolver = ProcessLedger::new(None);

    assert_eq!(
        tracker
            .observe(&response_headers, timestamp(1, 1), &mut resolver)
            .payload
            .direction,
        Direction::Inbound
    );
    assert_eq!(
        tracker
            .observe(&response_body, timestamp(2, 2), &mut resolver)
            .payload
            .direction,
        Direction::Inbound
    );
}

#[test]
fn flow_procfs_resolution_can_select_local_server_for_http_request() {
    let request = DecodedTcpSegment {
        source: ipv4(10, 0, 0, 1),
        destination: ipv4(10, 0, 0, 2),
        source_port: 50_000,
        destination_port: 80,
        sequence: 100,
        acknowledgment: 0,
        flags: default_flags(),
        payload: b"GET / HTTP/1.1\r\n\r\n",
    };
    let resolver = StaticProcessResolver {
        connection: TcpConnection::new(
            TcpEndpoint::new(IpAddress::v4([10, 0, 0, 2]), 80),
            TcpEndpoint::new(IpAddress::v4([10, 0, 0, 1]), 50_000),
        ),
        process: demo_process(42, "server"),
        confidence: 60,
    };
    let mut resolver = ProcessLedger::new(Some(Box::new(resolver)));
    let mut tracker = FlowTracker::default();

    let observed = tracker.observe(&request, timestamp(1, 1), &mut resolver);

    assert_eq!(observed.payload.direction, Direction::Inbound);
    assert_eq!(observed.payload.flow.local.address, "10.0.0.2");
    assert_eq!(observed.payload.flow.remote.address, "10.0.0.1");
    assert_eq!(observed.payload.flow.process.identity.pid, 42);
    assert_eq!(observed.payload.flow.process.name, "server");
    assert_eq!(observed.payload.attribution_confidence, 60);
}

#[test]
fn flow_closed_flow_re_resolves_reused_four_tuple() {
    let first = DecodedTcpSegment {
        source: ipv4(10, 0, 0, 1),
        destination: ipv4(10, 0, 0, 2),
        source_port: 50_000,
        destination_port: 80,
        sequence: 100,
        acknowledgment: 0,
        flags: default_flags(),
        payload: b"GET /first HTTP/1.1\r\n\r\n",
    };
    let close = DecodedTcpSegment {
        flags: closing_flags(),
        payload: b"",
        ..first
    };
    let peer_close = DecodedTcpSegment {
        source: first.destination,
        destination: first.source,
        source_port: first.destination_port,
        destination_port: first.source_port,
        sequence: 200,
        acknowledgment: 0,
        flags: closing_flags(),
        payload: b"",
    };
    let second = DecodedTcpSegment {
        sequence: 300,
        payload: b"GET /second HTTP/1.1\r\n\r\n",
        ..first
    };
    let mut resolver = ProcessLedger::new(Some(Box::new(SequenceResolver {
        connection: TcpConnection::new(
            TcpEndpoint::new(IpAddress::v4([10, 0, 0, 1]), 50_000),
            TcpEndpoint::new(IpAddress::v4([10, 0, 0, 2]), 80),
        ),
        responses: VecDeque::from([
            ResolvedProcess {
                process: demo_process(1, "first"),
                confidence: 60,
            },
            ResolvedProcess {
                process: demo_process(2, "second"),
                confidence: 60,
            },
        ]),
    })));
    let mut tracker = FlowTracker::default();

    let first_observed = tracker.observe(&first, timestamp(10, 10), &mut resolver);
    tracker.observe_lifecycle(&close, timestamp(11, 11), &mut resolver);
    tracker.observe_lifecycle(&peer_close, timestamp(12, 12), &mut resolver);
    let second_observed = tracker.observe(&second, timestamp(12, 12), &mut resolver);

    assert_eq!(first_observed.payload.flow.process.identity.pid, 1);
    assert_eq!(second_observed.payload.flow.process.identity.pid, 2);
    assert_ne!(first_observed.payload.flow.id, second_observed.payload.flow.id);
}

#[test]
fn flow_half_closed_flow_keeps_peer_response_on_same_flow() {
    let request = DecodedTcpSegment {
        source: ipv4(10, 0, 0, 1),
        destination: ipv4(10, 0, 0, 2),
        source_port: 50_000,
        destination_port: 80,
        sequence: 100,
        acknowledgment: 0,
        flags: default_flags(),
        payload: b"GET / HTTP/1.1\r\n\r\n",
    };
    let client_fin = DecodedTcpSegment {
        flags: closing_flags(),
        payload: b"",
        ..request
    };
    let response = DecodedTcpSegment {
        source: ipv4(10, 0, 0, 2),
        destination: ipv4(10, 0, 0, 1),
        source_port: 80,
        destination_port: 50_000,
        sequence: 200,
        acknowledgment: 0,
        flags: default_flags(),
        payload: b"HTTP/1.1 200 OK\r\nContent-Length: 0\r\n\r\n",
    };
    let mut resolver = ProcessLedger::new(Some(Box::new(SequenceResolver {
        connection: TcpConnection::new(
            TcpEndpoint::new(IpAddress::v4([10, 0, 0, 1]), 50_000),
            TcpEndpoint::new(IpAddress::v4([10, 0, 0, 2]), 80),
        ),
        responses: VecDeque::from([ResolvedProcess {
            process: demo_process(1, "client"),
            confidence: 60,
        }]),
    })));
    let mut tracker = FlowTracker::default();

    let request_observed = tracker.observe(&request, timestamp(10, 10), &mut resolver);
    tracker.observe_lifecycle(&client_fin, timestamp(11, 11), &mut resolver);
    let response_observed = tracker.observe(&response, timestamp(12, 12), &mut resolver);

    assert_eq!(request_observed.payload.flow.id, response_observed.payload.flow.id);
    assert_eq!(response_observed.payload.flow.process.identity.pid, 1);
    assert_eq!(response_observed.payload.direction, Direction::Inbound);
}

#[test]
fn flow_payload_fin_closes_current_flow_after_bytes() {
    let request = DecodedTcpSegment {
        source: ipv4(10, 0, 0, 1),
        destination: ipv4(10, 0, 0, 2),
        source_port: 50_000,
        destination_port: 80,
        sequence: 100,
        acknowledgment: 0,
        flags: default_flags(),
        payload: b"GET / HTTP/1.1\r\n\r\n",
    };
    let client_fin = DecodedTcpSegment {
        flags: closing_flags(),
        payload: b"",
        ..request
    };
    let response_fin = DecodedTcpSegment {
        source: ipv4(10, 0, 0, 2),
        destination: ipv4(10, 0, 0, 1),
        source_port: 80,
        destination_port: 50_000,
        sequence: 200,
        acknowledgment: 0,
        flags: closing_flags(),
        payload: b"HTTP/1.1 200 OK\r\nContent-Length: 0\r\n\r\n",
    };
    let mut resolver = ProcessLedger::new(Some(Box::new(SequenceResolver {
        connection: TcpConnection::new(
            TcpEndpoint::new(IpAddress::v4([10, 0, 0, 1]), 50_000),
            TcpEndpoint::new(IpAddress::v4([10, 0, 0, 2]), 80),
        ),
        responses: VecDeque::from([ResolvedProcess {
            process: demo_process(1, "client"),
            confidence: 60,
        }]),
    })));
    let mut tracker = FlowTracker::default();

    let request_observed = tracker.observe(&request, timestamp(10, 10), &mut resolver);
    let client_lifecycle = tracker.observe_lifecycle(&client_fin, timestamp(11, 11), &mut resolver);
    assert!(client_lifecycle.before_lifecycle_closures.is_empty());
    assert!(!matches!(
        client_lifecycle.after_lifecycle,
        Some(FlowEnd::Close(_))
    ));
    let response_observed = tracker.observe(&response_fin, timestamp(12, 12), &mut resolver);

    assert_eq!(request_observed.payload.flow.id, response_observed.payload.flow.id);
    assert!(response_observed.before_payload_closures.is_empty());
    let closed_after = match response_observed.after_payload.as_ref() {
        Some(FlowEnd::Close(closure)) => Some(closure.flow.id.clone()),
        Some(FlowEnd::Finalize(_)) | None => None,
    };
    assert_eq!(closed_after, Some(request_observed.payload.flow.id));
}

#[test]
fn flow_idle_flow_re_resolves_reused_four_tuple() {
    let first = DecodedTcpSegment {
        source: ipv4(10, 0, 0, 1),
        destination: ipv4(10, 0, 0, 2),
        source_port: 50_000,
        destination_port: 80,
        sequence: 100,
        acknowledgment: 0,
        flags: default_flags(),
        payload: b"GET /first HTTP/1.1\r\n\r\n",
    };
    let second = DecodedTcpSegment {
        sequence: 300,
        payload: b"GET /second HTTP/1.1\r\n\r\n",
        ..first
    };
    let mut resolver = ProcessLedger::new(Some(Box::new(SequenceResolver {
        connection: TcpConnection::new(
            TcpEndpoint::new(IpAddress::v4([10, 0, 0, 1]), 50_000),
            TcpEndpoint::new(IpAddress::v4([10, 0, 0, 2]), 80),
        ),
        responses: VecDeque::from([
            ResolvedProcess {
                process: demo_process(1, "first"),
                confidence: 60,
            },
            ResolvedProcess {
                process: demo_process(2, "second"),
                confidence: 60,
            },
        ]),
    })));
    let mut tracker = FlowTracker::default();

    let first_observed = tracker.observe(&first, timestamp(10, 10), &mut resolver);
    let second_observed = tracker.observe(
        &second,
        timestamp(12, FLOW_IDLE_TIMEOUT_UNIX_NS + 11),
        &mut resolver,
    );

    assert_eq!(first_observed.payload.flow.process.identity.pid, 1);
    assert_eq!(second_observed.before_payload_closures.len(), 1);
    assert_eq!(second_observed.before_payload_closures[0].flow.id, first_observed.payload.flow.id);
    assert_eq!(second_observed.payload.flow.process.identity.pid, 2);
    assert_ne!(first_observed.payload.flow.id, second_observed.payload.flow.id);
}

#[test]
fn flow_idle_eviction_invalidates_resolver_snapshot_before_re_resolve() {
    let first = DecodedTcpSegment {
        source: ipv4(10, 0, 0, 1),
        destination: ipv4(10, 0, 0, 2),
        source_port: 50_000,
        destination_port: 80,
        sequence: 100,
        acknowledgment: 0,
        flags: default_flags(),
        payload: b"GET /first HTTP/1.1\r\n\r\n",
    };
    let second = DecodedTcpSegment {
        sequence: 300,
        payload: b"GET /second HTTP/1.1\r\n\r\n",
        ..first
    };
    let operations = Rc::new(RefCell::new(Vec::new()));
    let mut resolver = ProcessLedger::new(Some(Box::new(InvalidationTrackingResolver {
            connection: TcpConnection::new(
                TcpEndpoint::new(IpAddress::v4([10, 0, 0, 1]), 50_000),
                TcpEndpoint::new(IpAddress::v4([10, 0, 0, 2]), 80),
            ),
            responses: VecDeque::from([
                ResolvedProcess {
                    process: demo_process(1, "first"),
                    confidence: 60,
                },
                ResolvedProcess {
                    process: demo_process(2, "second"),
                    confidence: 60,
                },
            ]),
            operations: Rc::clone(&operations),
        })));
    let mut tracker = FlowTracker::default();

    tracker.observe(&first, timestamp(10, 10), &mut resolver);
    tracker.observe(
        &second,
        timestamp(12, FLOW_IDLE_TIMEOUT_UNIX_NS + 11),
        &mut resolver,
    );

    assert_eq!(
        operations.borrow().as_slice(),
        ["resolve", "invalidate", "resolve"]
    );
}

#[test]
fn flow_syn_reuse_closes_stale_flow_and_re_resolves_four_tuple() {
    let first = DecodedTcpSegment {
        source: ipv4(10, 0, 0, 1),
        destination: ipv4(10, 0, 0, 2),
        source_port: 50_000,
        destination_port: 80,
        sequence: 100,
        acknowledgment: 0,
        flags: default_flags(),
        payload: b"GET /first HTTP/1.1\r\n\r\n",
    };
    let reused_syn = DecodedTcpSegment {
        sequence: 300,
        acknowledgment: 0,
        flags: syn_flags(),
        payload: b"",
        ..first
    };
    let second = DecodedTcpSegment {
        sequence: 301,
        payload: b"GET /second HTTP/1.1\r\n\r\n",
        ..first
    };
    let mut resolver = ProcessLedger::new(Some(Box::new(SequenceResolver {
        connection: TcpConnection::new(
            TcpEndpoint::new(IpAddress::v4([10, 0, 0, 1]), 50_000),
            TcpEndpoint::new(IpAddress::v4([10, 0, 0, 2]), 80),
        ),
        responses: VecDeque::from([
            ResolvedProcess {
                process: demo_process(1, "first"),
                confidence: 60,
            },
            ResolvedProcess {
                process: demo_process(2, "second"),
                confidence: 60,
            },
        ]),
    })));
    let mut tracker = FlowTracker::default();

    let first_observed = tracker.observe(&first, timestamp(10, 10), &mut resolver);
    let closed = tracker
        .observe_lifecycle(&reused_syn, timestamp(11, 11), &mut resolver)
        .before_lifecycle_closures
        .into_iter()
        .next()
        .expect("syn reuse should close stale flow");
    let second_observed = tracker.observe(&second, timestamp(12, 12), &mut resolver);

    assert_eq!(closed.flow.id, first_observed.payload.flow.id);
    assert_eq!(second_observed.payload.flow.process.identity.pid, 2);
    assert_ne!(first_observed.payload.flow.id, second_observed.payload.flow.id);
}

#[test]
fn flow_full_table_does_not_evict_when_observing_existing_flow() {
    let first = DecodedTcpSegment {
        source: ipv4(10, 0, 0, 1),
        destination: ipv4(10, 0, 0, 2),
        source_port: 50_000,
        destination_port: 80,
        sequence: 100,
        acknowledgment: 0,
        flags: default_flags(),
        payload: b"GET /first HTTP/1.1\r\n\r\n",
    };
    let first_followup = DecodedTcpSegment {
        sequence: 101,
        payload: b"GET /followup HTTP/1.1\r\n\r\n",
        ..first
    };
    let mut resolver = ProcessLedger::new(None);
    let mut tracker = FlowTracker::default();

    let first_observed = tracker.observe(&first, timestamp(1, 1), &mut resolver);
    for index in 1..MAX_FLOW_TRACKER_CONNECTIONS {
        let segment = DecodedTcpSegment {
            source: ipv4(10, 1, (index / 256) as u8, (index % 256) as u8),
            destination: ipv4(10, 2, (index / 256) as u8, (index % 256) as u8),
            source_port: 10_000 + (index % 50_000) as u16,
            destination_port: 80,
            sequence: index as u32,
            acknowledgment: 0,
            flags: default_flags(),
            payload: b"GET /fill HTTP/1.1\r\n\r\n",
        };
        tracker.observe(
            &segment,
            timestamp(index as u64 + 1, index as i64 + 1),
            &mut resolver,
        );
    }

    let observed = tracker.observe(
        &first_followup,
        timestamp((MAX_FLOW_TRACKER_CONNECTIONS + 2) as u64, 10_000_000),
        &mut resolver,
    );

    assert!(observed.before_payload_closures.is_empty());
    assert_eq!(observed.payload.flow.id, first_observed.payload.flow.id);
}

struct StaticProcessResolver {
    connection: TcpConnection,
    process: ProcessContext,
    confidence: u8,
}

impl ProcessResolver for StaticProcessResolver {
    fn resolve_tcp_process(
        &mut self,
        connection: TcpConnection,
    ) -> Result<Option<ResolvedProcess>, CaptureError> {
        Ok(if connection == self.connection {
            Some(ResolvedProcess {
            process: self.process.clone(),
            confidence: self.confidence,
        })
        } else {
            None
        })
    }
}

struct SequenceResolver {
    connection: TcpConnection,
    responses: VecDeque<ResolvedProcess>,
}

impl ProcessResolver for SequenceResolver {
    fn resolve_tcp_process(
        &mut self,
        connection: TcpConnection,
    ) -> Result<Option<ResolvedProcess>, CaptureError> {
        Ok(if connection == self.connection {
            self.responses.pop_front()
        } else {
            None
        })
    }
}

struct InvalidationTrackingResolver {
    connection: TcpConnection,
    responses: VecDeque<ResolvedProcess>,
    operations: Rc<RefCell<Vec<&'static str>>>,
}

impl ProcessResolver for InvalidationTrackingResolver {
    fn resolve_tcp_process(
        &mut self,
        connection: TcpConnection,
    ) -> Result<Option<ResolvedProcess>, CaptureError> {
        self.operations.borrow_mut().push("resolve");
        Ok(if connection == self.connection {
            self.responses.pop_front()
        } else {
            None
        })
    }

    fn invalidate_cached_resolution(&mut self) {
        self.operations.borrow_mut().push("invalidate");
    }
}

fn timestamp(monotonic_ns: u64, wall_time_unix_ns: i64) -> Timestamp {
    Timestamp {
        monotonic_ns,
        wall_time_unix_ns,
    }
}

fn ipv4(a: u8, b: u8, c: u8, d: u8) -> IpAddress {
    IpAddress::v4([a, b, c, d])
}

fn default_flags() -> TcpFlags {
    TcpFlags {
        syn: false,
        ack: true,
        fin: false,
        rst: false,
    }
}

fn closing_flags() -> TcpFlags {
    TcpFlags {
        syn: false,
        ack: true,
        fin: true,
        rst: false,
    }
}

fn syn_flags() -> TcpFlags {
    TcpFlags {
        syn: true,
        ack: false,
        fin: false,
        rst: false,
    }
}

fn demo_process(pid: u32, name: &str) -> ProcessContext {
    ProcessContext {
        identity: ProcessIdentity {
            pid,
            tgid: pid,
            start_time_ticks: 1,
            boot_id: "boot".to_string(),
            exe_path: format!("/usr/bin/{name}"),
            cmdline_hash: "hash".to_string(),
            uid: 1000,
            gid: 1000,
            cgroup: None,
            systemd_service: None,
            container_id: None,
            runtime_hint: None,
        },
        name: name.to_string(),
        cmdline: vec![name.to_string()],
    }
}
