use std::{cell::RefCell, collections::VecDeque, rc::Rc};

use capture::libpcap::flow::ledger::ProcessLedger;
use capture::libpcap::decoder::{DecodedTcpSegment, TcpFlags};
use capture::libpcap::flow::candidate::{flow_from_decoded, synthetic_libpcap_process};
use capture::libpcap::flow::model::{FlowClosure, FlowEnd, FlowPayloadObservation};
use capture::libpcap::flow::tracker::FlowTracker;
use capture::libpcap::flow::tracking::{
    FLOW_IDLE_TIMEOUT_UNIX_NS, MAX_FLOW_TRACKER_CONNECTIONS,
};
use capture::libpcap::tcp_seq;
use capture::{
    CaptureError, Direction, IpAddress, ProcessContext, ProcessIdentity, ProcessResolver,
    ResolvedProcess, TcpConnection, TcpEndpoint, Timestamp,
};

#[test]
fn tracker_builds_stable_flow_for_opposite_http_directions() {
    let request = DecodedTcpSegment {
        source: ipv4(10, 0, 0, 1),
        destination: ipv4(10, 0, 0, 2),
        source_port: 50_000,
        destination_port: 80,
        sequence: 100,
        acknowledgment: 0,
        flags: default_flags(),
        payload: b"GET / HTTP/1.1\r\n\r\n",
    };
    let response = DecodedTcpSegment {
        source: ipv4(10, 0, 0, 2),
        destination: ipv4(10, 0, 0, 1),
        source_port: 80,
        destination_port: 50_000,
        sequence: 200,
        acknowledgment: 0,
        flags: default_flags(),
        payload: b"HTTP/1.1 200 OK\r\n\r\n",
    };

    let process = synthetic_libpcap_process();
    let request_flow = flow_from_decoded(&request, Direction::Outbound, process.clone(), 0, 7);
    let response_flow = flow_from_decoded(&response, Direction::Inbound, process, 0, 7);

    assert_eq!(request_flow.id, response_flow.id);
    assert_eq!(request_flow.local.address, "10.0.0.1");
    assert_eq!(request_flow.remote.address, "10.0.0.2");
    assert_eq!(request_flow.attribution_confidence, 0);
    assert_eq!(request_flow.start_monotonic_ns, 7);
}

#[test]
fn tracker_direction_tracker_keeps_response_body_inbound_after_response_headers() {
    let response_headers = DecodedTcpSegment {
        source: ipv4(10, 0, 0, 2),
        destination: ipv4(10, 0, 0, 1),
        source_port: 80,
        destination_port: 50_000,
        sequence: 200,
        acknowledgment: 0,
        flags: default_flags(),
        payload: b"HTTP/1.1 200 OK\r\nContent-Length: 5\r\n\r\n",
    };
    let response_body = DecodedTcpSegment {
        source: ipv4(10, 0, 0, 2),
        destination: ipv4(10, 0, 0, 1),
        source_port: 80,
        destination_port: 50_000,
        sequence: 240,
        acknowledgment: 0,
        flags: default_flags(),
        payload: b"hello",
    };
    let mut tracker = FlowTracker::default();
    let mut resolver = ProcessLedger::new(None);

    assert_eq!(
        tracker
            .observe(&response_headers, timestamp(1, 1), &mut resolver)
            .payload
            .direction,
        Direction::Inbound
    );
    assert_eq!(
        tracker
            .observe(&response_body, timestamp(2, 2), &mut resolver)
            .payload
            .direction,
        Direction::Inbound
    );
}

#[test]
fn tracker_procfs_resolution_can_select_local_server_for_http_request() {
    let request = DecodedTcpSegment {
        source: ipv4(10, 0, 0, 1),
        destination: ipv4(10, 0, 0, 2),
        source_port: 50_000,
        destination_port: 80,
        sequence: 100,
        acknowledgment: 0,
        flags: default_flags(),
        payload: b"GET / HTTP/1.1\r\n\r\n",
    };
    let resolver = StaticProcessResolver {
        connection: TcpConnection::new(
            TcpEndpoint::new(IpAddress::v4([10, 0, 0, 2]), 80),
            TcpEndpoint::new(IpAddress::v4([10, 0, 0, 1]), 50_000),
        ),
        process: demo_process(42, "server"),
        confidence: 60,
    };
    let mut resolver = ProcessLedger::new(Some(Box::new(resolver)));
    let mut tracker = FlowTracker::default();

    let observed = tracker
        .observe(&request, timestamp(1, 1), &mut resolver)
        .payload;

    assert_eq!(observed.direction, Direction::Inbound);
    assert_eq!(observed.flow.local.address, "10.0.0.2");
    assert_eq!(observed.flow.remote.address, "10.0.0.1");
    assert_eq!(observed.flow.process.identity.pid, 42);
    assert_eq!(observed.flow.process.name, "server");
    assert_eq!(observed.attribution_confidence, 60);
}

#[test]
fn listener_resolution_prefers_server_side_for_http_request() {
    let request = DecodedTcpSegment {
        source: ipv4(10, 0, 0, 1),
        destination: ipv4(10, 0, 0, 2),
        source_port: 50_000,
        destination_port: 80,
        sequence: 100,
        acknowledgment: 0,
        flags: default_flags(),
        payload: b"GET / HTTP/1.1\r\n\r\n",
    };
    let mut resolver = ProcessLedger::new(Some(Box::new(EndpointOnlyListenerResolver {
            listener: TcpEndpoint::new(IpAddress::v4([10, 0, 0, 2]), 80),
            listener_process: demo_process(42, "server"),
        })));
    let mut tracker = FlowTracker::default();

    let observed = tracker
        .observe(&request, timestamp(1, 1), &mut resolver)
        .payload;

    assert_eq!(observed.direction, Direction::Inbound);
    assert_eq!(observed.flow.local.address, "10.0.0.2");
    assert_eq!(observed.flow.remote.address, "10.0.0.1");
    assert_eq!(observed.flow.process.identity.pid, 42);
    assert_eq!(observed.flow.process.name, "server");
    assert_eq!(observed.attribution_confidence, 60);
}

#[test]
fn exact_connection_attribution_outranks_unrelated_port_listener() {
    let request = DecodedTcpSegment {
        source: ipv4(10, 0, 0, 2),
        destination: ipv4(93, 184, 216, 34),
        source_port: 50_000,
        destination_port: 80,
        sequence: 100,
        acknowledgment: 0,
        flags: default_flags(),
        payload: b"GET / HTTP/1.1\r\n\r\n",
    };
    let mut resolver = ProcessLedger::new(Some(Box::new(ConnectionAndPortListenerResolver {
            connection: TcpConnection::new(
                TcpEndpoint::new(IpAddress::v4([10, 0, 0, 2]), 50_000),
                TcpEndpoint::new(IpAddress::v4([93, 184, 216, 34]), 80),
            ),
            port: 80,
            connection_process: demo_process(7, "client"),
            listener_process: demo_process(42, "local-server"),
        })));
    let mut tracker = FlowTracker::default();

    let observed = tracker
        .observe(&request, timestamp(1, 1), &mut resolver)
        .payload;

    assert_eq!(observed.direction, Direction::Outbound);
    assert_eq!(observed.flow.local.address, "10.0.0.2");
    assert_eq!(observed.flow.remote.address, "93.184.216.34");
    assert_eq!(observed.flow.process.identity.pid, 7);
    assert_eq!(observed.flow.process.name, "client");
    assert_eq!(observed.attribution_confidence, 65);
}

#[test]
fn listener_port_resolution_handles_rewritten_listener_addresses() {
    let request = DecodedTcpSegment {
        source: ipv4(10, 0, 0, 1),
        destination: ipv4(10, 0, 0, 2),
        source_port: 50_000,
        destination_port: 80,
        sequence: 100,
        acknowledgment: 0,
        flags: default_flags(),
        payload: b"GET / HTTP/1.1\r\n\r\n",
    };
    let mut resolver = ProcessLedger::new(Some(Box::new(PortOnlyListenerResolver {
            port: 80,
            listener_process: demo_process(42, "server"),
        })));
    let mut tracker = FlowTracker::default();

    let observed = tracker
        .observe(&request, timestamp(1, 1), &mut resolver)
        .payload;

    assert_eq!(observed.direction, Direction::Inbound);
    assert_eq!(observed.flow.local.address, "10.0.0.2");
    assert_eq!(observed.flow.remote.address, "10.0.0.1");
    assert_eq!(observed.flow.process.identity.pid, 42);
    assert_eq!(observed.flow.process.name, "server");
    assert_eq!(observed.attribution_confidence, 55);
}

#[test]
fn syn_listener_resolution_preserves_process_for_late_payload() {
    let syn = DecodedTcpSegment {
        source: ipv4(10, 0, 0, 1),
        destination: ipv4(10, 0, 0, 2),
        source_port: 50_000,
        destination_port: 44_977,
        sequence: 100,
        acknowledgment: 0,
        flags: syn_flags(),
        payload: b"",
    };
    let request = DecodedTcpSegment {
        sequence: 101,
        acknowledgment: 0,
        flags: default_flags(),
        payload: b"GET / HTTP/1.1\r\n\r\n",
        ..syn
    };
    let mut resolver = ProcessLedger::new(Some(Box::new(ConnectionAndListenerResolver {
            connection: TcpConnection::new(
                TcpEndpoint::new(IpAddress::v4([10, 0, 0, 2]), 44_977),
                TcpEndpoint::new(IpAddress::v4([10, 0, 0, 1]), 50_000),
            ),
            listener: TcpEndpoint::new(IpAddress::v4([10, 0, 0, 2]), 44_977),
            connection_process: demo_process(42, "server"),
            listener_process: demo_process(42, "server"),
        })));
    let mut tracker = FlowTracker::default();

    let syn_observation = tracker.observe_lifecycle(&syn, timestamp(1, 1), &mut resolver);
    resolver = ProcessLedger::new(None);
    let observed = tracker
        .observe(&request, timestamp(2, 2), &mut resolver)
        .payload;

    assert!(syn_observation.before_lifecycle_closures.is_empty());
    assert!(syn_observation.after_lifecycle.is_none());
    assert_eq!(observed.direction, Direction::Inbound);
    assert_eq!(observed.flow.local.address, "10.0.0.2");
    assert_eq!(observed.flow.remote.address, "10.0.0.1");
    assert_eq!(observed.flow.process.identity.pid, 42);
    assert_eq!(observed.flow.process.name, "server");
    assert_eq!(observed.attribution_confidence, 60);
}

#[test]
fn syn_ack_listener_resolution_preserves_process_for_late_request_payload() {
    let syn_ack = DecodedTcpSegment {
        source: ipv4(10, 0, 0, 2),
        destination: ipv4(10, 0, 0, 1),
        source_port: 44_977,
        destination_port: 50_000,
        sequence: 200,
        acknowledgment: 101,
        flags: syn_ack_flags(),
        payload: b"",
    };
    let request = DecodedTcpSegment {
        source: syn_ack.destination,
        destination: syn_ack.source,
        source_port: syn_ack.destination_port,
        destination_port: syn_ack.source_port,
        sequence: 100,
        acknowledgment: 0,
        flags: default_flags(),
        payload: b"GET / HTTP/1.1\r\n\r\n",
    };
    let mut resolver = ProcessLedger::new(Some(Box::new(ConnectionAndListenerResolver {
            connection: TcpConnection::new(
                TcpEndpoint::new(IpAddress::v4([10, 0, 0, 2]), 44_977),
                TcpEndpoint::new(IpAddress::v4([10, 0, 0, 1]), 50_000),
            ),
            listener: TcpEndpoint::new(IpAddress::v4([10, 0, 0, 2]), 44_977),
            connection_process: demo_process(42, "server"),
            listener_process: demo_process(42, "server"),
        })));
    let mut tracker = FlowTracker::default();

    let syn_observation = tracker.observe_lifecycle(&syn_ack, timestamp(1, 1), &mut resolver);
    resolver = ProcessLedger::new(None);
    let observed = tracker
        .observe(&request, timestamp(2, 2), &mut resolver)
        .payload;

    assert!(syn_observation.before_lifecycle_closures.is_empty());
    assert!(syn_observation.after_lifecycle.is_none());
    assert_eq!(observed.direction, Direction::Inbound);
    assert_eq!(observed.flow.local.address, "10.0.0.2");
    assert_eq!(observed.flow.remote.address, "10.0.0.1");
    assert_eq!(observed.flow.process.identity.pid, 42);
    assert_eq!(observed.flow.process.name, "server");
    assert_eq!(observed.attribution_confidence, 60);
}

#[test]
fn syn_ack_after_syn_stays_on_existing_flow() {
    let syn = DecodedTcpSegment {
        source: ipv4(10, 0, 0, 1),
        destination: ipv4(10, 0, 0, 2),
        source_port: 50_000,
        destination_port: 44_977,
        sequence: 100,
        acknowledgment: 0,
        flags: syn_flags(),
        payload: b"",
    };
    let syn_ack = DecodedTcpSegment {
        source: syn.destination,
        destination: syn.source,
        source_port: syn.destination_port,
        destination_port: syn.source_port,
        sequence: 200,
        acknowledgment: 101,
        flags: syn_ack_flags(),
        payload: b"",
    };
    let request = DecodedTcpSegment {
        sequence: 101,
        acknowledgment: 0,
        flags: default_flags(),
        payload: b"GET / HTTP/1.1\r\n\r\n",
        ..syn
    };
    let mut resolver = ProcessLedger::new(Some(Box::new(ConnectionAndListenerResolver {
            connection: TcpConnection::new(
                TcpEndpoint::new(IpAddress::v4([10, 0, 0, 2]), 44_977),
                TcpEndpoint::new(IpAddress::v4([10, 0, 0, 1]), 50_000),
            ),
            listener: TcpEndpoint::new(IpAddress::v4([10, 0, 0, 2]), 44_977),
            connection_process: demo_process(42, "server"),
            listener_process: demo_process(42, "server"),
        })));
    let mut tracker = FlowTracker::default();

    tracker.observe_lifecycle(&syn, timestamp(1, 1), &mut resolver);
    resolver = ProcessLedger::new(None);
    let syn_ack_observation =
        tracker.observe_lifecycle(&syn_ack, timestamp(2, 2), &mut resolver);
    let observed = tracker
        .observe(&request, timestamp(3, 3), &mut resolver)
        .payload;

    assert!(syn_ack_observation.before_lifecycle_closures.is_empty());
    assert!(syn_ack_observation.after_lifecycle.is_none());
    assert_eq!(observed.direction, Direction::Inbound);
    assert_eq!(observed.flow.local.address, "10.0.0.2");
    assert_eq!(observed.flow.remote.address, "10.0.0.1");
    assert_eq!(observed.flow.process.identity.pid, 42);
    assert_eq!(observed.flow.process.name, "server");
    assert_eq!(observed.attribution_confidence, 60);
}

#[test]
fn syn_ack_with_wrong_ack_closes_stale_flow() {
    let syn = DecodedTcpSegment {
        source: ipv4(10, 0, 0, 1),
        destination: ipv4(10, 0, 0, 2),
        source_port: 50_000,
        destination_port: 44_977,
        sequence: 100,
        acknowledgment: 0,
        flags: syn_flags(),
        payload: b"",
    };
    let stale_syn_ack = DecodedTcpSegment {
        source: syn.destination,
        destination: syn.source,
        source_port: syn.destination_port,
        destination_port: syn.source_port,
        sequence: 200,
        acknowledgment: 999,
        flags: syn_ack_flags(),
        payload: b"",
    };
    let mut resolver = ProcessLedger::new(Some(Box::new(ConnectionAndListenerResolver {
            connection: TcpConnection::new(
                TcpEndpoint::new(IpAddress::v4([10, 0, 0, 1]), 50_000),
                TcpEndpoint::new(IpAddress::v4([10, 0, 0, 2]), 44_977),
            ),
            listener: TcpEndpoint::new(IpAddress::v4([10, 0, 0, 2]), 44_977),
            connection_process: demo_process(7, "client"),
            listener_process: demo_process(42, "server"),
        })));
    let mut tracker = FlowTracker::default();

    tracker.observe_lifecycle(&syn, timestamp(1, 1), &mut resolver);
    resolver = ProcessLedger::new(None);
    let observation = tracker.observe_lifecycle(&stale_syn_ack, timestamp(2, 2), &mut resolver);

    assert_eq!(observation.before_lifecycle_closures.len(), 1);
    assert!(observation.after_lifecycle.is_none());
}

#[test]
fn tracker_closed_flow_re_resolves_reused_four_tuple() {
    let first = DecodedTcpSegment {
        source: ipv4(10, 0, 0, 1),
        destination: ipv4(10, 0, 0, 2),
        source_port: 50_000,
        destination_port: 80,
        sequence: 100,
        acknowledgment: 0,
        flags: default_flags(),
        payload: b"GET /first HTTP/1.1\r\n\r\n",
    };
    let close = DecodedTcpSegment {
        flags: closing_flags(),
        payload: b"",
        ..first
    };
    let peer_close = DecodedTcpSegment {
        source: first.destination,
        destination: first.source,
        source_port: first.destination_port,
        destination_port: first.source_port,
        sequence: 200,
        acknowledgment: 0,
        flags: closing_flags(),
        payload: b"",
    };
    let second = DecodedTcpSegment {
        sequence: 300,
        payload: b"GET /second HTTP/1.1\r\n\r\n",
        ..first
    };
    let mut resolver = ProcessLedger::new(Some(Box::new(SequenceResolver {
        connection: TcpConnection::new(
            TcpEndpoint::new(IpAddress::v4([10, 0, 0, 1]), 50_000),
            TcpEndpoint::new(IpAddress::v4([10, 0, 0, 2]), 80),
        ),
        responses: VecDeque::from([
            ResolvedProcess {
                process: demo_process(1, "first"),
                confidence: 60,
            },
            ResolvedProcess {
                process: demo_process(2, "second"),
                confidence: 60,
            },
        ]),
    })));
    let mut tracker = FlowTracker::default();

    let first_observed = tracker
        .observe(&first, timestamp(10, 10), &mut resolver)
        .payload;
    tracker.observe_lifecycle(&close, timestamp(11, 11), &mut resolver);
    tracker.observe_lifecycle(&peer_close, timestamp(12, 12), &mut resolver);
    let second_observed = tracker
        .observe(&second, timestamp(12, 12), &mut resolver)
        .payload;

    assert_eq!(first_observed.flow.process.identity.pid, 1);
    assert_eq!(second_observed.flow.process.identity.pid, 2);
    assert_ne!(first_observed.flow.id, second_observed.flow.id);
}

#[test]
fn tracker_half_closed_flow_keeps_peer_response_on_same_flow() {
    let request = DecodedTcpSegment {
        source: ipv4(10, 0, 0, 1),
        destination: ipv4(10, 0, 0, 2),
        source_port: 50_000,
        destination_port: 80,
        sequence: 100,
        acknowledgment: 0,
        flags: default_flags(),
        payload: b"GET / HTTP/1.1\r\n\r\n",
    };
    let client_fin = DecodedTcpSegment {
        flags: closing_flags(),
        payload: b"",
        ..request
    };
    let response = DecodedTcpSegment {
        source: ipv4(10, 0, 0, 2),
        destination: ipv4(10, 0, 0, 1),
        source_port: 80,
        destination_port: 50_000,
        sequence: 200,
        acknowledgment: 0,
        flags: default_flags(),
        payload: b"HTTP/1.1 200 OK\r\nContent-Length: 0\r\n\r\n",
    };
    let mut resolver = ProcessLedger::new(Some(Box::new(SequenceResolver {
        connection: TcpConnection::new(
            TcpEndpoint::new(IpAddress::v4([10, 0, 0, 1]), 50_000),
            TcpEndpoint::new(IpAddress::v4([10, 0, 0, 2]), 80),
        ),
        responses: VecDeque::from([ResolvedProcess {
            process: demo_process(1, "client"),
            confidence: 60,
        }]),
    })));
    let mut tracker = FlowTracker::default();

    let request_observed = tracker
        .observe(&request, timestamp(10, 10), &mut resolver)
        .payload;
    tracker.observe_lifecycle(&client_fin, timestamp(11, 11), &mut resolver);
    let response_observed = tracker
        .observe(&response, timestamp(12, 12), &mut resolver)
        .payload;

    assert_eq!(request_observed.flow.id, response_observed.flow.id);
    assert_eq!(response_observed.flow.process.identity.pid, 1);
    assert_eq!(response_observed.direction, Direction::Inbound);
}

#[test]
fn payload_after_same_direction_close_starts_new_observation() {
    let request = DecodedTcpSegment {
        source: ipv4(10, 0, 0, 1),
        destination: ipv4(10, 0, 0, 2),
        source_port: 50_000,
        destination_port: 80,
        sequence: 100,
        acknowledgment: 0,
        flags: default_flags(),
        payload: b"GET / HTTP/1.1\r\n\r\n",
    };
    let client_fin = DecodedTcpSegment {
        sequence: tcp_seq::advance(request.sequence, request.payload.len()),
        flags: closing_flags(),
        payload: b"",
        ..request
    };
    let late_payload = DecodedTcpSegment {
        sequence: client_fin.sequence,
        acknowledgment: 0,
        flags: default_flags(),
        payload: b"late",
        ..request
    };
    let mut resolver = ProcessLedger::new(Some(Box::new(SequenceResolver {
        connection: TcpConnection::new(
            TcpEndpoint::new(IpAddress::v4([10, 0, 0, 1]), 50_000),
            TcpEndpoint::new(IpAddress::v4([10, 0, 0, 2]), 80),
        ),
        responses: VecDeque::from([
            ResolvedProcess {
                process: demo_process(1, "first"),
                confidence: 60,
            },
            ResolvedProcess {
                process: demo_process(2, "second"),
                confidence: 60,
            },
        ]),
    })));
    let mut tracker = FlowTracker::default();

    let request_observed = tracker
        .observe(&request, timestamp(10, 10), &mut resolver)
        .payload;
    let client_lifecycle =
        tracker.observe_lifecycle(&client_fin, timestamp(11, 11), &mut resolver);
    let late_transitions = tracker.observe(&late_payload, timestamp(12, 12), &mut resolver);
    let late_observed = &late_transitions.payload;
    let closed = before_payload_close_from(&late_transitions);

    assert!(matches!(
        client_lifecycle.after_lifecycle,
        Some(FlowEnd::Finalize(_))
    ));
    assert!(client_lifecycle.before_lifecycle_closures.is_empty());
    assert_eq!(closed.flow.id, request_observed.flow.id);
    assert_ne!(late_observed.flow.id, request_observed.flow.id);
    assert_eq!(late_observed.flow.process.identity.pid, 2);
}

#[test]
fn tracker_payload_fin_closes_current_flow_after_bytes() {
    let request = DecodedTcpSegment {
        source: ipv4(10, 0, 0, 1),
        destination: ipv4(10, 0, 0, 2),
        source_port: 50_000,
        destination_port: 80,
        sequence: 100,
        acknowledgment: 0,
        flags: default_flags(),
        payload: b"GET / HTTP/1.1\r\n\r\n",
    };
    let client_fin = DecodedTcpSegment {
        flags: closing_flags(),
        payload: b"",
        ..request
    };
    let response_fin = DecodedTcpSegment {
        source: ipv4(10, 0, 0, 2),
        destination: ipv4(10, 0, 0, 1),
        source_port: 80,
        destination_port: 50_000,
        sequence: 200,
        acknowledgment: 0,
        flags: closing_flags(),
        payload: b"HTTP/1.1 200 OK\r\nContent-Length: 0\r\n\r\n",
    };
    let mut resolver = ProcessLedger::new(Some(Box::new(SequenceResolver {
        connection: TcpConnection::new(
            TcpEndpoint::new(IpAddress::v4([10, 0, 0, 1]), 50_000),
            TcpEndpoint::new(IpAddress::v4([10, 0, 0, 2]), 80),
        ),
        responses: VecDeque::from([ResolvedProcess {
            process: demo_process(1, "client"),
            confidence: 60,
        }]),
    })));
    let mut tracker = FlowTracker::default();

    let request_observed = tracker
        .observe(&request, timestamp(10, 10), &mut resolver)
        .payload;
    let client_lifecycle =
        tracker.observe_lifecycle(&client_fin, timestamp(11, 11), &mut resolver);
    assert!(client_lifecycle.before_lifecycle_closures.is_empty());
    assert!(matches!(
        client_lifecycle.after_lifecycle,
        Some(FlowEnd::Finalize(_))
    ));
    let response_transitions = tracker.observe(&response_fin, timestamp(12, 12), &mut resolver);
    let response_observed = &response_transitions.payload;
    let closed = after_payload_close_from(&response_transitions);

    assert_eq!(request_observed.flow.id, response_observed.flow.id);
    assert_eq!(closed.flow.id, request_observed.flow.id);
}

#[test]
fn tracker_idle_flow_re_resolves_reused_four_tuple() {
    let first = DecodedTcpSegment {
        source: ipv4(10, 0, 0, 1),
        destination: ipv4(10, 0, 0, 2),
        source_port: 50_000,
        destination_port: 80,
        sequence: 100,
        acknowledgment: 0,
        flags: default_flags(),
        payload: b"GET /first HTTP/1.1\r\n\r\n",
    };
    let second = DecodedTcpSegment {
        sequence: 300,
        payload: b"GET /second HTTP/1.1\r\n\r\n",
        ..first
    };
    let mut resolver = ProcessLedger::new(Some(Box::new(SequenceResolver {
        connection: TcpConnection::new(
            TcpEndpoint::new(IpAddress::v4([10, 0, 0, 1]), 50_000),
            TcpEndpoint::new(IpAddress::v4([10, 0, 0, 2]), 80),
        ),
        responses: VecDeque::from([
            ResolvedProcess {
                process: demo_process(1, "first"),
                confidence: 60,
            },
            ResolvedProcess {
                process: demo_process(2, "second"),
                confidence: 60,
            },
        ]),
    })));
    let mut tracker = FlowTracker::default();

    let first_observed = tracker
        .observe(&first, timestamp(10, 10), &mut resolver)
        .payload;
    let second_transitions = tracker.observe(
        &second,
        timestamp(12, FLOW_IDLE_TIMEOUT_UNIX_NS + 11),
        &mut resolver,
    );
    let second_observed = &second_transitions.payload;
    let closed = before_payload_close_from(&second_transitions);

    assert_eq!(first_observed.flow.process.identity.pid, 1);
    assert_eq!(closed.flow.id, first_observed.flow.id);
    assert_eq!(second_observed.flow.process.identity.pid, 2);
    assert_ne!(first_observed.flow.id, second_observed.flow.id);
}

#[test]
fn tracker_idle_eviction_invalidates_resolver_snapshot_before_re_resolve() {
    let first = DecodedTcpSegment {
        source: ipv4(10, 0, 0, 1),
        destination: ipv4(10, 0, 0, 2),
        source_port: 50_000,
        destination_port: 80,
        sequence: 100,
        acknowledgment: 0,
        flags: default_flags(),
        payload: b"GET /first HTTP/1.1\r\n\r\n",
    };
    let second = DecodedTcpSegment {
        sequence: 300,
        payload: b"GET /second HTTP/1.1\r\n\r\n",
        ..first
    };
    let operations = Rc::new(RefCell::new(Vec::new()));
    let mut resolver = ProcessLedger::new(Some(Box::new(InvalidationTrackingResolver {
            connection: TcpConnection::new(
                TcpEndpoint::new(IpAddress::v4([10, 0, 0, 1]), 50_000),
                TcpEndpoint::new(IpAddress::v4([10, 0, 0, 2]), 80),
            ),
            responses: VecDeque::from([
                ResolvedProcess {
                    process: demo_process(1, "first"),
                    confidence: 60,
                },
                ResolvedProcess {
                    process: demo_process(2, "second"),
                    confidence: 60,
                },
            ]),
            operations: Rc::clone(&operations),
        })));
    let mut tracker = FlowTracker::default();

    tracker.observe(&first, timestamp(10, 10), &mut resolver);
    tracker.observe(
        &second,
        timestamp(12, FLOW_IDLE_TIMEOUT_UNIX_NS + 11),
        &mut resolver,
    );

    assert_eq!(
        operations.borrow().as_slice(),
        ["resolve", "invalidate", "resolve"]
    );
}

#[test]
fn tracker_syn_reuse_closes_stale_flow_and_re_resolves_four_tuple() {
    let first = DecodedTcpSegment {
        source: ipv4(10, 0, 0, 1),
        destination: ipv4(10, 0, 0, 2),
        source_port: 50_000,
        destination_port: 80,
        sequence: 100,
        acknowledgment: 0,
        flags: default_flags(),
        payload: b"GET /first HTTP/1.1\r\n\r\n",
    };
    let reused_syn = DecodedTcpSegment {
        sequence: 300,
        acknowledgment: 0,
        flags: syn_flags(),
        payload: b"",
        ..first
    };
    let second = DecodedTcpSegment {
        sequence: 301,
        payload: b"GET /second HTTP/1.1\r\n\r\n",
        ..first
    };
    let mut resolver = ProcessLedger::new(Some(Box::new(SequenceResolver {
        connection: TcpConnection::new(
            TcpEndpoint::new(IpAddress::v4([10, 0, 0, 1]), 50_000),
            TcpEndpoint::new(IpAddress::v4([10, 0, 0, 2]), 80),
        ),
        responses: VecDeque::from([
            ResolvedProcess {
                process: demo_process(1, "first"),
                confidence: 60,
            },
            ResolvedProcess {
                process: demo_process(2, "second"),
                confidence: 60,
            },
        ]),
    })));
    let mut tracker = FlowTracker::default();

    let first_observed = tracker
        .observe(&first, timestamp(10, 10), &mut resolver)
        .payload;
    let closed = tracker
        .observe_lifecycle(&reused_syn, timestamp(11, 11), &mut resolver)
        .before_lifecycle_closures
        .into_iter()
        .next()
        .expect("syn reuse should close stale flow");
    let second_observed = tracker
        .observe(&second, timestamp(12, 12), &mut resolver)
        .payload;

    assert_eq!(closed.flow.id, first_observed.flow.id);
    assert_eq!(second_observed.flow.process.identity.pid, 2);
    assert_ne!(first_observed.flow.id, second_observed.flow.id);
}

#[test]
fn retransmitted_syn_payload_stays_on_existing_flow() {
    let first = DecodedTcpSegment {
        source: ipv4(10, 0, 0, 1),
        destination: ipv4(10, 0, 0, 2),
        source_port: 50_000,
        destination_port: 80,
        sequence: 100,
        acknowledgment: 0,
        flags: syn_flags(),
        payload: b"GET /first HTTP/1.1\r\n\r\n",
    };
    let retransmitted = first;
    let mut resolver = ProcessLedger::new(Some(Box::new(SequenceResolver {
        connection: TcpConnection::new(
            TcpEndpoint::new(IpAddress::v4([10, 0, 0, 1]), 50_000),
            TcpEndpoint::new(IpAddress::v4([10, 0, 0, 2]), 80),
        ),
        responses: VecDeque::from([ResolvedProcess {
            process: demo_process(1, "first"),
            confidence: 60,
        }]),
    })));
    let mut tracker = FlowTracker::default();

    let first_observed = tracker
        .observe(&first, timestamp(10, 10), &mut resolver)
        .payload;
    let retransmitted_transitions =
        tracker.observe(&retransmitted, timestamp(11, 11), &mut resolver);
    let retransmitted_observed = &retransmitted_transitions.payload;

    assert!(retransmitted_transitions.before_payload_closures.is_empty());
    assert!(retransmitted_transitions.after_payload.is_none());
    assert_eq!(first_observed.flow.id, retransmitted_observed.flow.id);
}

#[test]
fn tracker_full_table_does_not_evict_when_observing_existing_flow() {
    let first = DecodedTcpSegment {
        source: ipv4(10, 0, 0, 1),
        destination: ipv4(10, 0, 0, 2),
        source_port: 50_000,
        destination_port: 80,
        sequence: 100,
        acknowledgment: 0,
        flags: default_flags(),
        payload: b"GET /first HTTP/1.1\r\n\r\n",
    };
    let first_followup = DecodedTcpSegment {
        sequence: 101,
        payload: b"GET /followup HTTP/1.1\r\n\r\n",
        ..first
    };
    let mut resolver = ProcessLedger::new(None);
    let mut tracker = FlowTracker::default();

    let first_observed = tracker
        .observe(&first, timestamp(1, 1), &mut resolver)
        .payload;
    for index in 1..MAX_FLOW_TRACKER_CONNECTIONS {
        let segment = DecodedTcpSegment {
            source: ipv4(10, 1, (index / 256) as u8, (index % 256) as u8),
            destination: ipv4(10, 2, (index / 256) as u8, (index % 256) as u8),
            source_port: 10_000 + (index % 50_000) as u16,
            destination_port: 80,
            sequence: index as u32,
            acknowledgment: 0,
            flags: default_flags(),
            payload: b"GET /fill HTTP/1.1\r\n\r\n",
        };
        tracker.observe(
            &segment,
            timestamp(index as u64 + 1, index as i64 + 1),
            &mut resolver,
        );
    }

    let observed = tracker.observe(
        &first_followup,
        timestamp((MAX_FLOW_TRACKER_CONNECTIONS + 2) as u64, 10_000_000),
        &mut resolver,
    );
    let observed_payload = &observed.payload;

    assert!(observed.before_payload_closures.is_empty());
    assert!(observed.after_payload.is_none());
    assert_eq!(observed_payload.flow.id, first_observed.flow.id);
}

#[test]
fn full_table_unresolved_syn_does_not_evict_existing_flow() {
    let first = DecodedTcpSegment {
        source: ipv4(10, 0, 0, 1),
        destination: ipv4(10, 0, 0, 2),
        source_port: 50_000,
        destination_port: 80,
        sequence: 100,
        acknowledgment: 0,
        flags: default_flags(),
        payload: b"GET /first HTTP/1.1\r\n\r\n",
    };
    let first_followup = DecodedTcpSegment {
        sequence: 101,
        payload: b"GET /followup HTTP/1.1\r\n\r\n",
        ..first
    };
    let unresolved_syn = DecodedTcpSegment {
        source: ipv4(192, 0, 2, 1),
        destination: ipv4(192, 0, 2, 2),
        source_port: 51_000,
        destination_port: 44_977,
        sequence: 500,
        acknowledgment: 0,
        flags: syn_flags(),
        payload: b"",
    };
    let mut resolver = ProcessLedger::new(None);
    let mut tracker = FlowTracker::default();

    let first_observed = tracker
        .observe(&first, timestamp(1, 1), &mut resolver)
        .payload;
    for index in 1..MAX_FLOW_TRACKER_CONNECTIONS {
        let segment = DecodedTcpSegment {
            source: ipv4(10, 1, (index / 256) as u8, (index % 256) as u8),
            destination: ipv4(10, 2, (index / 256) as u8, (index % 256) as u8),
            source_port: 10_000 + (index % 50_000) as u16,
            destination_port: 80,
            sequence: index as u32,
            acknowledgment: 0,
            flags: default_flags(),
            payload: b"GET /fill HTTP/1.1\r\n\r\n",
        };
        tracker.observe(
            &segment,
            timestamp(index as u64 + 1, index as i64 + 1),
            &mut resolver,
        );
    }

    let syn_observation =
        tracker.observe_lifecycle(&unresolved_syn, timestamp(20_000, 20_000), &mut resolver);
    let observed = tracker.observe(&first_followup, timestamp(20_001, 20_001), &mut resolver);
    let observed_payload = &observed.payload;

    assert!(syn_observation.before_lifecycle_closures.is_empty());
    assert!(syn_observation.after_lifecycle.is_none());
    assert!(observed.before_payload_closures.is_empty());
    assert!(observed.after_payload.is_none());
    assert_eq!(observed_payload.flow.id, first_observed.flow.id);
}

fn before_payload_close_from(observation: &FlowPayloadObservation) -> &FlowClosure {
    observation
        .before_payload_closures
        .first()
        .expect("expected before-payload close")
}

fn after_payload_close_from(observation: &FlowPayloadObservation) -> &FlowClosure {
    match observation.after_payload.as_ref() {
        Some(FlowEnd::Close(closure)) => closure,
        Some(FlowEnd::Finalize(_)) | None => panic!("expected after-payload close"),
    }
}

struct StaticProcessResolver {
    connection: TcpConnection,
    process: ProcessContext,
    confidence: u8,
}

impl ProcessResolver for StaticProcessResolver {
    fn resolve_tcp_process(
        &mut self,
        connection: TcpConnection,
    ) -> Result<Option<ResolvedProcess>, CaptureError> {
        Ok(if connection == self.connection {
            Some(ResolvedProcess {
            process: self.process.clone(),
            confidence: self.confidence,
        })
        } else {
            None
        })
    }
}

struct ConnectionAndListenerResolver {
    connection: TcpConnection,
    listener: TcpEndpoint,
    connection_process: ProcessContext,
    listener_process: ProcessContext,
}

impl ProcessResolver for ConnectionAndListenerResolver {
    fn resolve_tcp_process(
        &mut self,
        connection: TcpConnection,
    ) -> Result<Option<ResolvedProcess>, CaptureError> {
        Ok(if connection == self.connection {
            Some(ResolvedProcess {
            process: self.connection_process.clone(),
            confidence: 60,
        })
        } else {
            None
        })
    }

    fn resolve_tcp_listener(
        &mut self,
        local_endpoint: TcpEndpoint,
    ) -> Result<Option<ResolvedProcess>, CaptureError> {
        Ok(if local_endpoint == self.listener {
            Some(ResolvedProcess {
            process: self.listener_process.clone(),
            confidence: 60,
        })
        } else {
            None
        })
    }
}

struct EndpointOnlyListenerResolver {
    listener: TcpEndpoint,
    listener_process: ProcessContext,
}

impl ProcessResolver for EndpointOnlyListenerResolver {
    fn resolve_tcp_process(
        &mut self,
        _connection: TcpConnection,
    ) -> Result<Option<ResolvedProcess>, CaptureError> {
        Ok(None)
    }

    fn resolve_tcp_listener(
        &mut self,
        local_endpoint: TcpEndpoint,
    ) -> Result<Option<ResolvedProcess>, CaptureError> {
        Ok(if local_endpoint == self.listener {
            Some(ResolvedProcess {
            process: self.listener_process.clone(),
            confidence: 60,
        })
        } else {
            None
        })
    }
}

struct PortOnlyListenerResolver {
    port: u16,
    listener_process: ProcessContext,
}

impl ProcessResolver for PortOnlyListenerResolver {
    fn resolve_tcp_process(
        &mut self,
        _connection: TcpConnection,
    ) -> Result<Option<ResolvedProcess>, CaptureError> {
        Ok(None)
    }

    fn resolve_tcp_listener(
        &mut self,
        _local_endpoint: TcpEndpoint,
    ) -> Result<Option<ResolvedProcess>, CaptureError> {
        Ok(None)
    }

    fn resolve_unique_tcp_listener_owner_by_port(
        &mut self,
        local_port: u16,
    ) -> Result<Option<ResolvedProcess>, CaptureError> {
        Ok(if local_port == self.port {
            Some(ResolvedProcess {
            process: self.listener_process.clone(),
            confidence: 55,
        })
        } else {
            None
        })
    }
}

struct ConnectionAndPortListenerResolver {
    connection: TcpConnection,
    port: u16,
    connection_process: ProcessContext,
    listener_process: ProcessContext,
}

impl ProcessResolver for ConnectionAndPortListenerResolver {
    fn resolve_tcp_process(
        &mut self,
        connection: TcpConnection,
    ) -> Result<Option<ResolvedProcess>, CaptureError> {
        Ok(if connection == self.connection {
            Some(ResolvedProcess {
            process: self.connection_process.clone(),
            confidence: 65,
        })
        } else {
            None
        })
    }

    fn resolve_tcp_listener(
        &mut self,
        _local_endpoint: TcpEndpoint,
    ) -> Result<Option<ResolvedProcess>, CaptureError> {
        Ok(None)
    }

    fn resolve_unique_tcp_listener_owner_by_port(
        &mut self,
        local_port: u16,
    ) -> Result<Option<ResolvedProcess>, CaptureError> {
        Ok(if local_port == self.port {
            Some(ResolvedProcess {
            process: self.listener_process.clone(),
            confidence: 55,
        })
        } else {
            None
        })
    }
}

struct SequenceResolver {
    connection: TcpConnection,
    responses: VecDeque<ResolvedProcess>,
}

impl ProcessResolver for SequenceResolver {
    fn resolve_tcp_process(
        &mut self,
        connection: TcpConnection,
    ) -> Result<Option<ResolvedProcess>, CaptureError> {
        Ok(if connection == self.connection {
            self.responses.pop_front()
        } else {
            None
        })
    }
}

struct InvalidationTrackingResolver {
    connection: TcpConnection,
    responses: VecDeque<ResolvedProcess>,
    operations: Rc<RefCell<Vec<&'static str>>>,
}

impl ProcessResolver for InvalidationTrackingResolver {
    fn resolve_tcp_process(
        &mut self,
        connection: TcpConnection,
    ) -> Result<Option<ResolvedProcess>, CaptureError> {
        self.operations.borrow_mut().push("resolve");
        Ok(if connection == self.connection {
            self.responses.pop_front()
        } else {
            None
        })
    }

    fn invalidate_cached_resolution(&mut self) {
        self.operations.borrow_mut().push("invalidate");
    }
}

fn timestamp(monotonic_ns: u64, wall_time_unix_ns: i64) -> Timestamp {
    Timestamp {
        monotonic_ns,
        wall_time_unix_ns,
    }
}

fn ipv4(a: u8, b: u8, c: u8, d: u8) -> IpAddress {
    IpAddress::v4([a, b, c, d])
}

fn default_flags() -> TcpFlags {
    TcpFlags {
        syn: false,
        ack: true,
        fin: false,
        rst: false,
    }
}

fn closing_flags() -> TcpFlags {
    TcpFlags {
        syn: false,
        ack: true,
        fin: true,
        rst: false,
    }
}

fn syn_flags() -> TcpFlags {
    TcpFlags {
        syn: true,
        ack: false,
        fin: false,
        rst: false,
    }
}

fn syn_ack_flags() -> TcpFlags {
    TcpFlags {
        syn: true,
        ack: true,
        fin: false,
        rst: false,
    }
}

fn demo_process(pid: u32, name: &str) -> ProcessContext {
    ProcessContext {
        identity: ProcessIdentity {
            pid,
            tgid: pid,
            start_time_ticks: 1,
            boot_id: "boot".to_string(),
            exe_path: format!("/usr/bin/{name}"),
            cmdline_hash: "hash".to_string(),
            uid: 1000,
            gid: 1000,
            cgroup: None,
            systemd_service: None,
            container_id: None,
            runtime_hint: None,
        },
        name: name.to_string(),
        cmdline: vec![name.to_string()],
    }
}
