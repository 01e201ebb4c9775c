use capture::ebpf::descriptor_lease::DescriptorLease;
use capture::ebpf::payload_authorization::SocketPayloadSampleAuthorization;
use capture::{
    process_payload_hint_command_key, AddressPort, CompiledSelector, Direction,
    EbpfObservedProcess, FlowContext, FlowIdentity, ProcessContext, ProcessIdentity,
    ProcessPayloadSampleAuthorization, ProcessSelector, SelectorTerm, TrafficSelector,
    TransportProtocol,
};

#[test]
fn authorization_projects_outbound_selector_to_write_payload_direction() {
    let authorization =
        authorization_for_directions([Direction::Outbound]).expect("expected authorization");

    assert_eq!(authorization.tgid(), 100);
    assert_eq!(authorization.fd(), 7);
    assert_eq!(authorization.fd_table_epoch(), 9);
    assert_eq!(authorization.fd_generation(), 10);
    assert!(
        authorization
            .payload_directions()
            .allows(Direction::Outbound)
    );
    assert!(
        !authorization
            .payload_directions()
            .allows(Direction::Inbound)
    );
}

#[test]
fn authorization_projects_inbound_selector_to_read_payload_direction() {
    let authorization =
        authorization_for_directions([Direction::Inbound]).expect("expected authorization");

    assert!(
        authorization
            .payload_directions()
            .allows(Direction::Inbound)
    );
    assert!(
        !authorization
            .payload_directions()
            .allows(Direction::Outbound)
    );
}

#[test]
fn authorization_combines_bidirectional_selector() {
    let authorization =
        authorization_for_directions([Direction::Outbound, Direction::Inbound])
            .expect("expected authorization");

    assert!(
        authorization
            .payload_directions()
            .allows(Direction::Outbound)
    );
    assert!(
        authorization
            .payload_directions()
            .allows(Direction::Inbound)
    );
}

#[test]
fn authorization_rejects_selector_miss() {
    let selector = Some(selector([Direction::Outbound], 8080));

    let authorization =
        SocketPayloadSampleAuthorization::from_selector(source(), &flow(), &selector);

    assert!(authorization.is_none());
}

#[test]
fn authorization_rejects_invalid_descriptor_or_lease() {
    let selector = Some(selector([Direction::Outbound], 443));

    assert!(
        DescriptorLease::new(100, -1, 9, 10)
            .and_then(|lease| SocketPayloadSampleAuthorization::from_selector(
                lease,
                &flow(),
                &selector,
            ))
            .is_none()
    );
    assert!(
        DescriptorLease::new(100, 7, 0, 10)
            .and_then(|lease| SocketPayloadSampleAuthorization::from_selector(
                lease,
                &flow(),
                &selector,
            ))
            .is_none()
    );
    assert!(
        DescriptorLease::new(100, 7, 9, 0)
            .and_then(|lease| SocketPayloadSampleAuthorization::from_selector(
                lease,
                &flow(),
                &selector,
            ))
            .is_none()
    );
}

#[test]
fn process_authorization_projects_unattributed_direction() {
    let selector = process_direction_selector([Direction::Inbound]);
    let authorization = ProcessPayloadSampleAuthorization::from_unattributed_selector(
        100,
        &flow().process,
        &selector,
    )
    .expect("expected process authorization");

    assert_eq!(authorization.tgid(), 100);
    assert!(
        authorization
            .payload_directions()
            .allows(Direction::Inbound)
    );
    assert!(
        !authorization
            .payload_directions()
            .allows(Direction::Outbound)
    );
}

#[test]
fn process_authorization_rejects_flow_only_selector() {
    let selector = selector([Direction::Outbound], 443);

    let authorization = ProcessPayloadSampleAuthorization::from_unattributed_selector(
        100,
        &flow().process,
        &selector,
    );

    assert!(authorization.is_none());
}

#[test]
fn process_authorization_rejects_flow_dependent_process_selector() {
    let selector = CompiledSelector {
        terms: vec![
            SelectorTerm {
                process: ProcessSelector {
                    names: vec!["curl".to_string()],
                    ..ProcessSelector::default()
                },
                traffic: TrafficSelector::default(),
            },
            SelectorTerm {
                process: ProcessSelector::default(),
                traffic: TrafficSelector {
                    remote_ports: vec![443],
                    directions: vec![Direction::Outbound],
                    ..TrafficSelector::default()
                },
            },
        ],
    };

    let authorization = ProcessPayloadSampleAuthorization::from_unattributed_selector(
        100,
        &flow().process,
        &selector,
    );

    assert!(authorization.is_none());
}

fn authorization_for_directions(
    directions: impl IntoIterator<Item = Direction>,
) -> Option<SocketPayloadSampleAuthorization> {
    let selector = Some(selector(directions, 443));
    SocketPayloadSampleAuthorization::from_selector(source(), &flow(), &selector)
}

fn selector(
    directions: impl IntoIterator<Item = Direction>,
    remote_port: u16,
) -> CompiledSelector {
    CompiledSelector::term(
        ProcessSelector::default(),
        TrafficSelector {
            remote_ports: vec![remote_port],
            directions: directions.into_iter().collect(),
            ..TrafficSelector::default()
        },
    )
}

fn process_direction_selector(
    directions: impl IntoIterator<Item = Direction>,
) -> CompiledSelector {
    named_process_direction_selector("curl", directions)
}

fn named_process_direction_selector(
    name: &str,
    directions: impl IntoIterator<Item = Direction>,
) -> CompiledSelector {
    CompiledSelector::term(
        ProcessSelector {
            names: vec![name.to_string()],
            ..ProcessSelector::default()
        },
        TrafficSelector {
            directions: directions.into_iter().collect(),
            ..TrafficSelector::default()
        },
    )
}

fn source() -> DescriptorLease {
    DescriptorLease::new(100, 7, 9, 10).expect("test descriptor lease should be valid")
}

fn flow() -> FlowContext {
    FlowContext {
        id: FlowIdentity("flow-7".to_string()),
        process: ProcessContext {
            identity: ProcessIdentity {
                pid: 100,
                tgid: 100,
                start_time_ticks: 1234,
                boot_id: "boot".to_string(),
                exe_path: "/usr/bin/curl".to_string(),
                cmdline_hash: "cmd".to_string(),
                uid: 1000,
                gid: 1000,
                cgroup: None,
                systemd_service: None,
                container_id: None,
                runtime_hint: None,
            },
            name: "curl".to_string(),
            cmdline: vec!["curl".to_string()],
        },
        protocol: TransportProtocol::Tcp,
        local: AddressPort {
            address: "127.0.0.1".to_string(),
            port: 50_000,
        },
        remote: AddressPort {
            address: "127.0.0.1".to_string(),
            port: 443,
        },
        start_monotonic_ns: 1,
        socket_cookie: None,
        attribution_confidence: 90,
    }
}

#[test]
fn authorization_needs_a_selector() {
    assert!(SocketPayloadSampleAuthorization::from_selector(source(), &flow(), &None).is_none());
}

#[test]
fn process_prefilter_passes_over_conditions_on_flows() {
    let authorization = ProcessPayloadSampleAuthorization::from_process_prefilter_selector(
        100,
        &flow().process,
        &selector([Direction::Outbound], 443),
    )
    .expect("process passes the filter");

    assert!(authorization.payload_directions().allows(Direction::Outbound));
    assert!(!authorization.payload_directions().allows(Direction::Inbound));
    assert!(
        ProcessPayloadSampleAuthorization::from_process_prefilter_selector(
            0,
            &flow().process,
            &selector([Direction::Outbound], 443),
        )
        .is_none()
    );
    assert!(
        ProcessPayloadSampleAuthorization::from_process_prefilter_selector(
            100,
            &flow().process,
            &named_process_direction_selector("other", [Direction::Outbound]),
        )
        .is_none()
    );
}

#[test]
fn hint_key_keeps_a_name_that_fits_and_cuts_a_longer_one() {
    assert_eq!(
        process_payload_hint_command_key("curl"),
        *b"curl\0\0\0\0\0\0\0\0\0\0\0\0"
    );
    assert_eq!(
        process_payload_hint_command_key("a-very-long-command-name"),
        *b"a-very-long-comm"
    );
    let observed = EbpfObservedProcess {
        pid: 1,
        tgid: 1,
        uid: 0,
        gid: 0,
        command: process_payload_hint_command_key("naïve"),
    };
    assert_eq!(observed.command_lossy(), "naïve");
}
