use capture::{
    AddressPort, CompiledSelector, Direction, FlowContext, FlowIdentity, ProcessContext,
    ProcessIdentity, ProcessSelector, SelectorTerm, TrafficSelector, TransportProtocol,
};

fn process() -> ProcessContext {
    ProcessContext {
        identity: ProcessIdentity {
            pid: 100,
            tgid: 100,
            start_time_ticks: 1,
            boot_id: "boot".to_string(),
            exe_path: "/usr/bin/curl".to_string(),
            cmdline_hash: "hash".to_string(),
            uid: 1000,
            gid: 1000,
            cgroup: None,
            systemd_service: None,
            container_id: None,
            runtime_hint: None,
        },
        name: "curl".to_string(),
        cmdline: vec!["curl".to_string()],
    }
}

fn flow() -> FlowContext {
    FlowContext {
        id: FlowIdentity("flow".to_string()),
        process: process(),
        local: AddressPort {
            address: "127.0.0.1".to_string(),
            port: 50_000,
        },
        remote: AddressPort {
            address: "127.0.0.1".to_string(),
            port: 443,
        },
        protocol: TransportProtocol::Tcp,
        start_monotonic_ns: 1,
        socket_cookie: None,
        attribution_confidence: 90,
    }
}

fn traffic(local_ports: Vec<u16>, remote_ports: Vec<u16>) -> CompiledSelector {
    CompiledSelector::term(
        ProcessSelector::default(),
        TrafficSelector {
            local_ports,
            remote_ports,
            ..TrafficSelector::default()
        },
    )
}

#[test]
fn conditions_of_a_selector_count() {
    {
        let selector = CompiledSelector { terms: vec![] };
        assert!(selector.matches_flow(&flow(), Direction::Inbound));
        assert!(selector.matches_unattributed_flow(&process(), Direction::Outbound));
    }
    assert!(traffic(vec![50_000], vec![443]).matches_flow(&flow(), Direction::Outbound));
    assert!(!traffic(vec![443], vec![443]).matches_flow(&flow(), Direction::Outbound));
    assert!(!traffic(vec![], vec![80]).matches_flow(&flow(), Direction::Outbound));
    assert!(traffic(vec![], vec![80, 443]).matches_flow(&flow(), Direction::Outbound));
}

#[test]
fn every_term_has_to_hold() {
    let selector = CompiledSelector {
        terms: vec![
            SelectorTerm {
                process: ProcessSelector {
                    pids: vec![100],
                    ..ProcessSelector::default()
                },
                traffic: TrafficSelector::default(),
            },
            SelectorTerm {
                process: ProcessSelector {
                    names: vec!["wget".to_string()],
                    ..ProcessSelector::default()
                },
                traffic: TrafficSelector::default(),
            },
        ],
    };
    assert!(!selector.matches_flow(&flow(), Direction::Outbound));
}

#[test]
fn process_that_is_selected_has_all_its_flows_selected() {
    let by_path = CompiledSelector::term(
        ProcessSelector {
            exe_paths: vec!["/usr/bin/curl".to_string()],
            ..ProcessSelector::default()
        },
        TrafficSelector {
            directions: vec![Direction::Inbound],
            ..TrafficSelector::default()
        },
    );
    assert!(by_path.matches_unattributed_flow(&process(), Direction::Inbound));
    assert!(by_path.matches_flow(&flow(), Direction::Inbound));
    assert!(!by_path.matches_unattributed_flow(&process(), Direction::Outbound));

    let by_port = traffic(vec![], vec![443]);
    assert!(by_port.matches_flow(&flow(), Direction::Inbound));
    assert!(!by_port.matches_unattributed_flow(&process(), Direction::Inbound));
}

#[test]
fn copy_of_a_selector_selects_the_same() {
    let selector = traffic(vec![50_000], vec![443]);
    assert_eq!(selector.clone(), selector);
}
