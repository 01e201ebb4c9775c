use capture::ebpf::descriptor_lease::DescriptorLease;
use capture::ebpf::payload_direction::PayloadDirections;
use capture::ebpf::tracked_flow::TrackedEbpfFlows;
use capture::{
    AddressPort, Direction, EbpfCloseRangeTracepointObservation, EbpfCloseTracepointObservation,
    EbpfObservedProcess, EbpfSocketReadObservation, EbpfSocketWriteObservation, FlowContext,
    FlowIdentity, ProcessContext, ProcessIdentity, TransportProtocol,
};

#[test]
fn tracked_flows_evict_oldest_descriptor_when_capacity_is_exceeded() {
    let mut watched = TrackedEbpfFlows::bounded(1);
    insert_flow_for_descriptor(&mut watched, 7, flow("fd-7"));
    insert_flow_for_descriptor(&mut watched, 8, flow("fd-8"));

    assert!(watched.remove_close(&close_observation(7)).is_none());
    assert_eq!(
        watched
            .remove_close(&close_observation(8))
            .expect("fd 8 should remain watched")
            .flow
            .id,
        FlowIdentity("fd-8".to_string())
    );
}

#[test]
fn tracked_flows_refresh_descriptor_age_on_reuse() {
    let mut watched = TrackedEbpfFlows::bounded(2);
    insert_flow_for_descriptor(&mut watched, 7, flow("fd-7-first"));
    insert_flow_for_descriptor(&mut watched, 8, flow("fd-8"));
    insert_flow_for_descriptor(&mut watched, 7, flow("fd-7-second"));
    insert_flow_for_descriptor(&mut watched, 9, flow("fd-9"));

    assert!(watched.remove_close(&close_observation(8)).is_none());
    assert_eq!(
        watched
            .remove_close(&close_observation(7))
            .expect("refreshed fd 7 should remain watched")
            .flow
            .id,
        FlowIdentity("fd-7-second".to_string())
    );
    assert_eq!(
        watched
            .remove_close(&close_observation(9))
            .expect("fd 9 should remain watched")
            .flow
            .id,
        FlowIdentity("fd-9".to_string())
    );
}

#[test]
fn tracked_flows_refresh_descriptor_age_on_write() {
    let mut watched = TrackedEbpfFlows::bounded(2);
    insert_flow_for_descriptor(&mut watched, 7, flow("fd-7"));
    insert_flow_for_descriptor(&mut watched, 8, flow("fd-8"));

    watched
        .get_write_mut(&write_observation(7))
        .expect("fd 7 should be watched");
    insert_flow_for_descriptor(&mut watched, 9, flow("fd-9"));

    assert!(watched.remove_close(&close_observation(8)).is_none());
    assert_eq!(
        watched
            .remove_close(&close_observation(7))
            .expect("write-refreshed fd 7 should remain watched")
            .flow
            .id,
        FlowIdentity("fd-7".to_string())
    );
    assert_eq!(
        watched
            .remove_close(&close_observation(9))
            .expect("fd 9 should remain watched")
            .flow
            .id,
        FlowIdentity("fd-9".to_string())
    );
}

#[test]
fn tracked_flows_refresh_descriptor_age_on_read() {
    let mut watched = TrackedEbpfFlows::bounded(2);
    insert_flow_for_descriptor(&mut watched, 7, flow("fd-7"));
    insert_flow_for_descriptor(&mut watched, 8, flow("fd-8"));

    watched
        .get_read_mut(&read_observation(7))
        .expect("fd 7 should be watched");
    insert_flow_for_descriptor(&mut watched, 9, flow("fd-9"));

    assert!(watched.remove_close(&close_observation(8)).is_none());
    assert_eq!(
        watched
            .remove_close(&close_observation(7))
            .expect("read-refreshed fd 7 should remain watched")
            .flow
            .id,
        FlowIdentity("fd-7".to_string())
    );
    assert_eq!(
        watched
            .remove_close(&close_observation(9))
            .expect("fd 9 should remain watched")
            .flow
            .id,
        FlowIdentity("fd-9".to_string())
    );
}

#[test]
fn tracked_flows_do_not_refresh_descriptor_on_unallowed_payload_direction() {
    let mut watched = TrackedEbpfFlows::bounded(2);
    assert!(
        watched
            .insert_flow(
                descriptor_lease(100, 7, 1),
                flow("fd-7"),
                PayloadDirections::from_directions(&vec![Direction::Outbound]),
            )
            .is_none()
    );
    insert_flow_for_descriptor(&mut watched, 8, flow("fd-8"));

    assert!(watched.get_read_mut(&read_observation(7)).is_none());
    insert_flow_for_descriptor(&mut watched, 9, flow("fd-9"));

    assert!(watched.remove_close(&close_observation(7)).is_none());
    assert_eq!(
        watched
            .remove_close(&close_observation(8))
            .expect("fd 8 should remain watched")
            .flow
            .id,
        FlowIdentity("fd-8".to_string())
    );
    assert_eq!(
        watched
            .remove_close(&close_observation(9))
            .expect("fd 9 should remain watched")
            .flow
            .id,
        FlowIdentity("fd-9".to_string())
    );
}

#[test]
fn tracked_flows_remove_close_range_for_same_process_descriptors_in_fd_order() {
    let mut watched = TrackedEbpfFlows::bounded(4);
    insert_flow_for_descriptor(&mut watched, 3, flow("fd-3"));
    insert_flow_for_descriptor(&mut watched, 10, flow("fd-10"));
    insert_flow_for_descriptor(&mut watched, 4, flow("fd-4"));
    insert_flow_for_process_descriptor(&mut watched, 200, 4, flow("other-tgid-fd-4"));

    let removed = watched.remove_close_range(&close_range_observation(4, 10));

    let removed_ids = removed
        .into_iter()
        .map(|watched| watched.flow.id)
        .collect::<Vec<_>>();
    assert_eq!(
        removed_ids,
        vec![
            FlowIdentity("fd-4".to_string()),
            FlowIdentity("fd-10".to_string())
        ]
    );
    assert_eq!(
        watched
            .remove_close(&close_observation(3))
            .expect("fd 3 should remain watched")
            .flow
            .id,
        FlowIdentity("fd-3".to_string())
    );
    assert_eq!(
        watched
            .remove_close(&close_observation_for_process(200, 4))
            .expect("different TGID fd should remain watched")
            .flow
            .id,
        FlowIdentity("other-tgid-fd-4".to_string())
    );
}

#[test]
fn tracked_flows_find_process_payload_targets_in_fd_order_without_removing_them() {
    let mut watched = TrackedEbpfFlows::bounded(4);
    insert_flow_for_descriptor(&mut watched, 10, flow("fd-10"));
    insert_flow_for_descriptor(&mut watched, 4, flow("fd-4"));
    insert_flow_for_process_descriptor(&mut watched, 200, 4, flow("other-tgid-fd-4"));
    insert_flow_for_descriptor(&mut watched, 3, flow("fd-3"));

    let targets = watched.active_payload_gap_targets_for_tgid(100);

    let target_ids = targets
        .into_iter()
        .map(|watched| watched.flow.id.clone())
        .collect::<Vec<_>>();
    assert_eq!(
        target_ids,
        vec![
            FlowIdentity("fd-3".to_string()),
            FlowIdentity("fd-4".to_string()),
            FlowIdentity("fd-10".to_string())
        ]
    );
    assert_eq!(
        watched
            .remove_close(&close_observation(3))
            .expect("matching TGID fd should remain watched")
            .flow
            .id,
        FlowIdentity("fd-3".to_string())
    );
    assert_eq!(
        watched
            .remove_close(&close_observation_for_process(200, 4))
            .expect("different TGID fd should remain watched")
            .flow
            .id,
        FlowIdentity("other-tgid-fd-4".to_string())
    );
}

#[test]
fn tracked_flows_bind_payload_and_close_to_descriptor_generation() {
    let mut watched = TrackedEbpfFlows::bounded(4);
    insert_flow_for_descriptor_generation(&mut watched, 7, 1, flow("fd-7-generation-1"));
    insert_flow_for_descriptor_generation(&mut watched, 7, 2, flow("fd-7-generation-2"));

    assert_eq!(
        watched
            .get_write_mut(&write_observation_with_generation(7, 1))
            .expect("generation 1 write should match generation 1 flow")
            .flow
            .id,
        FlowIdentity("fd-7-generation-1".to_string())
    );
    assert_eq!(
        watched
            .remove_close(&close_observation_with_generation(7, 1))
            .expect("generation 1 close should only remove generation 1")
            .flow
            .id,
        FlowIdentity("fd-7-generation-1".to_string())
    );
    assert_eq!(
        watched
            .remove_close(&close_observation_with_generation(7, 2))
            .expect("generation 2 flow should remain after generation 1 close")
            .flow
            .id,
        FlowIdentity("fd-7-generation-2".to_string())
    );
}

#[test]
fn tracked_flows_do_not_match_payload_without_exact_descriptor_generation() {
    let mut watched = TrackedEbpfFlows::bounded(4);
    insert_flow_for_descriptor_generation(&mut watched, 7, 10, flow("fd-7"));

    let stale_other_tgid = read_observation_for_process_generation(
        observed_process_for_tgid_named(200, "curl"),
        7,
        1,
    );

    assert!(watched.get_read_mut(&stale_other_tgid).is_none());
}

#[test]
fn tracked_flows_do_not_use_process_hint_alias_for_same_tgid_generation_mismatch() {
    let mut watched = TrackedEbpfFlows::bounded(4);
    insert_flow_for_descriptor_generation(&mut watched, 7, 10, flow("fd-7-generation-10"));

    let stale_same_tgid = read_observation_for_process_generation(
        observed_process_for_tgid_named(100, "curl"),
        7,
        1,
    );

    assert!(watched.get_read_mut(&stale_same_tgid).is_none());
}

#[test]
fn tracked_flows_do_not_close_without_exact_descriptor_generation() {
    let mut watched = TrackedEbpfFlows::bounded(4);
    insert_flow_for_descriptor_generation(&mut watched, 7, 10, flow("fd-7"));

    let stale_other_tgid = close_observation_for_process_generation_named(200, 7, 1, "curl");

    assert!(watched.remove_close(&stale_other_tgid).is_none());
    assert_eq!(
        watched
            .remove_close(&close_observation_with_generation(7, 10))
            .expect("exact generation should remain watched")
            .flow
            .id,
        FlowIdentity("fd-7".to_string())
    );
}

#[test]
fn tracked_flows_do_not_close_with_process_hint_alias_for_same_tgid_generation_mismatch() {
    let mut watched = TrackedEbpfFlows::bounded(4);
    insert_flow_for_descriptor_generation(&mut watched, 7, 10, flow("fd-7-generation-10"));

    let stale_same_tgid = close_observation_for_process_generation_named(100, 7, 1, "curl");

    assert!(watched.remove_close(&stale_same_tgid).is_none());
    assert_eq!(
        watched
            .remove_close(&close_observation_with_generation(7, 10))
            .expect("exact generation should remain watched")
            .flow
            .id,
        FlowIdentity("fd-7-generation-10".to_string())
    );
}

fn insert_flow_for_descriptor(watched: &mut TrackedEbpfFlows, fd: i32, flow: FlowContext) {
    insert_flow_for_descriptor_generation(watched, fd, 1, flow);
}

fn insert_flow_for_descriptor_generation(
    watched: &mut TrackedEbpfFlows,
    fd: i32,
    fd_generation: u64,
    flow: FlowContext,
) {
    insert_flow_for_process_descriptor_generation(watched, 100, fd, fd_generation, flow);
}

fn insert_flow_for_process_descriptor(
    watched: &mut TrackedEbpfFlows,
    tgid: u32,
    fd: i32,
    flow: FlowContext,
) {
    insert_flow_for_process_descriptor_generation(watched, tgid, fd, 1, flow);
}

fn insert_flow_for_process_descriptor_generation(
    watched: &mut TrackedEbpfFlows,
    tgid: u32,
    fd: i32,
    fd_generation: u64,
    flow: FlowContext,
) {
    let _ = watched.insert_flow(
        descriptor_lease(tgid, fd, fd_generation),
        flow,
        PayloadDirections::from_directions(&vec![Direction::Outbound, Direction::Inbound]),
    );
}

fn descriptor_lease(tgid: u32, fd: i32, fd_generation: u64) -> DescriptorLease {
    DescriptorLease::new(tgid, fd, 1, fd_generation)
        .expect("test descriptor lease should be valid")
}

fn close_observation(fd: i32) -> EbpfCloseTracepointObservation {
    close_observation_with_generation(fd, 1)
}

fn close_observation_for_process(tgid: u32, fd: i32) -> EbpfCloseTracepointObservation {
    close_observation_for_process_generation(tgid, fd, 1)
}

fn close_observation_with_generation(
    fd: i32,
    fd_generation: u64,
) -> EbpfCloseTracepointObservation {
    close_observation_for_process_generation(100, fd, fd_generation)
}

fn close_observation_for_process_generation(
    tgid: u32,
    fd: i32,
    fd_generation: u64,
) -> EbpfCloseTracepointObservation {
    EbpfCloseTracepointObservation {
        process: observed_process_for_tgid(tgid),
        fd,
        fd_generation,
    }
}

fn close_range_observation(first_fd: u32, last_fd: u32) -> EbpfCloseRangeTracepointObservation {
    EbpfCloseRangeTracepointObservation {
        process: observed_process(),
        first_fd,
        last_fd,
    }
}

fn write_observation(fd: i32) -> EbpfSocketWriteObservation {
    write_observation_with_generation(fd, 1)
}

fn write_observation_with_generation(
    fd: i32,
    fd_generation: u64,
) -> EbpfSocketWriteObservation {
    EbpfSocketWriteObservation {
        process: observed_process(),
        fd,
        fd_generation,
        original_len: 5,
        buffer: b"hello".to_vec(),
        truncated: false,
        read_failed: false,
        kernel_transfer: false,
    }
}

fn read_observation(fd: i32) -> EbpfSocketReadObservation {
    read_observation_for_process_generation(observed_process(), fd, 1)
}

fn read_observation_for_process_generation(
    process: EbpfObservedProcess,
    fd: i32,
    fd_generation: u64,
) -> EbpfSocketReadObservation {
    EbpfSocketReadObservation {
        process,
        fd,
        fd_generation,
        original_len: 5,
        buffer: b"hello".to_vec(),
        truncated: false,
        read_failed: false,
    }
}

fn observed_process() -> EbpfObservedProcess {
    observed_process_for_tgid(100)
}

fn observed_process_for_tgid(tgid: u32) -> EbpfObservedProcess {
    observed_process_for_tgid_named(tgid, "")
}

fn observed_process_for_tgid_named(tgid: u32, name: &str) -> EbpfObservedProcess {
    EbpfObservedProcess {
        pid: tgid.saturating_add(1),
        tgid,
        uid: 1000,
        gid: 1000,
        command: nul_padded_command(name),
    }
}

fn close_observation_for_process_generation_named(
    tgid: u32,
    fd: i32,
    fd_generation: u64,
    name: &str,
) -> EbpfCloseTracepointObservation {
    EbpfCloseTracepointObservation {
        process: observed_process_for_tgid_named(tgid, name),
        fd,
        fd_generation,
    }
}

fn nul_padded_command(name: &str) -> [u8; 16] {
    let mut command = [0; 16];
    for (slot, byte) in command.iter_mut().zip(name.bytes()) {
        *slot = byte;
    }
    command
}

fn flow(id: &str) -> FlowContext {
    FlowContext {
        id: FlowIdentity(id.to_string()),
        process: ProcessContext {
            identity: ProcessIdentity {
                pid: 100,
                tgid: 100,
                start_time_ticks: 1234,
                boot_id: "boot".to_string(),
                exe_path: "/usr/bin/curl".to_string(),
                cmdline_hash: "cmd".to_string(),
                uid: 1000,
                gid: 1000,
                cgroup: None,
                systemd_service: None,
                container_id: None,
                runtime_hint: None,
            },
            name: "curl".to_string(),
            cmdline: vec!["curl".to_string()],
        },
        local: AddressPort {
            address: "127.0.0.1".to_string(),
            port: 50_000,
        },
        remote: AddressPort {
            address: "127.0.0.1".to_string(),
            port: 443,
        },
        protocol: TransportProtocol::Tcp,
        start_monotonic_ns: 1,
        socket_cookie: None,
        attribution_confidence: 90,
    }
}

#[test]
fn displacement_tells_what_was_pushed_out() {
    let mut none = TrackedEbpfFlows::bounded(0);
    let dropped = none
        .insert_flow(descriptor_lease(100, 7, 1), flow("fd-7"), both())
        .expect("nothing fits");
    assert!(dropped.reason().contains("tracked-flow capacity is zero"));
    assert!(none.remove_close(&close_observation(7)).is_none());

    let mut one = TrackedEbpfFlows::bounded(1);
    assert!(one
        .insert_flow(descriptor_lease(100, 7, 1), flow("first"), both())
        .is_none());
    let replaced = one
        .insert_flow(descriptor_lease(100, 7, 1), flow("second"), both())
        .expect("same descriptor lease");
    assert!(replaced.reason().contains("replaced an existing descriptor lease"));
    assert_eq!(replaced.key(), descriptor_lease(100, 7, 1).key());
    assert_eq!(replaced.into_tracked_flow().flow.id, FlowIdentity("first".to_string()));

    let evicted = one
        .insert_flow(descriptor_lease(100, 8, 1), flow("third"), both())
        .expect("capacity of one");
    assert!(evicted.reason().contains("tracked-flow capacity was exceeded"));
    assert_eq!(evicted.key(), descriptor_lease(100, 7, 1).key());
    assert!(evicted.should_revoke_allow_map_key(false));
    assert!(!evicted.should_revoke_allow_map_key(true));
}

#[test]
fn allowance_is_retained_by_another_generation_of_the_descriptor() {
    let mut watched = TrackedEbpfFlows::bounded(4);
    let _ = watched.insert_flow(descriptor_lease(100, 7, 2), flow("sampled"), both());
    let _ = watched.insert_flow(
        descriptor_lease(100, 8, 1),
        flow("unsampled"),
        PayloadDirections::empty(),
    );

    assert!(watched.has_payload_allowance_for_allow_map_key(descriptor_lease(100, 7, 1).key()));
    assert!(!watched.has_payload_allowance_for_allow_map_key(descriptor_lease(100, 8, 1).key()));
    assert!(watched.has_active_payload_gap_targets());
    assert_eq!(watched.active_payload_gap_targets().len(), 1);
}

fn both() -> PayloadDirections {
    PayloadDirections::from_directions(&vec![Direction::Outbound, Direction::Inbound])
}
