use capture::ebpf::attachment::{
    tracepoint_exists, tracepoint_id_path, AttachmentStep, ProbeAttachment, TracepointLook,
    TRACEFS_MOUNTS,
};
use capture::ebpf::tracepoints::{
    process_tracepoint_specs, EbpfProcessObservationOptionalTracepointPairState,
    EbpfProcessTracepointRole, EbpfProcessTracepointSpec,
};

/// Attaches every probe, on a kernel that has some tracepoints of optional pairs or lacks them.
fn attach_all(
    enter_exists: bool,
    exit_exists: bool,
) -> Result<(ProbeAttachment, Vec<EbpfProcessTracepointSpec>), String> {
    let mut attachment = ProbeAttachment::new();
    let mut attached = Vec::new();
    loop {
        match attachment.step() {
            AttachmentStep::Attach(probe) => {
                attached.push(probe);
                attachment.take_attached();
            }
            AttachmentStep::LookUp(_) => attachment
                .take_look_up(enter_exists, exit_exists)
                .map_err(|incomplete| incomplete.missing.tracepoint_name.to_string())?,
            AttachmentStep::Finish => return Ok((attachment, attached)),
        }
    }
}

#[test]
fn every_probe_is_attached_where_the_kernel_has_all() {
    let (attachment, attached) = attach_all(true, true).expect("complete pairs");
    assert_eq!(attached.len(), process_tracepoint_specs().len());
    assert_eq!(
        attached.last().map(|probe| probe.role),
        Some(EbpfProcessTracepointRole::Sendfile64Exit)
    );
    let snapshot = attachment.into_snapshot();
    assert_eq!(
        snapshot.link_ownership().owned_link_count(),
        process_tracepoint_specs().len()
    );
    assert_eq!(
        snapshot.optional_tracepoint_pairs()[0].state(),
        EbpfProcessObservationOptionalTracepointPairState::Attached
    );
}

#[test]
fn optional_pair_is_left_out_where_the_kernel_lacks_it() {
    let (attachment, attached) = attach_all(false, false).expect("no pair");
    assert_eq!(attached.len(), process_tracepoint_specs().len() - 2);
    assert!(attached
        .iter()
        .all(|probe| !probe.role.has_optional_attach()));
    let snapshot = attachment.into_snapshot();
    assert_eq!(
        snapshot.optional_tracepoint_pairs()[0].state(),
        EbpfProcessObservationOptionalTracepointPairState::KernelMissing
    );
    assert_eq!(
        snapshot.optional_tracepoint_pairs()[0].family_name(),
        "sendfile"
    );
}

#[test]
fn half_a_pair_is_an_error() {
    assert_eq!(
        attach_all(true, false).err(),
        Some("sys_exit_sendfile64".to_string())
    );
    assert_eq!(
        attach_all(false, true).err(),
        Some("sys_enter_sendfile64".to_string())
    );
}

#[test]
fn tracepoint_is_looked_for_in_both_places() {
    assert_eq!(tracepoint_exists(&vec![]), None);
    assert_eq!(tracepoint_exists(&vec![TracepointLook::NotFound]), None);
    assert_eq!(
        tracepoint_exists(&vec![TracepointLook::Found]),
        Some(Ok(true))
    );
    assert_eq!(
        tracepoint_exists(&vec![TracepointLook::NotFound, TracepointLook::NotFound]),
        Some(Ok(false))
    );
    assert_eq!(
        tracepoint_exists(&vec![
            TracepointLook::NotFound,
            TracepointLook::Failed {
                error: "permission denied".to_string()
            }
        ]),
        Some(Err("permission denied".to_string()))
    );
    assert_eq!(
        tracepoint_id_path(
            TRACEFS_MOUNTS[0],
            &EbpfProcessTracepointRole::ConnectEnter.spec_of()
        ),
        "/sys/kernel/tracing/events/syscalls/sys_enter_connect/id"
    );
    assert_eq!(
        tracepoint_id_path(
            TRACEFS_MOUNTS[1],
            &EbpfProcessTracepointRole::ProcessExec.spec_of()
        ),
        "/sys/kernel/debug/tracing/events/sched/sched_process_exec/id"
    );
}
