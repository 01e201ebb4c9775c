use capture::ebpf::diagnostics::{active_tracepoint_liveness_from_firings, total_of_counters};
use capture::ebpf::tracepoints::EbpfProcessTracepointRole;
use capture::{
    EbpfProcessObservationActiveTracepointLiveness,
    EbpfProcessObservationActiveTracepointLivenessProgram,
    EbpfProcessObservationActiveTracepointLivenessState, EbpfProcessObservationTracepointFiring,
};

#[test]
fn active_liveness_marks_supported_tracepoint_when_counter_advances() {
    let before = vec![firing(EbpfProcessTracepointRole::WriteEnter, 10)];
    let after = vec![firing(EbpfProcessTracepointRole::WriteEnter, 11)];

    let liveness = active_tracepoint_liveness_from_firings(&before, &after);

    let write_enter = liveness_program(&liveness, EbpfProcessTracepointRole::WriteEnter);
    assert_eq!(
        write_enter.state,
        EbpfProcessObservationActiveTracepointLivenessState::Advanced
    );
    assert_eq!(write_enter.before_firing_count, 10);
    assert_eq!(write_enter.after_firing_count, 11);
}

#[test]
fn active_liveness_marks_readv_tracepoint_when_counter_advances() {
    let before = vec![firing(EbpfProcessTracepointRole::ReadvEnter, 7)];
    let after = vec![firing(EbpfProcessTracepointRole::ReadvEnter, 8)];

    let liveness = active_tracepoint_liveness_from_firings(&before, &after);

    assert_eq!(
        liveness_program(&liveness, EbpfProcessTracepointRole::ReadvEnter).state,
        EbpfProcessObservationActiveTracepointLivenessState::Advanced
    );
}

#[test]
fn active_liveness_marks_supported_tracepoint_when_counter_does_not_advance() {
    let before = vec![firing(EbpfProcessTracepointRole::ReadExit, 4)];
    let after = vec![firing(EbpfProcessTracepointRole::ReadExit, 4)];

    let liveness = active_tracepoint_liveness_from_firings(&before, &after);

    assert_eq!(
        liveness_program(&liveness, EbpfProcessTracepointRole::ReadExit).state,
        EbpfProcessObservationActiveTracepointLivenessState::NotAdvanced
    );
}

#[test]
fn active_liveness_marks_unsupported_tracepoint_without_failure() {
    let liveness = active_tracepoint_liveness_from_firings(&Vec::new(), &Vec::new());

    let connect_enter = liveness_program(&liveness, EbpfProcessTracepointRole::ConnectEnter);
    assert_eq!(
        connect_enter.state,
        EbpfProcessObservationActiveTracepointLivenessState::Unsupported
    );
    assert_eq!(connect_enter.before_firing_count, 0);
    assert_eq!(connect_enter.after_firing_count, 0);
}

fn liveness_program(
    liveness: &EbpfProcessObservationActiveTracepointLiveness,
    role: EbpfProcessTracepointRole,
) -> &EbpfProcessObservationActiveTracepointLivenessProgram {
    let spec = role.spec_of();
    liveness
        .programs
        .iter()
        .find(|program| {
            program.program_name == spec.program_name
                && program.category == spec.category
                && program.tracepoint_name == spec.tracepoint_name
        })
        .expect("role should have an active liveness program")
}

fn firing(
    role: EbpfProcessTracepointRole,
    firing_count: u64,
) -> EbpfProcessObservationTracepointFiring {
    let spec = role.spec_of();
    EbpfProcessObservationTracepointFiring {
        program_name: spec.program_name,
        category: spec.category,
        tracepoint_name: spec.tracepoint_name,
        firing_count,
    }
}

#[test]
fn counters_of_all_processors_add_up_to_the_largest_number_at_most() {
    assert_eq!(total_of_counters(&vec![]), 0);
    assert_eq!(total_of_counters(&vec![1, 2, 3]), 6);
    assert_eq!(total_of_counters(&vec![u64::MAX, 1, 2]), u64::MAX);
}
