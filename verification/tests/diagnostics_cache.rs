use capture::ebpf::diagnostics::EbpfProcessObservationRuntimeDiagnosticsCache;
use capture::ebpf::tracepoints::EbpfProcessTracepointRole;
use capture::{
    CaptureError, EbpfProcessObservationActiveTracepointLivenessState,
    EbpfProcessObservationTracepointFiring,
};

fn firings(count: u64) -> Vec<EbpfProcessObservationTracepointFiring> {
    vec![EbpfProcessObservationTracepointFiring::from_tracepoint_spec(
        EbpfProcessTracepointRole::WriteEnter.spec_of(),
        count,
    )]
}

fn cache() -> EbpfProcessObservationRuntimeDiagnosticsCache {
    EbpfProcessObservationRuntimeDiagnosticsCache {
        refresh_interval_ns: 10,
        ..EbpfProcessObservationRuntimeDiagnosticsCache::default()
    }
}

#[test]
fn reading_is_current_for_a_while() {
    let mut cache = cache();
    assert!(!cache.is_current(5));
    assert!(cache.take_reading(5, Ok(None)).is_none());
    assert!(cache.is_current(14));
    assert!(!cache.is_current(15));
    assert_eq!(
        cache.snapshot.tracepoints.as_ref().err().map(String::as_str),
        Some("process tracepoint firing diagnostics are not available for this observation source")
    );
}

#[test]
fn first_reading_is_handed_back_to_be_probed() {
    let mut cache = cache();
    let before = cache.take_reading(5, Ok(Some(firings(1)))).expect("a probe");
    cache.take_probe(before, Ok(()), Ok(Some(firings(2))));
    let diagnostics = cache.snapshot.tracepoints.as_ref().expect("diagnostics");
    assert_eq!(diagnostics.firings, firings(2));
    let liveness = diagnostics.active_liveness.as_ref().expect("liveness");
    let program = liveness
        .programs
        .iter()
        .find(|program| program.tracepoint_name == "sys_enter_write")
        .expect("the written tracepoint");
    assert_eq!(
        program.state,
        EbpfProcessObservationActiveTracepointLivenessState::Advanced
    );
    assert!(cache.take_reading(20, Ok(Some(firings(3)))).is_none());
}

#[test]
fn failures_are_told() {
    let mut cache = cache();
    assert!(cache
        .take_reading(5, Err(CaptureError::provider("ebpf", "no map")))
        .is_none());
    assert_eq!(
        cache.snapshot.tracepoints.as_ref().err().map(String::as_str),
        Some("capture provider ebpf failed: no map")
    );
}
