use capture::output_loss::{provider_output_loss_event, OutputLossTracker};
use capture::{
    CaptureEvent, CaptureProviderKind, CaptureSource, EnforcementEvidence, ObservationOnlyReason,
    Timestamp,
};

#[test]
fn output_loss_tracker_reports_only_positive_deltas() {
    let mut tracker = OutputLossTracker::default();

    assert_eq!(tracker.checkpoint(2), Some(2));
    assert_eq!(tracker.checkpoint(2), None);
    assert_eq!(tracker.checkpoint(5), Some(3));
}

#[test]
fn output_loss_tracker_resets_baseline_when_counter_moves_backwards() {
    let mut tracker = OutputLossTracker::default();

    assert_eq!(tracker.checkpoint(5), Some(5));
    assert_eq!(tracker.checkpoint(1), None);
    assert_eq!(tracker.checkpoint(3), Some(2));
}

#[test]
fn output_loss_tracker_checks_after_bounded_observation_drain() {
    let mut tracker = OutputLossTracker::new(2);

    assert!(!tracker.should_check_during_drain());
    tracker.record_observation();
    assert!(!tracker.should_check_during_drain());
    tracker.record_observation();
    assert!(tracker.should_check_during_drain());
    assert_eq!(tracker.checkpoint(1), Some(1));
    assert!(!tracker.should_check_during_drain());
}

#[test]
fn losses_over_growing_readings_add_up_to_the_last_one() {
    let mut tracker = OutputLossTracker::new(64);
    let total: u64 = [3, 3, 10, 11, 40]
        .into_iter()
        .filter_map(|count| tracker.checkpoint(count))
        .sum();

    assert_eq!(total, 40);
}

#[test]
fn observation_counter_stops_at_the_largest_number() {
    let mut tracker = OutputLossTracker {
        last_count: 0,
        observations_since_check: u32::MAX,
        check_interval: u32::MAX,
    };

    tracker.record_observation();

    assert_eq!(tracker.observations_since_check, u32::MAX);
    assert!(tracker.should_check_during_drain());
}

#[test]
fn loss_event_carries_its_reason_as_evidence() {
    let timestamp = Timestamp {
        monotonic_ns: 3,
        wall_time_unix_ns: 4,
    };
    let event = provider_output_loss_event(
        timestamp,
        2,
        CaptureSource::EbpfSyscall,
        "two events were lost".to_string(),
    );

    let CaptureEvent::Loss(loss) = event else {
        panic!("expected a loss event: {event:?}");
    };
    assert_eq!(loss.timestamp, timestamp);
    assert_eq!(loss.origin.source(), CaptureSource::EbpfSyscall);
    assert_eq!(loss.origin.provider(), CaptureProviderKind::Ebpf);
    assert_eq!(loss.loss.lost_events, 2);
    assert_eq!(loss.loss.reason, "two events were lost");
    assert_eq!(
        loss.enforcement_evidence,
        EnforcementEvidence::observation_only_with_detail(
            ObservationOnlyReason::EbpfCaptureLoss,
            "two events were lost".to_string(),
        )
    );
}
