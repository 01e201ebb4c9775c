use capture::output_loss::OutputLossTracker;

#[test]
fn output_loss_output_loss_tracker_reports_only_positive_deltas() {
    let mut tracker = OutputLossTracker::default();

    assert_eq!(tracker.checkpoint(2), Some(2));
    assert_eq!(tracker.checkpoint(2), None);
    assert_eq!(tracker.checkpoint(5), Some(3));
}

#[test]
fn output_loss_output_loss_tracker_resets_baseline_when_counter_moves_backwards() {
    let mut tracker = OutputLossTracker::default();

    assert_eq!(tracker.checkpoint(5), Some(5));
    assert_eq!(tracker.checkpoint(1), None);
    assert_eq!(tracker.checkpoint(3), Some(2));
}

#[test]
fn output_loss_output_loss_tracker_checks_after_bounded_observation_drain() {
    let mut tracker = OutputLossTracker::new(2);

    assert!(!tracker.should_check_during_drain());
    tracker.record_observation();
    assert!(!tracker.should_check_during_drain());
    tracker.record_observation();
    assert!(tracker.should_check_during_drain());
    assert_eq!(tracker.checkpoint(1), Some(1));
    assert!(!tracker.should_check_during_drain());
}
