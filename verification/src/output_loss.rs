//! Counting what a kernel-side output buffer lost.
use vstd::prelude::*;

use crate::event::{CaptureEvent, CaptureEventView, CapturedLoss, CapturedLossView};
use crate::model::{
    observation_only, CaptureLoss, CaptureLossView, CaptureOrigin, CaptureSource,
    EnforcementEvidence, ObservationOnlyReason, Timestamp,
};

verus! {

/// How many observations are drained between two looks at the loss counter.
pub const DEFAULT_CHECK_INTERVAL: u32 = 64;

/// Turns readings of a loss counter into numbers of newly lost events.
#[derive(Debug, Clone, Copy, PartialEq, Eq, Structural)]
pub struct OutputLossTracker {
    pub last_count: u64,
    pub observations_since_check: u32,
    pub check_interval: u32,
}

impl OutputLossTracker {
    /// A tracker that has seen nothing.
    pub open spec fn fresh(check_interval: u32) -> OutputLossTracker {
        OutputLossTracker { last_count: 0, observations_since_check: 0, check_interval }
    }

    /// The tracker after one more observation.
    pub open spec fn observed(self) -> OutputLossTracker {
        OutputLossTracker {
            observations_since_check: if self.observations_since_check < u32::MAX {
                (self.observations_since_check + 1) as u32
            } else {
                u32::MAX
            },
            ..self
        }
    }

    /// Whether the counter is due in the middle of a drain.
    pub open spec fn due(self) -> bool {
        self.observations_since_check >= self.check_interval
    }

    /// The tracker after the counter was read as `count`.
    pub open spec fn checked(self, count: u64) -> OutputLossTracker {
        OutputLossTracker { last_count: count, observations_since_check: 0, ..self }
    }

    /// What a reading of `count` shows to be lost since the last reading. A counter that went
    /// back was restarted: it shows nothing.
    pub open spec fn newly_lost(self, count: u64) -> Option<u64> {
        if count > self.last_count {
            Some((count - self.last_count) as u64)
        } else {
            None
        }
    }

    pub fn new(check_interval: u32) -> (tracker: OutputLossTracker)
        ensures
            tracker == OutputLossTracker::fresh(check_interval),
    {
        OutputLossTracker { last_count: 0, observations_since_check: 0, check_interval }
    }

    /// Counts an observation, up to the largest number that fits.
    pub fn record_observation(&mut self)
        ensures
            *final(self) == old(self).observed(),
    {
        self.observations_since_check = self.observations_since_check.saturating_add(1);
    }

    pub fn should_check_during_drain(&self) -> (due: bool)
        ensures
            due == self.due(),
    {
        self.observations_since_check >= self.check_interval
    }

    /// Takes a reading of the counter and returns how many events it shows to be newly lost.
    pub fn checkpoint(&mut self, count: u64) -> (lost: Option<u64>)
        ensures
            *final(self) == old(self).checked(count),
            lost == old(self).newly_lost(count),
    {
        self.observations_since_check = 0;
        let lost = if count <= self.last_count {
            None
        } else {
            Some(count - self.last_count)
        };
        self.last_count = count;
        lost
    }
}

impl Default for OutputLossTracker {
    fn default() -> (tracker: Self)
        ensures
            tracker == OutputLossTracker::fresh(DEFAULT_CHECK_INTERVAL),
    {
        OutputLossTracker::new(DEFAULT_CHECK_INTERVAL)
    }
}

/// The sum of the losses that a run of readings shows.
pub open spec fn total_lost(tracker: OutputLossTracker, readings: Seq<u64>) -> int
    decreases readings.len(),
{
    if readings.len() == 0 {
        0
    } else {
        let first = match tracker.newly_lost(readings[0]) {
            Some(lost) => lost as int,
            None => 0,
        };
        first + total_lost(tracker.checked(readings[0]), readings.drop_first())
    }
}

/// Each lost event is reported once: over readings that never go back, the reported losses add
/// up to the difference between the last reading and the one before the run.
pub proof fn law_losses_are_reported_once(tracker: OutputLossTracker, readings: Seq<u64>)
    requires
        readings.len() > 0 ==> tracker.last_count <= readings[0],
        forall|index: int|
            #![trigger readings[index]]
            0 <= index < readings.len() - 1 ==> readings[index] <= readings[index + 1],
    ensures
        total_lost(tracker, readings) == if readings.len() == 0 {
            0
        } else {
            readings.last() - tracker.last_count
        },
    decreases readings.len(),
{
    if readings.len() > 0 {
        let rest = readings.drop_first();
        assert forall|index: int| #![trigger rest[index]] 0 <= index < rest.len() - 1 implies rest[index]
            <= rest[index + 1] by {
            assert(rest[index] == readings[index + 1]);
            assert(rest[index + 1] == readings[index + 2]);
        }
        if rest.len() > 0 {
            assert(readings[0] <= readings[1]);
            assert(rest.last() == readings.last());
        }
        law_losses_are_reported_once(tracker.checked(readings[0]), rest);
    }
}

/// A counter that went back was restarted: that reading tells of no loss, and the next one tells
/// what was lost since.
pub proof fn law_restarted_counter_counts_anew(
    tracker: OutputLossTracker,
    restarted: u64,
    later: u64,
)
    requires
        restarted <= tracker.last_count,
        restarted < later,
    ensures
        tracker.newly_lost(restarted) is None,
        tracker.checked(restarted).newly_lost(later) == Some((later - restarted) as u64),
{
}

/// The tracker after so many observations.
pub open spec fn observed_often(tracker: OutputLossTracker, count: nat) -> OutputLossTracker
    decreases count,
{
    if count == 0 {
        tracker
    } else {
        observed_often(tracker, (count - 1) as nat).observed()
    }
}

/// After a reading, the counter is due again once as many observations were drained as the interval
/// tells, and not before.
pub proof fn law_counter_is_due_after_the_interval(
    tracker: OutputLossTracker,
    reading: u64,
    count: nat,
)
    ensures
        observed_often(tracker.checked(reading), count).due() <==> count >= tracker.check_interval,
{
    lemma_observed_often(tracker.checked(reading), count);
}

proof fn lemma_observed_often(tracker: OutputLossTracker, count: nat)
    requires
        tracker.observations_since_check == 0,
    ensures
        observed_often(tracker, count).observations_since_check == if count < u32::MAX {
            count as int
        } else {
            u32::MAX as int
        },
        observed_often(tracker, count).check_interval == tracker.check_interval,
    decreases count,
{
    if count > 0 {
        lemma_observed_often(tracker, (count - 1) as nat);
    }
}

/// The event that tells of events lost in a provider's output.
pub open spec fn loss_event(
    timestamp: Timestamp,
    lost_events: u64,
    source: CaptureSource,
    reason: Seq<char>,
) -> CaptureEventView {
    CaptureEventView::Loss(
        CapturedLossView {
            timestamp,
            origin: CaptureOrigin { capture_source: source },
            enforcement_evidence: observation_only(ObservationOnlyReason::EbpfCaptureLoss, reason),
            loss: CaptureLossView { lost_events, reason },
        },
    )
}

/// The event that tells of events lost in a provider's output.
pub fn provider_output_loss_event(
    timestamp: Timestamp,
    lost_events: u64,
    source: CaptureSource,
    reason: String,
) -> (event: CaptureEvent)
    ensures
        event@ == loss_event(timestamp, lost_events, source, reason@),
{
    let enforcement_evidence = EnforcementEvidence::observation_only_with_detail(
        ObservationOnlyReason::EbpfCaptureLoss,
        reason.clone(),
    );
    CaptureEvent::Loss(
        CapturedLoss {
            timestamp,
            origin: CaptureOrigin::from_source(source),
            enforcement_evidence,
            loss: CaptureLoss { lost_events, reason },
        },
    )
}

} // verus!
