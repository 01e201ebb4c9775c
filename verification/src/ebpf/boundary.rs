//! Gaps at the boundaries where a tracked flow can no longer be followed without doubt.
use vstd::prelude::*;
use vstd::string::StringExecFns;

use crate::event::{
    build_observed_gap_event, event_views, lemma_event_views_concat, lemma_event_views_push,
    observed_gap_event, CaptureEvent, CaptureEventView, EnforcementEvidencePropagation,
};
use crate::model::{
    ebpf_origin, CaptureOrigin, CaptureSource, Direction, FlowContext, FlowContextView, Gap,
    GapView, ObservationOnlyReason, Timestamp,
};
use crate::text::{decimal_digits, joined, push_labelled};

use super::tracked_flow::{
    displaced_flow, displacement_reason, sampled_flows, target_views, TrackedEbpfFlow,
    TrackedEbpfFlowDisplacement, TrackedEbpfFlows, TrackedFlowView,
};
use super::types::EbpfProcessLifecycleKind;

verus! {

broadcast use {lemma_event_views_push, lemma_event_views_concat};

/// A gap from `expected_offset` on, of which the end is not known.
pub open spec fn open_gap(
    flow: FlowContextView,
    direction: Direction,
    expected_offset: u64,
    timestamp: Timestamp,
    evidence: ObservationOnlyReason,
    reason: Seq<char>,
) -> CaptureEventView {
    observed_gap_event(
        timestamp,
        flow,
        ebpf_origin(),
        evidence,
        EnforcementEvidencePropagation::Event,
        GapView { direction, expected_offset, next_offset: None, reason },
    )
}

/// A gap in each sampled direction of a flow, from where the direction was followed to.
pub open spec fn boundary_gaps(
    watched: TrackedFlowView,
    timestamp: Timestamp,
    evidence: ObservationOnlyReason,
    reason: Seq<char>,
) -> Seq<CaptureEventView> {
    watched.payload_directions.listed().map_values(
        |direction: Direction|
            open_gap(
                watched.flow,
                direction,
                watched.offset(direction),
                timestamp,
                evidence,
                reason,
            ),
    )
}

/// The boundary gaps of several flows, in the order of the flows.
pub open spec fn boundary_gaps_of_all(
    flows: Seq<TrackedFlowView>,
    timestamp: Timestamp,
    evidence: ObservationOnlyReason,
    reason: Seq<char>,
) -> Seq<CaptureEventView>
    decreases flows.len(),
{
    if flows.len() == 0 {
        Seq::empty()
    } else {
        boundary_gaps_of_all(flows.drop_last(), timestamp, evidence, reason) + boundary_gaps(
            flows.last(),
            timestamp,
            evidence,
            reason,
        )
    }
}

/// What a loss of events leaves unknown.
pub open spec fn output_loss_gap_reason(lost_events: u64) -> Seq<char> {
    "eBPF process observation output ring buffer could not accept "@ + decimal_digits(
        lost_events as nat,
    ) + " event(s); affected flow, time, bytes and next stream offset are unknown"@
}

/// What the end of a process's descriptors leaves unknown.
pub open spec fn lifecycle_gap_reason(tgid: u32, kind: EbpfProcessLifecycleKind) -> Seq<char> {
    "eBPF payload tracking reached a "@ + kind.text() + " boundary of TGID "@ + decimal_digits(
        tgid as nat,
    ) + "; later bytes and next stream offset are unknown"@
}

pub const HANDOFF_GAP_REASON: &'static str = "eBPF process observation reached a runtime generation handoff; affected bytes and next stream offset are unknown";

pub const RECOVERED_FLOW_GAP_REASON: &'static str = "eBPF process observation recovered this flow from a payload observation without its flow start; earlier bytes and next stream offset are unknown";

fn open_gap_event(
    flow: FlowContext,
    direction: Direction,
    expected_offset: u64,
    timestamp: Timestamp,
    evidence: ObservationOnlyReason,
    reason: String,
) -> (event: CaptureEvent)
    ensures
        event@ == open_gap(flow@, direction, expected_offset, timestamp, evidence, reason@),
{
    build_observed_gap_event(
        timestamp,
        flow,
        CaptureOrigin::from_source(CaptureSource::EbpfSyscall),
        evidence,
        EnforcementEvidencePropagation::Event,
        Gap { direction, expected_offset, next_offset: None, reason },
    )
}

fn push_boundary_gaps(
    events: &mut Vec<CaptureEvent>,
    watched: &TrackedEbpfFlow,
    timestamp: Timestamp,
    evidence: ObservationOnlyReason,
    reason: &str,
)
    ensures
        event_views(final(events)@) == event_views(old(events)@) + boundary_gaps(
            watched@,
            timestamp,
            evidence,
            reason@,
        ),
{
    let listed = watched.payload_directions.directions();
    let ghost gaps = boundary_gaps(watched@, timestamp, evidence, reason@);
    let mut index: usize = 0;
    assert(event_views(events@) =~= event_views(old(events)@) + gaps.take(0));
    while index < listed.len()
        invariant
            index <= listed.len(),
            listed@ == watched@.payload_directions.listed(),
            gaps == boundary_gaps(watched@, timestamp, evidence, reason@),
            event_views(events@) == event_views(old(events)@) + gaps.take(index as int),
        decreases listed.len() - index,
    {
        let direction = listed[index];
        events.push(
            open_gap_event(
                watched.flow.clone(),
                direction,
                watched.stream_offset(direction),
                timestamp,
                evidence,
                reason.to_owned(),
            ),
        );
        assert(event_views(events@) =~= event_views(old(events)@) + gaps.take(index + 1));
        index = index + 1;
    }
    assert(gaps.take(index as int) =~= gaps);
}

fn boundary_gap_events(
    targets: &Vec<&TrackedEbpfFlow>,
    timestamp: Timestamp,
    evidence: ObservationOnlyReason,
    reason: &str,
) -> (events: Vec<CaptureEvent>)
    ensures
        event_views(events@) == boundary_gaps_of_all(
            target_views(targets@),
            timestamp,
            evidence,
            reason@,
        ),
{
    let mut events: Vec<CaptureEvent> = Vec::new();
    let ghost flows = target_views(targets@);
    let mut index: usize = 0;
    assert(event_views(events@) =~= boundary_gaps_of_all(
        flows.take(0),
        timestamp,
        evidence,
        reason@,
    ));
    while index < targets.len()
        invariant
            index <= targets.len(),
            flows == target_views(targets@),
            event_views(events@) == boundary_gaps_of_all(
                flows.take(index as int),
                timestamp,
                evidence,
                reason@,
            ),
        decreases targets.len() - index,
    {
        push_boundary_gaps(&mut events, targets[index], timestamp, evidence, reason);
        proof {
            assert(flows.take(index + 1).drop_last() =~= flows.take(index as int));
            assert(flows[index as int] == targets@[index as int]@);
        }
        index = index + 1;
    }
    assert(flows.take(index as int) =~= flows);
    events
}

/// Gaps for every sampled flow after events were lost.
pub fn output_loss_gap_events(
    flows: &TrackedEbpfFlows,
    timestamp: Timestamp,
    lost_events: u64,
) -> (events: Vec<CaptureEvent>)
    ensures
        event_views(events@) == boundary_gaps_of_all(
            sampled_flows(flows@),
            timestamp,
            ObservationOnlyReason::EbpfCaptureLoss,
            output_loss_gap_reason(lost_events),
        ),
{
    let mut reason = String::new();
    push_labelled(
        &mut reason,
        "eBPF process observation output ring buffer could not accept ",
        lost_events,
    );
    reason.append(" event(s); affected flow, time, bytes and next stream offset are unknown");
    assert(reason@ =~= output_loss_gap_reason(lost_events));
    boundary_gap_events(
        &flows.active_payload_gap_targets(),
        timestamp,
        ObservationOnlyReason::EbpfCaptureLoss,
        reason.as_str(),
    )
}

/// Gaps for sampled flows of a process whose descriptors came to an end.
pub fn process_lifecycle_gap_events(
    targets: &Vec<&TrackedEbpfFlow>,
    timestamp: Timestamp,
    tgid: u32,
    kind: EbpfProcessLifecycleKind,
) -> (events: Vec<CaptureEvent>)
    ensures
        event_views(events@) == boundary_gaps_of_all(
            target_views(targets@),
            timestamp,
            ObservationOnlyReason::EbpfProcessLifecycleBoundary,
            lifecycle_gap_reason(tgid, kind),
        ),
{
    let mut reason = joined("eBPF payload tracking reached a ", kind.boundary_description());
    push_labelled(&mut reason, " boundary of TGID ", tgid as u64);
    reason.append("; later bytes and next stream offset are unknown");
    boundary_gap_events(
        targets,
        timestamp,
        ObservationOnlyReason::EbpfProcessLifecycleBoundary,
        reason.as_str(),
    )
}

/// Gaps for a flow that is no longer tracked.
pub fn tracked_flow_displacement_gap_events(
    displacement: TrackedEbpfFlowDisplacement,
    timestamp: Timestamp,
) -> (events: Vec<CaptureEvent>)
    ensures
        event_views(events@) == boundary_gaps(
            displaced_flow(displacement@),
            timestamp,
            ObservationOnlyReason::ProviderStateBoundary,
            displacement_reason(displacement@),
        ),
{
    let mut events: Vec<CaptureEvent> = Vec::new();
    let reason = displacement.reason();
    let watched = displacement.into_tracked_flow();
    push_boundary_gaps(
        &mut events,
        &watched,
        timestamp,
        ObservationOnlyReason::ProviderStateBoundary,
        reason,
    );
    assert(event_views(events@) =~= boundary_gaps(
        displaced_flow(displacement@),
        timestamp,
        ObservationOnlyReason::ProviderStateBoundary,
        displacement_reason(displacement@),
    ));
    events
}

/// Gaps for every sampled flow at the end of a runtime generation.
pub fn tracked_flow_handoff_boundary_gap_events(
    flows: &TrackedEbpfFlows,
    timestamp: Timestamp,
) -> (events: Vec<CaptureEvent>)
    ensures
        event_views(events@) == boundary_gaps_of_all(
            sampled_flows(flows@),
            timestamp,
            ObservationOnlyReason::ProviderStateBoundary,
            HANDOFF_GAP_REASON@,
        ),
{
    boundary_gap_events(
        &flows.active_payload_gap_targets(),
        timestamp,
        ObservationOnlyReason::ProviderStateBoundary,
        HANDOFF_GAP_REASON,
    )
}

/// The gap in front of the first payload of a flow whose start was not observed.
pub fn recovered_payload_flow_boundary_gap_event(
    timestamp: Timestamp,
    flow: FlowContext,
    direction: Direction,
) -> (event: CaptureEvent)
    ensures
        event@ == open_gap(
            flow@,
            direction,
            0,
            timestamp,
            ObservationOnlyReason::ProviderStateBoundary,
            RECOVERED_FLOW_GAP_REASON@,
        ),
{
    open_gap_event(
        flow,
        direction,
        0,
        timestamp,
        ObservationOnlyReason::ProviderStateBoundary,
        RECOVERED_FLOW_GAP_REASON.to_owned(),
    )
}

/// Whether an event is a gap of one direction of a flow that starts at `offset`.
pub open spec fn is_gap_at(
    event: CaptureEventView,
    flow: FlowContextView,
    direction: Direction,
    offset: u64,
) -> bool {
    event matches CaptureEventView::Gap(gap) && gap.flow == flow && gap.gap.direction == direction
        && gap.gap.expected_offset == offset && gap.gap.next_offset is None
}

/// A boundary is told in every sampled direction of every flow that it touches: the gap starts
/// where the direction was followed to, and its end is not known.
pub proof fn law_boundary_reaches_every_sampled_direction(
    flows: Seq<TrackedFlowView>,
    timestamp: Timestamp,
    evidence: ObservationOnlyReason,
    reason: Seq<char>,
    index: int,
    direction: Direction,
)
    requires
        0 <= index < flows.len(),
        flows[index].payload_directions.has(direction),
    ensures
        exists|place: int|
            0 <= place < boundary_gaps_of_all(flows, timestamp, evidence, reason).len()
                && is_gap_at(
                #[trigger] boundary_gaps_of_all(flows, timestamp, evidence, reason)[place],
                flows[index].flow,
                direction,
                flows[index].offset(direction),
            ),
    decreases flows.len(),
{
    let all = boundary_gaps_of_all(flows, timestamp, evidence, reason);
    let earlier = boundary_gaps_of_all(flows.drop_last(), timestamp, evidence, reason);
    if index < flows.len() - 1 {
        law_boundary_reaches_every_sampled_direction(
            flows.drop_last(),
            timestamp,
            evidence,
            reason,
            index,
            direction,
        );
        let place = choose|place: int|
            0 <= place < earlier.len() && is_gap_at(
                #[trigger] earlier[place],
                flows[index].flow,
                direction,
                flows[index].offset(direction),
            );
        assert(all[place] == earlier[place]);
    } else {
        let watched = flows[index];
        let listed = watched.payload_directions.listed();
        let place: int = if direction == Direction::Outbound && watched.payload_directions.inbound {
            1
        } else {
            0
        };
        assert(listed[place] == direction);
        assert(is_gap_at(
            all[earlier.len() + place],
            watched.flow,
            direction,
            watched.offset(direction),
        ));
    }
}

} // verus!
