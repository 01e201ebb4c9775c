//! What is told where descriptors, processes and runtime generations end.
use vstd::prelude::*;

use crate::event::CaptureEventView;
use crate::keyed::{distinct_keys, lemma_held_at};
use crate::model::{Direction, FlowContextView, ObservationOnlyReason};
use crate::provider::{CaptureErrorView, CapturePollView};

use super::boundary::{
    boundary_gaps_of_all, is_gap_at, law_boundary_reaches_every_sampled_direction,
    lifecycle_gap_reason, HANDOFF_GAP_REASON,
};
use super::course_laws::told;
use super::descriptor_lease::{
    descriptor_order, lemma_descriptor_order_is_total, DescriptorLeaseKey,
};
use super::flow_start::PendingEbpfFlowResolution;
use super::ledger::SourceExchange;
use super::observing::{
    cancelled_gaps, closed_events, is_of_others, is_of_process, ObservationStateView, PollReplies,
};
use super::poll_laws::{lemma_sampled_flow, tells_gap};
use super::resolution::ProcessReply;
use super::tracked_flow::{
    flows_under, keys_in_close_range, keys_of, sampled_flows, sampled_keys_of_process, FlowEntries,
    TrackedFlowView,
};
use super::types::{EbpfCloseRangeTracepointObservation, EbpfProcessLifecycleObservation};

verus! {

/// The keys of the entries that meet a condition, in descriptor order, hold the key of each of them.
proof fn lemma_sorted_keys(
    entries: FlowEntries,
    wanted: spec_fn((DescriptorLeaseKey, TrackedFlowView)) -> bool,
    index: int,
) -> (place: int)
    requires
        0 <= index < entries.len(),
        wanted(entries[index]),
    ensures
        ({
            let keys = keys_of(entries.filter(wanted)).sort_by(descriptor_order());
            0 <= place < keys.len() && keys[place] == entries[index].0
        }),
{
    let kept = entries.filter(wanted);
    let keys = keys_of(kept);
    let sorted = keys.sort_by(descriptor_order());
    let key = entries[index].0;
    entries.lemma_filter_contains(wanted, index);
    let found = choose|found: int| 0 <= found < kept.len() && kept[found] == entries[index];
    assert(keys[found] == key);
    lemma_descriptor_order_is_total();
    keys.lemma_sort_by_ensures(descriptor_order());
    keys.to_multiset_ensures();
    sorted.to_multiset_ensures();
    assert(keys.contains(key));
    assert(keys.to_multiset().count(key) > 0);
    assert(sorted.to_multiset().count(key) > 0);
    assert(sorted.contains(key));
    choose|place: int| 0 <= place < sorted.len() && sorted[place] == key
}

/// Whether some events tell the end of a flow.
pub open spec fn tells_end(events: Seq<CaptureEventView>, flow: FlowContextView) -> bool {
    exists|place: int|
        0 <= place < events.len() && ((#[trigger] events[place]) matches
            CaptureEventView::ConnectionClosed { flow: ended, .. } && ended == flow)
}

/// Closing a range of descriptors tells the end of each flow in it.
pub proof fn law_range_tells_each_end(
    state: ObservationStateView,
    close_range: EbpfCloseRangeTracepointObservation,
    wall_time_unix_ns: i64,
    index: int,
)
    requires
        distinct_keys(state.flows),
        0 <= index < state.flows.len(),
        state.flows[index].0.tgid == close_range.process.tgid,
        close_range.first_fd as int <= state.flows[index].0.fd as int <= close_range.last_fd as int,
    ensures
        tells_end(
            told(state.range_closed(close_range, wall_time_unix_ns)),
            state.flows[index].1.flow,
        ),
{
    let inside = |entry: (DescriptorLeaseKey, TrackedFlowView)| entry.0.inside(close_range);
    let place = lemma_sorted_keys(state.flows, inside, index);
    let keys = keys_in_close_range(state.flows, close_range);
    assert(keys[place] == state.flows[index].0);
    lemma_held_at(state.flows, index);
    let removed = flows_under(state.flows, keys);
    assert(removed[place] == state.flows[index].1);
    let timestamp = state.stamp(wall_time_unix_ns);
    let ends = closed_events(removed, timestamp);
    let next = state.range_closed(close_range, wall_time_unix_ns);
    let queued = state.pending_events + ends;
    assert(seq![queued[0]] + queued.drop_first() =~= queued);
    assert(told(next) =~= queued);
    assert(told(next)[state.pending_events.len() + place] == ends[place]);
}

/// At the end of a process's descriptors, every sampled direction of each of its flows has a gap from
/// where it was followed to.
pub proof fn law_lifecycle_boundary_is_told(
    state: ObservationStateView,
    lifecycle: EbpfProcessLifecycleObservation,
    wall_time_unix_ns: i64,
    replies: Seq<ProcessReply>,
    index: int,
    direction: Direction,
)
    requires
        distinct_keys(state.flows),
        0 <= index < state.flows.len(),
        state.flows[index].0.tgid == lifecycle.process.tgid,
        state.flows[index].1.payload_directions.has(direction),
    ensures
        ({
            let watched = state.flows[index].1;
            tells_gap(
                told(state.lifecycle_ended(lifecycle, wall_time_unix_ns, replies)),
                watched.flow,
                direction,
                watched.offset(direction),
            )
        }),
{
    let tgid = lifecycle.process.tgid;
    let watched = state.flows[index].1;
    let mine = |entry: (DescriptorLeaseKey, TrackedFlowView)|
        entry.0.tgid == tgid && entry.1.has_allowance();
    let place = lemma_sorted_keys(state.flows, mine, index);
    let keys = sampled_keys_of_process(state.flows, tgid);
    assert(keys[place] == state.flows[index].0);
    lemma_held_at(state.flows, index);
    let targets = flows_under(state.flows, keys);
    assert(targets[place] == watched);
    let timestamp = state.stamp(wall_time_unix_ns);
    let reason = lifecycle_gap_reason(tgid, lifecycle.kind);
    let evidence = ObservationOnlyReason::EbpfProcessLifecycleBoundary;
    let cancelled = state.pending_flows.filter(is_of_process(tgid));
    let first = cancelled_gaps(cancelled, lifecycle, timestamp, replies);
    let gaps = boundary_gaps_of_all(targets, timestamp, evidence, reason);
    law_boundary_reaches_every_sampled_direction(
        targets,
        timestamp,
        evidence,
        reason,
        place,
        direction,
    );
    let found = choose|found: int|
        0 <= found < gaps.len() && is_gap_at(
            #[trigger] gaps[found],
            watched.flow,
            direction,
            watched.offset(direction),
        );
    let next = state.lifecycle_ended(lifecycle, wall_time_unix_ns, replies);
    let queued = state.pending_events + (first + gaps);
    assert(seq![queued[0]] + queued.drop_first() =~= queued);
    assert(told(next) =~= queued);
    assert(told(next)[state.pending_events.len() + first.len() + found] == gaps[found]);
}

/// Whether an event tells the start of a flow as a gap.
pub open spec fn is_start_gap(event: CaptureEventView, pending: PendingEbpfFlowResolution) -> bool {
    event matches CaptureEventView::Gap(gap) && gap.gap.expected_offset == 0
        && gap.gap.next_offset is None && gap.gap.direction == if pending.flow_start is Connect {
        Direction::Outbound
    } else {
        Direction::Inbound
    }
}

/// At the end of a process's descriptors, a start of one of its flows that waits is told as a gap, and
/// one of another process goes on to wait.
pub proof fn law_lifecycle_tells_the_starts_it_drops(
    state: ObservationStateView,
    lifecycle: EbpfProcessLifecycleObservation,
    wall_time_unix_ns: i64,
    replies: Seq<ProcessReply>,
    index: int,
)
    requires
        0 <= index < state.pending_flows.len(),
    ensures
        ({
            let next = state.lifecycle_ended(lifecycle, wall_time_unix_ns, replies);
            let pending = state.pending_flows[index];
            let events = told(next);
            &&& pending.flow_start.process().tgid == lifecycle.process.tgid ==> exists|place: int|
                0 <= place < events.len() && is_start_gap(#[trigger] events[place], pending)
            &&& pending.flow_start.process().tgid != lifecycle.process.tgid
                ==> next.state.pending_flows.contains(pending)
        }),
{
    let tgid = lifecycle.process.tgid;
    let pending = state.pending_flows[index];
    let next = state.lifecycle_ended(lifecycle, wall_time_unix_ns, replies);
    if pending.flow_start.process().tgid == tgid {
        let mine = is_of_process(tgid);
        state.pending_flows.lemma_filter_contains(mine, index);
        let cancelled = state.pending_flows.filter(mine);
        let place = choose|place: int| 0 <= place < cancelled.len() && cancelled[place] == pending;
        let timestamp = state.stamp(wall_time_unix_ns);
        let first = cancelled_gaps(cancelled, lifecycle, timestamp, replies);
        let gaps = boundary_gaps_of_all(
            flows_under(state.flows, sampled_keys_of_process(state.flows, tgid)),
            timestamp,
            ObservationOnlyReason::EbpfProcessLifecycleBoundary,
            lifecycle_gap_reason(tgid, lifecycle.kind),
        );
        let queued = state.pending_events + (first + gaps);
        assert(seq![queued[0]] + queued.drop_first() =~= queued);
        assert(told(next) =~= queued);
        assert(told(next)[state.pending_events.len() + place] == first[place]);
        assert(is_start_gap(first[place], pending));
    } else {
        state.pending_flows.lemma_filter_contains(is_of_others(tgid), index);
    }
}

/// At the first handoff, every sampled direction of every tracked flow has a gap from where it was
/// followed to.
pub proof fn law_handoff_tells_every_sampled_direction(
    state: ObservationStateView,
    wall_time_unix_ns: i64,
    index: int,
    direction: Direction,
)
    requires
        !state.handoff_emitted,
        state.pending_events.len() == 0,
        0 <= index < state.flows.len(),
        state.flows[index].1.payload_directions.has(direction),
    ensures
        ({
            let next = state.handed_off(wall_time_unix_ns);
            let watched = state.flows[index].1;
            next.event matches Some(event) && tells_gap(
                seq![event] + next.state.pending_events,
                watched.flow,
                direction,
                watched.offset(direction),
            )
        }),
{
    let watched = state.flows[index].1;
    let place = lemma_sampled_flow(state.flows, index);
    let flows = sampled_flows(state.flows);
    let timestamp = state.stamp(wall_time_unix_ns);
    let evidence = ObservationOnlyReason::ProviderStateBoundary;
    let gaps = boundary_gaps_of_all(flows, timestamp, evidence, HANDOFF_GAP_REASON@);
    law_boundary_reaches_every_sampled_direction(
        flows,
        timestamp,
        evidence,
        HANDOFF_GAP_REASON@,
        place,
        direction,
    );
    let found = choose|found: int|
        0 <= found < gaps.len() && is_gap_at(
            #[trigger] gaps[found],
            watched.flow,
            direction,
            watched.offset(direction),
        );
    let next = state.handed_off(wall_time_unix_ns);
    assert(state.pending_events + gaps =~= gaps);
    let all = seq![gaps[0]] + gaps.drop_first();
    assert(all =~= gaps);
    assert(all[found] == gaps[found]);
}

/// A poll in which the loss counter is due reads it before anything else, and a loss that it shows is
/// what the poll tells; a failure to read it is handed on.
pub proof fn law_due_counter_is_read_first(
    state: ObservationStateView,
    now_ns: u64,
    wall_time_unix_ns: i64,
    replies: PollReplies,
)
    requires
        state.pending_events.len() == 0,
        state.loss.due(),
    ensures
        ({
            let next = state.polled(now_ns, wall_time_unix_ns, replies);
            &&& next.talk.source.len() > 0
            &&& next.talk.source[0] == SourceExchange::LossCount(replies.first_count)
            &&& replies.first_count matches Err(error) ==> next.poll == Err::<
                CapturePollView,
                CaptureErrorView,
            >(error) && next.state == state
            &&& replies.first_count matches Ok(count) ==> (count > state.loss.last_count ==> (
            next.poll matches Ok(CapturePollView::Event(CaptureEventView::Loss(lost)))
                && lost.loss.lost_events == count - state.loss.last_count))
        }),
{
}

} // verus!
