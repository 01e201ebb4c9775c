//! What holds of the provider over any course of replies.
use vstd::prelude::*;

use crate::bounded_recency::{lemma_newest_is_bounded, well_bounded};
use crate::event::CaptureEventView;
use crate::keyed::{
    lemma_filter_keeps_values, lemma_index_of, lemma_without_key, value_of, without_key,
};
use crate::model::{Direction, FlowContextView, Timestamp};
use crate::provider::{CaptureErrorView, CapturePollView};

use super::descriptor_lease::{observed_key, DescriptorLease, DescriptorLeaseKey};
use super::flow_start::{PendingEbpfFlowResolution, PendingEbpfFlowStart};
use super::observing::{
    is_of_others, is_of_process, waiting_in_front, AttemptReplies, ObservationStateView, PollReplies,
    quiet, MAX_PENDING_EBPF_FLOW_RESOLUTIONS,
};
use super::ledger::{group_talk, SourceExchange, Talk};
use super::payload_authorization::{sampled_directions, SocketPayloadSampleAuthorization};
use super::payload_bridge::{after_sample, flows_after_payload, PayloadSampleView};
use super::payload_direction::PayloadDirections;
use super::resolution::{opened_by_reply, ProcessReply};
use super::tracked_flow::{
    allowance_is_retained, matches_payload, sampled_flows, used_with, FlowEntries, TrackedFlowView,
};
use super::types::{
    EbpfCloseTracepointObservation, EbpfProcessLifecycleObservation, EbpfProcessObservationView,
};

verus! {

broadcast use group_talk;

/// Events come out in the order in which they were put in, and nothing else happens before they
/// are out: neither a poll nor a drain looks for more, or asks anyone for anything, while one
/// waits.
pub proof fn law_waiting_events_come_first(
    state: ObservationStateView,
    now_ns: u64,
    wall_time_unix_ns: i64,
    replies: PollReplies,
)
    requires
        state.pending_events.len() > 0,
    ensures
        state.polled(now_ns, wall_time_unix_ns, replies) == quiet(
            ObservationStateView { pending_events: state.pending_events.drop_first(), ..state },
            Ok(CapturePollView::Event(state.pending_events[0])),
        ),
        state.drained_for_handoff(now_ns, wall_time_unix_ns, replies) == state.polled(
            now_ns,
            wall_time_unix_ns,
            replies,
        ),
{
}

/// A start of a flow is never dropped without a word: looking for its connection fails with an
/// error, brings an event, or leaves it waiting at the end of the queue.
pub proof fn law_flow_start_is_answered(
    state: ObservationStateView,
    pending: PendingEbpfFlowResolution,
    respect_delay: bool,
    now_ns: u64,
    replies: AttemptReplies,
)
    ensures
        ({
            let next = state.attempted(pending, respect_delay, now_ns, replies);
            ||| next.poll is Err
            ||| next.poll matches Ok(CapturePollView::Event(_))
            ||| {
                &&& next.poll == Ok::<CapturePollView, CaptureErrorView>(CapturePollView::Progress)
                &&& next.state.pending_flows.len() == state.pending_flows.len() + 1
                &&& next.state.pending_flows.last().flow_start == pending.flow_start
            }
        }),
{
    reveal(ObservationStateView::attempted);
    reveal(ObservationStateView::started);
    reveal(ObservationStateView::fallen_back);
    reveal(ObservationStateView::inserted);
}

/// What always holds of a state: the tracked flows are within their bound, the waiting starts are
/// within theirs, and no waiting start was looked at more often than it may be.
pub open spec fn sound(state: ObservationStateView) -> bool {
    &&& well_bounded(state.flows, state.capacity)
    &&& state.pending_flows.len() <= MAX_PENDING_EBPF_FLOW_RESOLUTIONS
    &&& forall|index: int|
        0 <= index < state.pending_flows.len() ==> (
        #[trigger] state.pending_flows[index]).attempts_completed <= state.retries
}

/// Whether two states go on in the same way: nothing that was configured has changed, and the
/// clock has not gone back.
pub open spec fn continues(earlier: ObservationStateView, later: ObservationStateView) -> bool {
    &&& later.capacity == earlier.capacity
    &&& later.retries == earlier.retries
    &&& later.retry_sleep_ns == earlier.retry_sleep_ns
    &&& later.stop_when_idle == earlier.stop_when_idle
    &&& later.selector == earlier.selector
    &&& later.process_selector == earlier.process_selector
    &&& later.sequence >= earlier.sequence
}

/// A state that has tracked nothing yet is sound.
pub proof fn law_fresh_state_is_sound(state: ObservationStateView)
    requires
        state.flows.len() == 0,
        state.pending_flows.len() == 0,
    ensures
        sound(state),
{
}

proof fn lemma_started_is_sound(
    state: ObservationStateView,
    start: PendingEbpfFlowStart,
    event: CaptureEventView,
    replies: AttemptReplies,
)
    requires
        sound(state),
    ensures
        sound(state.started(start, event, replies).state),
        continues(state, state.started(start, event, replies).state),
        state.started(start, event, replies).state.pending_flows == state.pending_flows,
{
    reveal(ObservationStateView::started);
    reveal(ObservationStateView::inserted);
    if let CaptureEventView::ConnectionOpened { flow, .. } = event {
        if let Some(lease) = start.lease() {
            lemma_newest_is_bounded(
                state.flows,
                state.capacity,
                lease.lease_key(),
                TrackedFlowView::fresh(flow, sampled_directions(flow, state.selector)),
            );
        }
    }
}

proof fn lemma_waiting_is_sound(
    state: ObservationStateView,
    pending: PendingEbpfFlowResolution,
    replies: ProcessReply,
)
    requires
        sound(state),
        pending.attempts_completed <= state.retries,
    ensures
        sound(state.waiting(pending, replies).state),
        continues(state, state.waiting(pending, replies).state),
{
    let next = state.waiting(pending, replies).state;
    assert forall|index: int| 0 <= index < next.pending_flows.len() implies (
    #[trigger] next.pending_flows[index]).attempts_completed <= next.retries by {
        if index < state.pending_flows.len() {
            assert(next.pending_flows[index] == state.pending_flows[index]);
        }
    }
}

proof fn lemma_attempted_is_sound(
    state: ObservationStateView,
    pending: PendingEbpfFlowResolution,
    respect_delay: bool,
    now_ns: u64,
    replies: AttemptReplies,
)
    requires
        sound(state),
        pending.attempts_completed <= state.retries,
    ensures
        sound(state.attempted(pending, respect_delay, now_ns, replies).state),
        continues(state, state.attempted(pending, respect_delay, now_ns, replies).state),
{
    reveal(ObservationStateView::attempted);
    reveal(ObservationStateView::fallen_back);
    if respect_delay && pending.waits(now_ns) {
        lemma_waiting_is_sound(state, pending, replies.gap);
    } else {
        match opened_by_reply(replies.flow, pending.timestamp) {
            Err(_) => {},
            Ok(Some(event)) => {
                lemma_started_is_sound(state, pending.flow_start, event, replies);
            },
            Ok(None) => {
                if pending.attempts_completed < state.retries {
                    lemma_waiting_is_sound(
                        state,
                        pending.put_off(now_ns, state.retry_sleep_ns),
                        replies.gap,
                    );
                } else if let Ok(Some(event)) = pending.flow_start.observed(
                    pending.timestamp,
                    replies.fallback,
                ) {
                    lemma_started_is_sound(state, pending.flow_start, event, replies);
                }
            },
        }
    }
}

proof fn lemma_waiting_in_front_bound(queue: Seq<PendingEbpfFlowResolution>, now_ns: u64)
    ensures
        waiting_in_front(queue, now_ns) <= queue.len(),
    decreases queue.len(),
{
    if queue.len() > 0 && queue[0].waits(now_ns) {
        lemma_waiting_in_front_bound(queue.drop_first(), now_ns);
    }
}

proof fn lemma_resumed_is_sound(
    state: ObservationStateView,
    now_ns: u64,
    replies: AttemptReplies,
)
    requires
        sound(state),
    ensures
        sound(state.resumed(now_ns, replies).state),
        continues(state, state.resumed(now_ns, replies).state),
{
    reveal(ObservationStateView::resumed);
    lemma_waiting_in_front_bound(state.pending_flows, now_ns);
    let skipped = waiting_in_front(state.pending_flows, now_ns) as int;
    if skipped < state.pending_flows.len() {
        let turned = ObservationStateView {
            pending_flows: state.pending_flows.skip(skipped + 1) + state.pending_flows.take(
                skipped,
            ),
            ..state
        };
        assert forall|index: int| 0 <= index < turned.pending_flows.len() implies (
        #[trigger] turned.pending_flows[index]).attempts_completed <= turned.retries by {
            let rest = state.pending_flows.len() - skipped - 1;
            if index < rest {
                assert(turned.pending_flows[index] == state.pending_flows[skipped + 1 + index]);
            } else {
                assert(turned.pending_flows[index] == state.pending_flows[index - rest]);
            }
        }
        lemma_attempted_is_sound(turned, state.pending_flows[skipped], true, now_ns, replies);
    }
}

proof fn lemma_payload_is_sound(
    flows: FlowEntries,
    capacity: usize,
    key: Option<DescriptorLeaseKey>,
    sample: PayloadSampleView,
)
    requires
        well_bounded(flows, capacity),
    ensures
        well_bounded(flows_after_payload(flows, key, sample), capacity),
{
    if matches_payload(flows, key, sample.direction) {
        let found = key->0;
        let kept = without_key(flows, found);
        lemma_without_key(flows, found);
        lemma_index_of(flows, found);
        let value = after_sample(value_of(flows, found), sample);
        let used = used_with(flows, found, value);
        lemma_index_of(kept, found);
        assert forall|first: int, second: int|
            #![trigger used[first], used[second]]
            0 <= first < second < used.len() implies used[first].0 != used[second].0 by {
            assert(used[first] == kept[first]);
            if second < kept.len() {
                assert(used[second] == kept[second]);
            }
        }
    }
}

proof fn lemma_observed_is_sound(
    state: ObservationStateView,
    observation: EbpfProcessObservationView,
    now_ns: u64,
    wall_time_unix_ns: i64,
    replies: PollReplies,
)
    requires
        sound(state),
    ensures
        sound(state.observed(observation, now_ns, wall_time_unix_ns, replies).state),
        continues(state, state.observed(observation, now_ns, wall_time_unix_ns, replies).state),
{
    reveal(ObservationStateView::observed);
    reveal(ObservationStateView::begun);
    match observation {
        EbpfProcessObservationView::Connect(connect) => {
            let start = PendingEbpfFlowStart::Connect(connect);
            lemma_attempted_is_sound(
                state.ticked(),
                PendingEbpfFlowResolution::fresh(start, state.stamp(wall_time_unix_ns)),
                true,
                now_ns,
                replies.attempt,
            );
        },
        EbpfProcessObservationView::Accept(accept) => {
            let start = PendingEbpfFlowStart::Accept(accept);
            lemma_attempted_is_sound(
                state.ticked(),
                PendingEbpfFlowResolution::fresh(start, state.stamp(wall_time_unix_ns)),
                true,
                now_ns,
                replies.attempt,
            );
        },
        EbpfProcessObservationView::Close(close) => {
            if let Some(key) = observed_key(close.process.tgid, close.fd, close.fd_generation) {
                lemma_without_key(state.flows, key);
            }
        },
        EbpfProcessObservationView::CloseRange(close_range) => {
            let outside = |entry: (DescriptorLeaseKey, TrackedFlowView)|
                !entry.0.inside(close_range);
            lemma_filter_keeps_values(state.flows, outside);
            state.flows.lemma_filter_len(outside);
        },
        EbpfProcessObservationView::ProcessLifecycle(lifecycle) => {
            lemma_lifecycle_is_sound(state, lifecycle, wall_time_unix_ns, replies.cancelled);
        },
        EbpfProcessObservationView::Write(write) => {
            lemma_payload_is_sound(
                state.flows,
                state.capacity,
                observed_key(write.process.tgid, write.fd, write.fd_generation),
                super::payload_bridge::write_sample(write),
            );
        },
        EbpfProcessObservationView::Read(read) => {
            lemma_payload_is_sound(
                state.flows,
                state.capacity,
                observed_key(read.process.tgid, read.fd, read.fd_generation),
                super::payload_bridge::read_sample(read),
            );
        },
    }
}

proof fn lemma_lifecycle_is_sound(
    state: ObservationStateView,
    lifecycle: EbpfProcessLifecycleObservation,
    wall_time_unix_ns: i64,
    replies: Seq<ProcessReply>,
)
    requires
        sound(state),
    ensures
        sound(state.lifecycle_ended(lifecycle, wall_time_unix_ns, replies).state),
        continues(state, state.lifecycle_ended(lifecycle, wall_time_unix_ns, replies).state),
{
    let others = is_of_others(lifecycle.process.tgid);
    let kept = state.pending_flows.filter(others);
    state.pending_flows.lemma_filter_len(others);
    assert forall|index: int| 0 <= index < kept.len() implies (
    #[trigger] kept[index]).attempts_completed <= state.retries by {
        assert(kept.contains(kept[index]));
        state.pending_flows.lemma_filter_contains_rev(others, kept[index]);
        let origin = choose|origin: int|
            0 <= origin < state.pending_flows.len() && state.pending_flows[origin] == kept[index];
        assert(state.pending_flows[origin].attempts_completed <= state.retries);
    }
}

proof fn lemma_drained_is_sound(
    state: ObservationStateView,
    now_ns: u64,
    wall_time_unix_ns: i64,
    replies: PollReplies,
)
    requires
        sound(state),
    ensures
        sound(state.drained(now_ns, wall_time_unix_ns, replies).state),
        continues(state, state.drained(now_ns, wall_time_unix_ns, replies).state),
        sound(state.emptied(now_ns, wall_time_unix_ns, replies).state),
        continues(state, state.emptied(now_ns, wall_time_unix_ns, replies).state),
{
    reveal(ObservationStateView::drained);
    reveal(ObservationStateView::emptied);
    if state.pending_flows.len() > 0 {
        lemma_resumed_is_sound(state, now_ns, replies.attempt);
        let shorter = state.without_first_start();
        assert forall|index: int| 0 <= index < shorter.pending_flows.len() implies (
        #[trigger] shorter.pending_flows[index]).attempts_completed <= shorter.retries by {
            assert(shorter.pending_flows[index] == state.pending_flows[index + 1]);
        }
        lemma_attempted_is_sound(
            shorter,
            state.pending_flows[0],
            false,
            now_ns,
            replies.attempt,
        );
    } else if let Ok(Some(observation)) = replies.observation {
        lemma_observed_is_sound(
            ObservationStateView { loss: state.loss.observed(), ..state },
            observation,
            now_ns,
            wall_time_unix_ns,
            replies,
        );
    }
}

/// Whatever is observed and replied, what is kept stays within its bounds, what was configured
/// stays, and the clock does not go back.
pub proof fn law_every_step_keeps_bounds(
    state: ObservationStateView,
    now_ns: u64,
    wall_time_unix_ns: i64,
    replies: PollReplies,
)
    requires
        sound(state),
    ensures
        sound(state.polled(now_ns, wall_time_unix_ns, replies).state),
        continues(state, state.polled(now_ns, wall_time_unix_ns, replies).state),
        sound(state.drained_for_handoff(now_ns, wall_time_unix_ns, replies).state),
        continues(state, state.drained_for_handoff(now_ns, wall_time_unix_ns, replies).state),
{
    if state.pending_events.len() == 0 {
        if state.loss.due() {
            if let Ok(count) = replies.first_count {
                let next = state.loss_checked(count, wall_time_unix_ns).state;
                assert(sound(next) && continues(state, next));
                lemma_drained_is_sound(next, now_ns, wall_time_unix_ns, replies);
            }
        } else {
            lemma_drained_is_sound(state, now_ns, wall_time_unix_ns, replies);
        }
    }
}

/// A flow whose payload is selected is not tracked unless the kernel was told to sample it: where
/// that fails, the error comes out, nothing has changed, and nothing else was told.
pub proof fn law_failed_allowance_tracks_nothing(
    state: ObservationStateView,
    start: PendingEbpfFlowStart,
    flow: FlowContextView,
    timestamp: Timestamp,
    replies: AttemptReplies,
)
    requires
        start.lease() is Some,
        sampled_directions(flow, state.selector) != PayloadDirections::none(),
        replies.allowed is Err,
    ensures
        state.started(start, super::bridge::opened(flow, timestamp), replies) == quiet(
            state,
            Err(replies.allowed->Err_0),
        ).after(
            Talk::with_source(
                SourceExchange::AllowSocket(
                    SocketPayloadSampleAuthorization {
                        lease: start.lease()->0,
                        payload_directions: sampled_directions(flow, state.selector),
                    },
                    replies.allowed,
                ),
            ),
        ),
{
    reveal(ObservationStateView::started);
}

/// The kernel is told to sample a socket exactly where payload of its flow is selected, in the
/// selected directions and no others, and before the flow is tracked; the only other thing that
/// it is told about sockets is to sample one no more.
pub proof fn law_sockets_are_sampled_as_selected(
    state: ObservationStateView,
    start: PendingEbpfFlowStart,
    flow: FlowContextView,
    timestamp: Timestamp,
    replies: AttemptReplies,
)
    requires
        start.lease() is Some,
    ensures
        ({
            let told = state.started(
                start,
                super::bridge::opened(flow, timestamp),
                replies,
            ).talk.source;
            let directions = sampled_directions(flow, state.selector);
            &&& directions != PayloadDirections::none() ==> told.len() > 0 && told[0]
                == SourceExchange::AllowSocket(
                SocketPayloadSampleAuthorization {
                    lease: start.lease()->0,
                    payload_directions: directions,
                },
                replies.allowed,
            )
            &&& forall|index: int|
                0 <= index < told.len() && !(index == 0 && directions != PayloadDirections::none())
                    ==> (#[trigger] told[index]) is RevokeSocket
        }),
{
    reveal(ObservationStateView::started);
    reveal(ObservationStateView::inserted);
}

/// A new flow on the descriptor number of the flow that it displaces keeps what the kernel was
/// told to sample there: a tracked flow still needs it.
pub proof fn law_replacement_keeps_allowance(
    state: ObservationStateView,
    lease: DescriptorLease,
    flow: FlowContextView,
    directions: PayloadDirections,
    displaced: DescriptorLeaseKey,
)
    requires
        sound(state),
        state.capacity > 0,
        directions != PayloadDirections::none(),
        displaced.shares_allowance_with(lease.lease_key()),
    ensures
        allowance_is_retained(
            state.with_flow(lease.lease_key(), flow, directions).flows,
            displaced,
        ),
{
    let next = state.with_flow(lease.lease_key(), flow, directions).flows;
    let newest = next.len() - 1;
    assert(next[newest] == (lease.lease_key(), TrackedFlowView::fresh(flow, directions)));
    assert(next[newest].0.shares_allowance_with(displaced));
}

/// The end of a process's descriptors forgets none of its tracked flows, and leaves none of its
/// starts of flows waiting.
pub proof fn law_lifecycle_keeps_flows_and_drops_starts(
    state: ObservationStateView,
    lifecycle: EbpfProcessLifecycleObservation,
    wall_time_unix_ns: i64,
    replies: Seq<ProcessReply>,
)
    ensures
        ({
            let next = state.lifecycle_ended(lifecycle, wall_time_unix_ns, replies).state;
            &&& next.flows == state.flows
            &&& forall|index: int|
                0 <= index < next.pending_flows.len() ==> (
                #[trigger] next.pending_flows[index]).flow_start.process().tgid
                    != lifecycle.process.tgid
        }),
{
    let tgid = lifecycle.process.tgid;
    let mine = is_of_process(tgid);
    let others = is_of_others(tgid);
    let next = state.lifecycle_ended(lifecycle, wall_time_unix_ns, replies).state;
    assert forall|index: int| 0 <= index < next.pending_flows.len() implies (
    #[trigger] next.pending_flows[index]).flow_start.process().tgid != tgid by {
        if next.pending_flows == state.pending_flows {
            if state.pending_flows[index].flow_start.process().tgid == tgid {
                state.pending_flows.lemma_filter_contains(mine, index);
                if state.pending_flows == state.pending_flows.filter(others) {
                    state.pending_flows.lemma_filter_pred(others, index);
                }
            }
        } else {
            state.pending_flows.lemma_filter_pred(others, index);
        }
    }
}

/// A payload observation that no tracked flow asks for brings nothing and changes no flow.
pub proof fn law_unasked_payload_changes_no_flow(
    state: ObservationStateView,
    key: Option<DescriptorLeaseKey>,
    sample: PayloadSampleView,
    wall_time_unix_ns: i64,
)
    requires
        !matches_payload(state.flows, key, sample.direction),
        state.pending_events.len() == 0,
    ensures
        state.sampled(key, sample, wall_time_unix_ns) == quiet(
            state.ticked(),
            Ok(CapturePollView::Progress),
        ),
{
    assert(state.pending_events + Seq::<CaptureEventView>::empty() =~= state.pending_events);
}

/// Once a descriptor is closed, no payload of its generation is taken for a flow any more.
pub proof fn law_closed_descriptor_has_no_payload(
    state: ObservationStateView,
    close: EbpfCloseTracepointObservation,
    direction: Direction,
    wall_time_unix_ns: i64,
)
    requires
        sound(state),
    ensures
        !matches_payload(
            state.descriptor_closed(close, wall_time_unix_ns).state.flows,
            observed_key(close.process.tgid, close.fd, close.fd_generation),
            direction,
        ),
{
    if let Some(key) = observed_key(close.process.tgid, close.fd, close.fd_generation) {
        lemma_without_key(state.flows, key);
    }
}

/// A drain before a handoff takes no new observation: it asks the source for none, and what the
/// source would have brought makes no difference to it.
pub proof fn law_drain_takes_no_observation(
    state: ObservationStateView,
    now_ns: u64,
    wall_time_unix_ns: i64,
    replies: PollReplies,
    others: PollReplies,
)
    requires
        others == (PollReplies { observation: others.observation, ..replies }),
    ensures
        state.drained_for_handoff(now_ns, wall_time_unix_ns, replies) == state.drained_for_handoff(
            now_ns,
            wall_time_unix_ns,
            others,
        ),
        asks_for_no_observation(
            state.drained_for_handoff(now_ns, wall_time_unix_ns, replies).talk.source,
        ),
{
    reveal(ObservationStateView::emptied);
    if state.pending_events.len() == 0 {
        let checked = match replies.first_count {
            Ok(count) => if state.loss.due() {
                state.loss_checked(count, wall_time_unix_ns).state
            } else {
                state
            },
            Err(_) => state,
        };
        if checked.pending_flows.len() > 0 {
            lemma_attempt_asks_for_no_observation(
                checked.without_first_start(),
                checked.pending_flows[0],
                now_ns,
                replies.attempt,
            );
        }
    }
}

/// Whether none of the exchanges asks for an observation.
pub open spec fn asks_for_no_observation(exchanges: Seq<SourceExchange>) -> bool {
    forall|index: int| 0 <= index < exchanges.len() ==> !((#[trigger] exchanges[index]) is Next)
}

proof fn lemma_start_asks_for_no_observation(
    state: ObservationStateView,
    start: PendingEbpfFlowStart,
    event: CaptureEventView,
    replies: AttemptReplies,
)
    ensures
        asks_for_no_observation(state.started(start, event, replies).talk.source),
{
    reveal(ObservationStateView::started);
    reveal(ObservationStateView::inserted);
}

proof fn lemma_attempt_asks_for_no_observation(
    state: ObservationStateView,
    pending: PendingEbpfFlowResolution,
    now_ns: u64,
    replies: AttemptReplies,
)
    ensures
        asks_for_no_observation(
            state.attempted(pending, false, now_ns, replies).talk.source,
        ),
{
    reveal(ObservationStateView::attempted);
    reveal(ObservationStateView::fallen_back);
    if let Ok(Some(event)) = opened_by_reply(replies.flow, pending.timestamp) {
        lemma_start_asks_for_no_observation(state, pending.flow_start, event, replies);
    }
    if let Ok(Some(event)) = pending.flow_start.observed(pending.timestamp, replies.fallback) {
        lemma_start_asks_for_no_observation(state, pending.flow_start, event, replies);
    }
}

/// The boundary of a handoff is told once: after it, a drain with nothing left to tell stays
/// idle, until the provider is polled again.
pub proof fn law_handoff_boundary_is_told_once(
    state: ObservationStateView,
    now_ns: u64,
    wall_time_unix_ns: i64,
    replies: PollReplies,
)
    requires
        state.handoff_emitted,
        state.pending_events.len() == 0,
        state.pending_flows.len() == 0,
        !state.loss.due(),
        replies.last_count matches Ok(count) && count <= state.loss.last_count,
    ensures
        ({
            let next = state.drained_for_handoff(now_ns, wall_time_unix_ns, replies);
            &&& next.poll == Ok::<CapturePollView, CaptureErrorView>(CapturePollView::Idle)
            &&& next.state.flows == state.flows
            &&& next.state.sequence == state.sequence
            &&& next.state.pending_events.len() == 0
        }),
        !state.running().handoff_emitted,
{
    reveal(ObservationStateView::emptied);
}

/// The boundary of a handoff forgets no flow: what is tracked goes on where it was.
pub proof fn law_handoff_keeps_flows(state: ObservationStateView, wall_time_unix_ns: i64)
    ensures
        state.handed_off(wall_time_unix_ns).state.flows == state.flows,
        state.handed_off(wall_time_unix_ns).state.handoff_emitted,
        !state.handoff_emitted && state.pending_events.len() == 0 && sampled_flows(
            state.flows,
        ).len() == 0 ==> state.handed_off(wall_time_unix_ns).event is None,
{
}

} // verus!
