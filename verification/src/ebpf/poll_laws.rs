//! What a poll takes up, and what it tells.
use vstd::prelude::*;

use crate::address::address_port;
use crate::bounded_recency::displaced_by;
use crate::event::CaptureEventView;
use crate::keyed::{distinct_keys, holds, value_of};
use crate::model::{Direction, FlowContextView, ObservationOnlyReason, Timestamp};
use crate::provider::{CaptureErrorView, CapturePollView};

use super::boundary::{
    boundary_gaps, boundary_gaps_of_all, is_gap_at, law_boundary_reaches_every_sampled_direction,
    output_loss_gap_reason,
};
use super::course_laws::{
    law_close_ends_its_flow_alone, law_payload_belongs_to_its_descriptor,
    law_sampled_octets_are_told, tells_octet, told,
};
use super::descriptor_lease::{DescriptorLease, DescriptorLeaseKey};
use super::flow_start::{PendingEbpfFlowResolution, PendingEbpfFlowStart};
use super::ledger::{Answer, ResolverExchange, SourceExchange};
use super::observing::{waiting_in_front, AttemptReplies, ObservationStateView, PollReplies};
use super::payload_bridge::{read_sample, texts_for, write_sample};
use super::payload_direction::PayloadDirections;
use super::resolution::FallbackReplies;
use super::tracked_flow::{
    allowance_is_retained, displaced_flow, displaced_key, displacement_reason, sampled_flows,
    FlowEntries, TrackedFlowView,
};
use super::types::{
    EbpfCloseTracepointObservation, EbpfProcessObservationView, EbpfSocketEndpoint,
    EbpfSocketReadObservationView, EbpfSocketWriteObservationView,
};

verus! {

/// Whether some events hold a gap of a direction of a flow that starts at an offset and whose end is
/// not known.
pub open spec fn tells_gap(
    events: Seq<CaptureEventView>,
    flow: FlowContextView,
    direction: Direction,
    offset: u64,
) -> bool {
    exists|place: int|
        0 <= place < events.len() && is_gap_at(#[trigger] events[place], flow, direction, offset)
}

/// Whether a flow is one of those that are sampled.
pub proof fn lemma_sampled_flow(flows: FlowEntries, index: int) -> (place: int)
    requires
        0 <= index < flows.len(),
        flows[index].1.has_allowance(),
    ensures
        0 <= place < sampled_flows(flows).len(),
        sampled_flows(flows)[place] == flows[index].1,
{
    let sampled = |entry: (DescriptorLeaseKey, TrackedFlowView)| entry.1.has_allowance();
    flows.lemma_filter_contains(sampled, index);
    let kept = flows.filter(sampled);
    choose|place: int| 0 <= place < kept.len() && kept[place] == flows[index]
}

/// A reading of the loss counter that shows a loss is told as such, with the number of events lost
/// since the last reading; and then every sampled direction of every tracked flow has a gap from
/// where it was followed to. A reading that shows none tells nothing.
pub proof fn law_loss_is_told_with_gaps(
    state: ObservationStateView,
    count: u64,
    wall_time_unix_ns: i64,
    index: int,
    direction: Direction,
)
    requires
        state.pending_events.len() == 0,
        0 <= index < state.flows.len(),
        state.flows[index].1.payload_directions.has(direction),
    ensures
        ({
            let next = state.loss_checked(count, wall_time_unix_ns);
            let watched = state.flows[index].1;
            &&& next.state.loss.last_count == count
            &&& next.state.flows == state.flows
            &&& count > state.loss.last_count ==> (next.event matches Some(
                CaptureEventView::Loss(lost),
            ) && lost.loss.lost_events == count - state.loss.last_count) && tells_gap(
                next.state.pending_events,
                watched.flow,
                direction,
                watched.offset(direction),
            )
            &&& count <= state.loss.last_count ==> next.event is None
                && next.state.pending_events.len() == 0
        }),
{
    let watched = state.flows[index].1;
    let next = state.loss_checked(count, wall_time_unix_ns);
    assert(watched.has_allowance());
    let place = lemma_sampled_flow(state.flows, index);
    if count > state.loss.last_count {
        let lost = (count - state.loss.last_count) as u64;
        let timestamp = state.stamp(wall_time_unix_ns);
        let flows = sampled_flows(state.flows);
        let gaps = boundary_gaps_of_all(
            flows,
            timestamp,
            ObservationOnlyReason::EbpfCaptureLoss,
            output_loss_gap_reason(lost),
        );
        law_boundary_reaches_every_sampled_direction(
            flows,
            timestamp,
            ObservationOnlyReason::EbpfCaptureLoss,
            output_loss_gap_reason(lost),
            place,
            direction,
        );
        let found = choose|found: int|
            0 <= found < gaps.len() && is_gap_at(
                #[trigger] gaps[found],
                watched.flow,
                direction,
                watched.offset(direction),
            );
        assert(next.state.pending_events[found] == gaps[found]);
    }
}

/// A poll with nothing else to do asks the source for an observation, and takes it up; without one
/// it reads the loss counter, and then it is idle, or at its end where it stops when idle.
pub proof fn law_poll_takes_the_next_observation(
    state: ObservationStateView,
    now_ns: u64,
    wall_time_unix_ns: i64,
    replies: PollReplies,
)
    requires
        state.pending_events.len() == 0,
        state.pending_flows.len() == 0,
        !state.loss.due(),
    ensures
        ({
            let next = state.polled(now_ns, wall_time_unix_ns, replies);
            &&& next.talk.source.len() > 0
            &&& next.talk.source[0] == SourceExchange::Next(replies.observation)
            &&& replies.observation matches Err(error) ==> next.poll == Err::<
                CapturePollView,
                CaptureErrorView,
            >(error)
            &&& replies.observation matches Ok(Some(observation)) ==> ({
                let counted = ObservationStateView { loss: state.loss.observed(), ..state };
                let taken = counted.observed(observation, now_ns, wall_time_unix_ns, replies);
                next.state == taken.state && next.poll == taken.poll
            })
            &&& replies.observation matches Ok(None) ==> next.talk.source.len() == 2
                && next.talk.source[1] == SourceExchange::LossCount(replies.last_count) && (
            replies.last_count matches Ok(count) && count <= state.loss.last_count ==> next.poll
                == Ok::<CapturePollView, CaptureErrorView>(
                if state.stop_when_idle {
                    CapturePollView::Finished
                } else {
                    CapturePollView::Idle
                },
            ))
        }),
{
    reveal(ObservationStateView::drained);
    assert(Seq::<SourceExchange>::empty().len() == 0);
    let next = state.polled(now_ns, wall_time_unix_ns, replies);
    assert(next.talk.source[0] == SourceExchange::Next(replies.observation));
}

/// A write is payload that goes out, a read payload that comes in: each captured octet is told so,
/// in the flow under the descriptor, at the offset up to which that direction was followed.
pub proof fn law_writes_go_out_and_reads_come_in(
    state: ObservationStateView,
    key: DescriptorLeaseKey,
    write: EbpfSocketWriteObservationView,
    read: EbpfSocketReadObservationView,
    now_ns: u64,
    wall_time_unix_ns: i64,
    replies: PollReplies,
    index: int,
)
    requires
        distinct_keys(state.flows),
        holds(state.flows, key),
        key.fd >= 0,
        key.fd_generation != 0,
    ensures
        ({
            let watched = value_of(state.flows, key);
            let next = state.observed(
                EbpfProcessObservationView::Write(write),
                now_ns,
                wall_time_unix_ns,
                replies,
            );
            write.process.tgid == key.tgid && write.fd == key.fd && write.fd_generation
                == key.fd_generation && watched.payload_directions.outbound && !write.read_failed
                && 0 <= index < write.buffer.len() && watched.outbound_stream_offset
                + write.buffer.len() <= u64::MAX ==> told(next).len() > state.pending_events.len()
                && tells_octet(
                told(next)[state.pending_events.len() as int],
                watched.flow,
                Direction::Outbound,
                watched.outbound_stream_offset + index,
                write.buffer[index],
            )
        }),
        ({
            let watched = value_of(state.flows, key);
            let next = state.observed(
                EbpfProcessObservationView::Read(read),
                now_ns,
                wall_time_unix_ns,
                replies,
            );
            read.process.tgid == key.tgid && read.fd == key.fd && read.fd_generation
                == key.fd_generation && watched.payload_directions.inbound && !read.read_failed && 0
                <= index < read.buffer.len() && watched.inbound_stream_offset + read.buffer.len()
                <= u64::MAX ==> told(next).len() > state.pending_events.len() && tells_octet(
                told(next)[state.pending_events.len() as int],
                watched.flow,
                Direction::Inbound,
                watched.inbound_stream_offset + index,
                read.buffer[index],
            )
        }),
{
    reveal(ObservationStateView::observed);
    let watched = value_of(state.flows, key);
    let timestamp = state.stamp(wall_time_unix_ns);
    if write.process.tgid == key.tgid && write.fd == key.fd && write.fd_generation
        == key.fd_generation && watched.payload_directions.outbound && !write.read_failed && 0
        <= index < write.buffer.len() && watched.outbound_stream_offset + write.buffer.len()
        <= u64::MAX {
        let sample = write_sample(write);
        law_payload_belongs_to_its_descriptor(
            state,
            key.tgid,
            key.fd,
            key.fd_generation,
            sample,
            wall_time_unix_ns,
            key,
        );
        law_sampled_octets_are_told(
            watched,
            sample,
            texts_for(Direction::Outbound),
            timestamp,
            index,
        );
    }
    if read.process.tgid == key.tgid && read.fd == key.fd && read.fd_generation
        == key.fd_generation && watched.payload_directions.inbound && !read.read_failed && 0
        <= index < read.buffer.len() && watched.inbound_stream_offset + read.buffer.len()
        <= u64::MAX {
        let sample = read_sample(read);
        law_payload_belongs_to_its_descriptor(
            state,
            key.tgid,
            key.fd,
            key.fd_generation,
            sample,
            wall_time_unix_ns,
            key,
        );
        law_sampled_octets_are_told(
            watched,
            sample,
            texts_for(Direction::Inbound),
            timestamp,
            index,
        );
    }
}

/// An observed close of a descriptor ends its flow, and tells so.
pub proof fn law_observed_close_ends_its_flow(
    state: ObservationStateView,
    close: EbpfCloseTracepointObservation,
    now_ns: u64,
    wall_time_unix_ns: i64,
    replies: PollReplies,
    key: DescriptorLeaseKey,
)
    requires
        distinct_keys(state.flows),
        holds(state.flows, key),
        key.fd >= 0,
        key.fd_generation != 0,
        close.process.tgid == key.tgid,
        close.fd == key.fd,
        close.fd_generation == key.fd_generation,
    ensures
        ({
            let next = state.observed(
                EbpfProcessObservationView::Close(close),
                now_ns,
                wall_time_unix_ns,
                replies,
            );
            !holds(next.state.flows, key) && (next.poll matches Ok(
                CapturePollView::Event(CaptureEventView::ConnectionClosed { flow, .. }),
            ) && flow == value_of(state.flows, key).flow)
        }),
{
    reveal(ObservationStateView::observed);
    law_close_ends_its_flow_alone(state, close, wall_time_unix_ns, key);
}

/// An observed connect or accept is taken up as the start of a flow: without a valid lease it is
/// told as a gap, and otherwise its connection is looked for at once.
pub proof fn law_observed_start_is_taken_up(
    state: ObservationStateView,
    start: PendingEbpfFlowStart,
    now_ns: u64,
    wall_time_unix_ns: i64,
    replies: PollReplies,
)
    ensures
        ({
            let observation = match start {
                PendingEbpfFlowStart::Connect(connect) => EbpfProcessObservationView::Connect(
                    connect,
                ),
                PendingEbpfFlowStart::Accept(accept) => EbpfProcessObservationView::Accept(accept),
            };
            let next = state.observed(observation, now_ns, wall_time_unix_ns, replies);
            &&& start.lease() is None ==> (next.poll matches Ok(
                CapturePollView::Event(CaptureEventView::Gap(_)),
            )) && next.state.flows == state.flows
            &&& start.lease() is Some ==> next.talk.resolver.len() > 0 && next.talk.resolver[0]
                == ResolverExchange::Flow(start.lookup(), replies.attempt.flow)
        }),
{
    reveal(ObservationStateView::observed);
    reveal(ObservationStateView::begun);
    reveal(ObservationStateView::attempted);
}

/// Of the starts that wait, the first one that is due is looked for, and those before it, which are
/// not due, go to the end of the queue in their order.
pub proof fn law_first_due_start_is_looked_for(
    state: ObservationStateView,
    now_ns: u64,
    replies: AttemptReplies,
    index: int,
)
    requires
        0 <= index < state.pending_flows.len(),
        !state.pending_flows[index].waits(now_ns),
        forall|earlier: int|
            0 <= earlier < index ==> (#[trigger] state.pending_flows[earlier]).waits(now_ns),
    ensures
        ({
            let rest = ObservationStateView {
                pending_flows: state.pending_flows.subrange(
                    index + 1,
                    state.pending_flows.len() as int,
                ) + state.pending_flows.subrange(0, index),
                ..state
            };
            state.resumed(now_ns, replies) == rest.attempted(
                state.pending_flows[index],
                true,
                now_ns,
                replies,
            )
        }),
{
    reveal(ObservationStateView::resumed);
    lemma_first_due(state.pending_flows, now_ns, index);
    assert(state.pending_flows.subrange(index + 1, state.pending_flows.len() as int)
        =~= state.pending_flows.skip(index + 1));
    assert(state.pending_flows.subrange(0, index) =~= state.pending_flows.take(index));
}

proof fn lemma_first_due(
    queue: Seq<PendingEbpfFlowResolution>,
    now_ns: u64,
    index: int,
)
    requires
        0 <= index < queue.len(),
        !queue[index].waits(now_ns),
        forall|earlier: int| 0 <= earlier < index ==> (#[trigger] queue[earlier]).waits(now_ns),
    ensures
        waiting_in_front(queue, now_ns) == index,
    decreases index,
{
    if index > 0 {
        let rest = queue.drop_first();
        assert(queue[0].waits(now_ns));
        assert forall|earlier: int| 0 <= earlier < index - 1 implies (
        #[trigger] rest[earlier]).waits(now_ns) by {
            assert(rest[earlier] == queue[earlier + 1]);
        }
        assert(rest[index - 1] == queue[index]);
        lemma_first_due(rest, now_ns, index - 1);
    }
}

/// A flow that is displaced by another one has a gap in every direction that was sampled, from where
/// it was followed to; and the kernel is told to sample its descriptor no more, unless a tracked
/// flow still needs that.
pub proof fn law_displaced_flow_has_gaps(
    state: ObservationStateView,
    lease: DescriptorLease,
    flow: FlowContextView,
    directions: PayloadDirections,
    timestamp: Timestamp,
    revoked: Answer,
    direction: Direction,
)
    requires
        revoked is Ok,
        ({
            let displaced = displaced_by(
                state.flows,
                state.capacity,
                lease.lease_key(),
                TrackedFlowView::fresh(flow, directions),
            );
            displaced is Some && displaced_flow(displaced->0).payload_directions.has(direction)
        }),
    ensures
        ({
            let displaced = displaced_by(
                state.flows,
                state.capacity,
                lease.lease_key(),
                TrackedFlowView::fresh(flow, directions),
            )->0;
            let gone = displaced_flow(displaced);
            let key = displaced_key(displaced);
            let next = state.inserted(lease, flow, directions, timestamp, revoked);
            let needed = exists|index: int|
                0 <= index < next.state.flows.len() && (
                #[trigger] next.state.flows[index]).0.tgid == key.tgid
                    && next.state.flows[index].0.fd == key.fd && (
                next.state.flows[index].1.payload_directions.inbound
                    || next.state.flows[index].1.payload_directions.outbound);
            &&& tells_gap(
                next.state.pending_events,
                gone.flow,
                direction,
                gone.offset(direction),
            )
            &&& next.told == if needed {
                Seq::empty()
            } else {
                seq![SourceExchange::RevokeSocket(key, revoked)]
            }
        }),
{
    reveal(ObservationStateView::inserted);
    let displaced = displaced_by(
        state.flows,
        state.capacity,
        lease.lease_key(),
        TrackedFlowView::fresh(flow, directions),
    )->0;
    let gone = displaced_flow(displaced);
    let next = state.inserted(lease, flow, directions, timestamp, revoked);
    assert(gone.has_allowance());
    let gaps = boundary_gaps(
        gone,
        timestamp,
        ObservationOnlyReason::ProviderStateBoundary,
        displacement_reason(displaced),
    );
    let listed = gone.payload_directions.listed();
    let place: int = if direction == Direction::Outbound && gone.payload_directions.inbound {
        1
    } else {
        0
    };
    assert(listed[place] == direction);
    let before = state.pending_events.len() as int;
    assert(is_gap_at(gaps[place], gone.flow, direction, gone.offset(direction)));
    assert(next.state.pending_events[before + place] == gaps[place]);
    let key = displaced_key(displaced);
    assert(allowance_is_retained(next.state.flows, key) == exists|index: int|
        0 <= index < next.state.flows.len() && (#[trigger] next.state.flows[index]).0.tgid
            == key.tgid && next.state.flows[index].0.fd == key.fd && (
        next.state.flows[index].1.payload_directions.inbound
            || next.state.flows[index].1.payload_directions.outbound));
}

proof fn lemma_tracking_keeps_starts(
    state: ObservationStateView,
    lease: Option<DescriptorLease>,
    flow: FlowContextView,
    timestamp: Timestamp,
    allowed: Answer,
    revoked: Answer,
)
    requires
        allowed is Ok,
        revoked is Ok,
    ensures
        state.tracking(lease, flow, timestamp, allowed, revoked).answer is Ok,
        state.tracking(lease, flow, timestamp, allowed, revoked).state.pending_flows
            == state.pending_flows,
{
    reveal(ObservationStateView::tracking);
    reveal(ObservationStateView::inserted);
}

proof fn lemma_observed_start(
    start: PendingEbpfFlowStart,
    timestamp: Timestamp,
    replies: FallbackReplies,
)
    requires
        replies.listen is Ok,
    ensures
        ({
            let endpoint = match start {
                PendingEbpfFlowStart::Connect(connect) => connect.endpoint,
                PendingEbpfFlowStart::Accept(accept) => accept.endpoint,
            };
            match endpoint {
                EbpfSocketEndpoint::Remote(remote) => start.observed(timestamp, replies) matches Ok(
                    Some(CaptureEventView::ConnectionOpened { flow, timestamp: told, .. }),
                ) && told == timestamp && flow.remote == address_port(remote),
                _ => start.observed(timestamp, replies) matches Ok(None),
            }
        }),
{
}

proof fn lemma_last_attempt(
    state: ObservationStateView,
    pending: PendingEbpfFlowResolution,
    now_ns: u64,
    replies: AttemptReplies,
)
    requires
        pending.attempts_completed >= state.retries,
    ensures
        ({
            let next = state.attempted(pending, false, now_ns, replies);
            let last = state.fallen_back(pending, replies);
            &&& replies.flow matches Ok(None) ==> next.state == last.state && next.poll == last.poll
            &&& replies.flow matches Err(error) ==> next.state == state && next.poll == Err::<
                CapturePollView,
                CaptureErrorView,
            >(error)
        }),
{
    reveal(ObservationStateView::attempted);
}

proof fn lemma_fallen_back_on_nothing(
    state: ObservationStateView,
    pending: PendingEbpfFlowResolution,
    replies: AttemptReplies,
)
    requires
        pending.flow_start.observed(pending.timestamp, replies.fallback) matches Ok(None),
    ensures
        ({
            let last = state.fallen_back(pending, replies);
            last.state == state && (last.poll matches Ok(
                CapturePollView::Event(CaptureEventView::Gap(gap)),
            ) && gap.timestamp == pending.timestamp)
        }),
{
    reveal(ObservationStateView::fallen_back);
}

proof fn lemma_fallen_back_on_start(
    state: ObservationStateView,
    pending: PendingEbpfFlowResolution,
    replies: AttemptReplies,
    event: CaptureEventView,
)
    requires
        pending.flow_start.observed(pending.timestamp, replies.fallback) == Ok::<
            Option<CaptureEventView>,
            CaptureErrorView,
        >(Some(event)),
    ensures
        ({
            let last = state.fallen_back(pending, replies);
            let begun = state.started(pending.flow_start, event, replies);
            last.state == begun.state && last.poll == begun.poll
        }),
{
    reveal(ObservationStateView::fallen_back);
}

proof fn lemma_started(
    state: ObservationStateView,
    start: PendingEbpfFlowStart,
    event: CaptureEventView,
    replies: AttemptReplies,
)
    requires
        replies.allowed is Ok,
        replies.revoked is Ok,
        event is ConnectionOpened,
    ensures
        ({
            let begun = state.started(start, event, replies);
            begun.state.pending_flows == state.pending_flows && begun.poll == Ok::<
                CapturePollView,
                CaptureErrorView,
            >(CapturePollView::Event(event))
        }),
{
    reveal(ObservationStateView::started);
    if let CaptureEventView::ConnectionOpened { timestamp, flow, .. } = event {
        lemma_tracking_keeps_starts(
            state,
            start.lease(),
            flow,
            timestamp,
            replies.allowed,
            replies.revoked,
        );
    }
}

/// The last attempt for a start whose connection is not found does not put it off once more. Where
/// its remote end was observed, it is told as a flow to that end, and where it was not, as a gap;
/// a failure to look for it is handed on, and changes nothing.
pub proof fn law_start_is_told_at_last(
    state: ObservationStateView,
    pending: PendingEbpfFlowResolution,
    now_ns: u64,
    replies: AttemptReplies,
)
    requires
        pending.attempts_completed >= state.retries,
        replies.allowed is Ok,
        replies.revoked is Ok,
        replies.fallback.listen is Ok,
    ensures
        ({
            let next = state.attempted(pending, false, now_ns, replies);
            let endpoint = match pending.flow_start {
                PendingEbpfFlowStart::Connect(connect) => connect.endpoint,
                PendingEbpfFlowStart::Accept(accept) => accept.endpoint,
            };
            &&& replies.flow matches Ok(None) ==> next.state.pending_flows == state.pending_flows
            &&& replies.flow matches Ok(None) ==> (endpoint matches EbpfSocketEndpoint::Remote(
                remote,
            ) ==> (next.poll matches Ok(
                CapturePollView::Event(CaptureEventView::ConnectionOpened { flow, timestamp, .. }),
            ) && timestamp == pending.timestamp && flow.remote == address_port(remote)))
            &&& replies.flow matches Ok(None) ==> (!(endpoint is Remote) ==> (next.poll matches Ok(
                CapturePollView::Event(CaptureEventView::Gap(gap)),
            ) && gap.timestamp == pending.timestamp) && next.state == state)
            &&& replies.flow matches Err(error) ==> next.state == state && next.poll == Err::<
                CapturePollView,
                CaptureErrorView,
            >(error)
        }),
{
    lemma_last_attempt(state, pending, now_ns, replies);
    lemma_observed_start(pending.flow_start, pending.timestamp, replies.fallback);
    match pending.flow_start.observed(pending.timestamp, replies.fallback) {
        Ok(Some(event)) => {
            lemma_fallen_back_on_start(state, pending, replies, event);
            lemma_started(state, pending.flow_start, event, replies);
        },
        Ok(None) => lemma_fallen_back_on_nothing(state, pending, replies),
        Err(_) => {},
    }
}

/// Up to 8192 starts wait; one more that is to wait is told as a gap at once.
pub proof fn law_start_without_room_is_a_gap(
    state: ObservationStateView,
    pending: PendingEbpfFlowResolution,
    now_ns: u64,
    replies: AttemptReplies,
)
    requires
        replies.flow matches Ok(None),
        pending.attempts_completed < state.retries,
    ensures
        ({
            let next = state.attempted(pending, false, now_ns, replies);
            &&& state.pending_flows.len() < 8_192 ==> next.poll == Ok::<
                CapturePollView,
                CaptureErrorView,
            >(CapturePollView::Progress)
            &&& state.pending_flows.len() >= 8_192 ==> next.state == state && (
            next.poll matches Ok(CapturePollView::Event(CaptureEventView::Gap(gap)))
                && gap.timestamp == pending.timestamp)
        }),
{
    reveal(ObservationStateView::attempted);
}

} // verus!
