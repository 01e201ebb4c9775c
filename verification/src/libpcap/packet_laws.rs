//! What a packet brings about, from its segment to the events.
use vstd::prelude::*;

use crate::event::{CaptureEventView, CapturedBytesView, EnforcementEvidencePropagation};
use crate::keyed::{holds, lemma_with_value, value_of, with_value};
use crate::libpcap::decoder::TcpSegmentView;
use crate::libpcap::flow::candidate::ResolverReplyView;
use crate::libpcap::flow::course_laws::{
    is_over_with, law_fin_and_reset_are_noted, longest_silence, observed,
};
use crate::libpcap::flow::laws::{
    accounted, bounded, ended_by, law_lifecycle_keeps_account, law_payload_keeps_account, reported,
};
use crate::libpcap::flow::model::{FlowClosureView, FlowPayloadView};
use crate::libpcap::flow::record::{connection_of, ConnectionKey};
use crate::libpcap::flow::tracking::{lifecycle_seen, payload_seen, selected_for};
use crate::libpcap::provider::{
    closure_delivered, closures_delivered, end_delivered, held_i64, lifecycle_delivered,
    next_sequence_number, packet_wall_time, payload_delivered, LibpcapStateView, Polled,
};
use crate::libpcap::stream::assembler::fresh_stream;
use crate::libpcap::stream::assembly::ingested;
use crate::libpcap::stream::laws::law_in_order_segment_is_delivered;
use crate::libpcap::stream::tracking::{refreshed, stream_key, StreamTrackerView};
use crate::libpcap::tcp_seq::seq_advance;
use crate::model::{
    libpcap_origin, Direction, EnforcementEvidenceView, FlowContextView, Timestamp,
};
use crate::provider::CapturePollView;

verus! {

/// All events that a poll leaves to be taken: the one that it brings, and those still queued.
pub open spec fn told(polled: Polled) -> Seq<CaptureEventView> {
    match polled.poll {
        CapturePollView::Event(event) => seq![event] + polled.state.pending_events,
        _ => polled.state.pending_events,
    }
}

/// Whether a connection is told to be over in some events.
pub open spec fn tells_end(events: Seq<CaptureEventView>, flow: FlowContextView) -> bool {
    exists|index: int|
        0 <= index < events.len() && is_end_event(#[trigger] events[index], flow)
}

pub open spec fn is_end_event(event: CaptureEventView, flow: FlowContextView) -> bool {
    event matches CaptureEventView::ConnectionClosed { flow: closed, .. } && closed == flow
}

/// Whether a packet can be stamped: its time is one that 64 bits hold, and so is its number.
pub open spec fn can_be_stamped(state: LibpcapStateView, seconds: i64, microseconds: i64) -> bool {
    &&& state.packet_sequence < u64::MAX
    &&& i64::MIN <= seconds * 1_000_000_000 <= i64::MAX
    &&& i64::MIN <= microseconds * 1_000 <= i64::MAX
    &&& i64::MIN <= seconds * 1_000_000_000 + microseconds * 1_000 <= i64::MAX
}

/// The stamp of a packet: packets are counted, and its time is that of the capture.
pub open spec fn stamp_of(state: LibpcapStateView, seconds: i64, microseconds: i64) -> Timestamp {
    Timestamp {
        monotonic_ns: (state.packet_sequence + 1) as u64,
        wall_time_unix_ns: (seconds * 1_000_000_000 + microseconds * 1_000) as i64,
    }
}

proof fn lemma_stamp(state: LibpcapStateView, seconds: i64, microseconds: i64)
    requires
        can_be_stamped(state, seconds, microseconds),
    ensures
        (Timestamp {
            monotonic_ns: next_sequence_number(state.packet_sequence),
            wall_time_unix_ns: packet_wall_time(seconds, microseconds),
        }) == stamp_of(state, seconds, microseconds),
{
    assert(held_i64(seconds * 1_000_000_000) == seconds * 1_000_000_000);
    assert(held_i64(microseconds * 1_000) == microseconds * 1_000);
}

/// The events that a packet with a segment adds to the queue.
spec fn added(
    state: LibpcapStateView,
    segment: TcpSegmentView,
    timestamp: Timestamp,
    replies: Seq<ResolverReplyView>,
) -> Seq<CaptureEventView> {
    let selected = selected_for(segment, replies);
    if segment.payload.len() > 0 {
        payload_delivered(
            state.streams,
            timestamp,
            segment,
            payload_seen(state.flows, segment, timestamp, selected).observation,
        ).events
    } else {
        lifecycle_delivered(
            state.streams,
            timestamp,
            lifecycle_seen(state.flows, segment, timestamp, selected).observation,
        ).events
    }
}

/// Whether a segment says anything: it has payload, or opens or closes something.
pub open spec fn says_something(segment: TcpSegmentView) -> bool {
    segment.payload.len() > 0 || segment.flags.syn || segment.flags.fin || segment.flags.rst
}

proof fn lemma_lifecycle_is_looked_at(
    state: LibpcapStateView,
    segment: TcpSegmentView,
    seconds: i64,
    microseconds: i64,
    now_ns: u64,
    replies: Seq<ResolverReplyView>,
)
    requires
        can_be_stamped(state, seconds, microseconds),
        says_something(segment),
        segment.payload.len() == 0,
    ensures
        ({
            let timestamp = stamp_of(state, seconds, microseconds);
            let seen = lifecycle_seen(
                state.flows,
                segment,
                timestamp,
                selected_for(segment, replies),
            );
            state.packet_taken(Some(segment), seconds, microseconds, now_ns, replies) == (
            LibpcapStateView {
                flows: seen.flows,
                packet_sequence: timestamp.monotonic_ns,
                ..state
            }).lifecycle_observed(timestamp, seen.observation, now_ns)
        }),
{
    lemma_stamp(state, seconds, microseconds);
    assert(segment.signals_lifecycle());
}

proof fn lemma_packet_parts(
    state: LibpcapStateView,
    segment: TcpSegmentView,
    seconds: i64,
    microseconds: i64,
    now_ns: u64,
    replies: Seq<ResolverReplyView>,
)
    requires
        can_be_stamped(state, seconds, microseconds),
        says_something(segment),
    ensures
        ({
            let timestamp = stamp_of(state, seconds, microseconds);
            let result = state.packet_taken(
                Some(segment),
                seconds,
                microseconds,
                now_ns,
                replies,
            );
            &&& told(result) == state.pending_events + added(state, segment, timestamp, replies)
            &&& result.state.flows == observed(
                state.flows,
                segment,
                timestamp,
                selected_for(segment, replies),
            ).flows
        }),
{
    lemma_stamp(state, seconds, microseconds);
    let timestamp = stamp_of(state, seconds, microseconds);
    let result = state.packet_taken(Some(segment), seconds, microseconds, now_ns, replies);
    let queued = state.pending_events + added(state, segment, timestamp, replies);
    if segment.payload.len() == 0 {
        lemma_lifecycle_is_looked_at(state, segment, seconds, microseconds, now_ns, replies);
    }
    if queued.len() > 0 {
        assert(seq![queued[0]] + queued.drop_first() =~= queued);
    }
    assert(told(result) =~= queued);
}

proof fn lemma_ends_are_told(
    streams: StreamTrackerView,
    timestamp: Timestamp,
    closures: Seq<FlowClosureView>,
    index: int,
)
    requires
        0 <= index < closures.len(),
    ensures
        tells_end(closures_delivered(streams, timestamp, closures).events, closures[index].flow),
    decreases closures.len(),
{
    let first = closure_delivered(streams, timestamp, closures[0]);
    let more = closures_delivered(first.state, timestamp, closures.drop_first());
    let all = closures_delivered(streams, timestamp, closures);
    assert(all.events == first.events + more.events);
    if index == 0 {
        let last = first.events.len() - 1;
        assert(is_end_event(first.events[last], closures[0].flow));
        assert(all.events[last] == first.events[last]);
    } else {
        assert(closures.drop_first()[index - 1] == closures[index]);
        lemma_ends_are_told(first.state, timestamp, closures.drop_first(), index - 1);
        let place = choose|place: int|
            0 <= place < more.events.len() && is_end_event(
                #[trigger] more.events[place],
                closures[index].flow,
            );
        assert(all.events[first.events.len() + place] == more.events[place]);
    }
}

proof fn lemma_end_in_first(
    first: Seq<CaptureEventView>,
    second: Seq<CaptureEventView>,
    flow: FlowContextView,
)
    requires
        tells_end(first, flow),
    ensures
        tells_end(first + second, flow),
{
    let place = choose|place: int|
        0 <= place < first.len() && is_end_event(#[trigger] first[place], flow);
    assert((first + second)[place] == first[place]);
}

proof fn lemma_end_in_second(
    first: Seq<CaptureEventView>,
    second: Seq<CaptureEventView>,
    flow: FlowContextView,
)
    requires
        tells_end(second, flow),
    ensures
        tells_end(first + second, flow),
{
    let place = choose|place: int|
        0 <= place < second.len() && is_end_event(#[trigger] second[place], flow);
    assert((first + second)[first.len() + place] == second[place]);
}

/// Every end of a connection that a segment shows is among the events.
proof fn lemma_all_ends_are_told(
    state: LibpcapStateView,
    segment: TcpSegmentView,
    timestamp: Timestamp,
    replies: Seq<ResolverReplyView>,
    flow: FlowContextView,
)
    requires
        ({
            let after = observed(
                state.flows,
                segment,
                timestamp,
                selected_for(segment, replies),
            );
            reported(after.closed + ended_by(after.end), flow)
        }),
    ensures
        tells_end(added(state, segment, timestamp, replies), flow),
{
    let after = observed(state.flows, segment, timestamp, selected_for(segment, replies));
    let all = after.closed + ended_by(after.end);
    let place = choose|place: int| 0 <= place < all.len() && (#[trigger] all[place]).flow == flow;
    let ended = closures_delivered(state.streams, timestamp, after.closed);
    let events = added(state, segment, timestamp, replies);
    if segment.payload.len() > 0 {
        let seen = payload_seen(state.flows, segment, timestamp, selected_for(segment, replies));
        let payload = ended.state.ingested(
            timestamp,
            segment.first_sequence(),
            segment.payload,
            seen.observation.payload,
            crate::libpcap::stream::tracking::degradation_text(
                seen.observation.payload.attribution_failure,
            ),
        );
        let end = end_delivered(payload.state, timestamp, after.end);
        assert(events == ended.events + (payload.events + end.events));
        if place < after.closed.len() {
            lemma_ends_are_told(state.streams, timestamp, after.closed, place);
            lemma_end_in_first(ended.events, payload.events + end.events, flow);
        } else {
            let last = end.events.len() - 1;
            assert(is_end_event(end.events[last], flow));
            lemma_end_in_second(payload.events, end.events, flow);
            lemma_end_in_second(ended.events, payload.events + end.events, flow);
        }
    } else {
        let end = end_delivered(ended.state, timestamp, after.end);
        assert(events == ended.events + end.events);
        if place < after.closed.len() {
            lemma_ends_are_told(state.streams, timestamp, after.closed, place);
            lemma_end_in_first(ended.events, end.events, flow);
        } else {
            let last = end.events.len() - 1;
            assert(is_end_event(end.events[last], flow));
            lemma_end_in_second(ended.events, end.events, flow);
        }
    }
}

/// No connection ends silently: after a packet, every tracked connection is still tracked as the
/// same flow, or an event that it is closed was added. Events that were queued before come first,
/// and none of them is lost.
pub proof fn law_no_connection_ends_silently(
    state: LibpcapStateView,
    segment: TcpSegmentView,
    seconds: i64,
    microseconds: i64,
    now_ns: u64,
    replies: Seq<ResolverReplyView>,
    key: ConnectionKey,
)
    requires
        bounded(state.flows),
        can_be_stamped(state, seconds, microseconds),
        holds(state.flows, key),
    ensures
        ({
            let result = state.packet_taken(
                Some(segment),
                seconds,
                microseconds,
                now_ns,
                replies,
            );
            let flow = value_of(state.flows, key).flow;
            let queued = state.pending_events.len() as int;
            &&& told(result).take(queued) == state.pending_events
            &&& (holds(result.state.flows, key) && value_of(result.state.flows, key).flow == flow)
                || tells_end(told(result).skip(queued), flow)
        }),
{
    let timestamp = stamp_of(state, seconds, microseconds);
    let result = state.packet_taken(Some(segment), seconds, microseconds, now_ns, replies);
    let selected = selected_for(segment, replies);
    let flow = value_of(state.flows, key).flow;
    let queued = state.pending_events.len() as int;
    if says_something(segment) {
        lemma_packet_parts(state, segment, seconds, microseconds, now_ns, replies);
        let events = added(state, segment, timestamp, replies);
        assert(told(result).take(queued) =~= state.pending_events);
        assert(told(result).skip(queued) =~= events);
        law_payload_keeps_account(state.flows, segment, timestamp, selected);
        law_lifecycle_keeps_account(state.flows, segment, timestamp, selected);
        let after = observed(state.flows, segment, timestamp, selected);
        assert(accounted(state.flows, after.flows, after.closed + ended_by(after.end)));
        if !(holds(after.flows, key) && value_of(after.flows, key).flow == flow) {
            lemma_all_ends_are_told(state, segment, timestamp, replies, flow);
        }
    } else {
        assert(told(result) == state.pending_events);
        assert(told(result).take(queued) =~= state.pending_events);
    }
}

/// A packet with a FIN or a reset of a tracked connection, with or without payload, closes the
/// direction that it comes from, behind its last octet. Once both directions are closed, or at a
/// reset, the connection is tracked no more, and the event that it is closed was added to those
/// queued or brought.
pub proof fn law_fin_or_reset_in_a_packet_closes(
    state: LibpcapStateView,
    segment: TcpSegmentView,
    seconds: i64,
    microseconds: i64,
    now_ns: u64,
    replies: Seq<ResolverReplyView>,
)
    requires
        bounded(state.flows),
        can_be_stamped(state, seconds, microseconds),
        segment.flags.fin || segment.flags.rst,
        !segment.flags.syn,
        holds(state.flows, connection_of(segment)),
        seconds * 1_000_000_000 + microseconds * 1_000 <= value_of(
            state.flows,
            connection_of(segment),
        ).last_seen_wall_time_unix_ns + longest_silence(),
        segment.payload.len() > 0 ==> value_of(state.flows, connection_of(segment)).close_of(
            value_of(state.flows, connection_of(segment)).direction_of(segment),
        ) is None,
    ensures
        ({
            let key = connection_of(segment);
            let record = value_of(state.flows, key);
            let result = state.packet_taken(
                Some(segment),
                seconds,
                microseconds,
                now_ns,
                replies,
            );
            let flows = result.state.flows;
            let direction = record.direction_of(segment);
            let over = segment.flags.rst || record.reset || record.close_of(direction.opposite_of())
                is Some;
            &&& !over ==> holds(flows, key) && value_of(flows, key).flow == record.flow && value_of(
                flows,
                key,
            ).close_of(direction) is Some && (record.close_of(direction) is None ==> value_of(
                flows,
                key,
            ).close_of(direction)->0.sequence == seq_advance(
                segment.sequence,
                segment.payload.len(),
            ))
            &&& over ==> !holds(flows, key) && tells_end(
                told(result).skip(state.pending_events.len() as int),
                record.flow,
            )
        }),
{
    let timestamp = stamp_of(state, seconds, microseconds);
    let result = state.packet_taken(Some(segment), seconds, microseconds, now_ns, replies);
    let selected = selected_for(segment, replies);
    let queued = state.pending_events.len() as int;
    let record = value_of(state.flows, connection_of(segment));
    lemma_packet_parts(state, segment, seconds, microseconds, now_ns, replies);
    let events = added(state, segment, timestamp, replies);
    assert(told(result).skip(queued) =~= events);
    law_fin_and_reset_are_noted(state.flows, segment, timestamp, selected);
    let after = observed(state.flows, segment, timestamp, selected);
    if is_over_with(record, segment) {
        let all = after.closed + ended_by(after.end);
        assert(all[after.closed.len() as int].flow == record.flow);
        lemma_all_ends_are_told(state, segment, timestamp, replies, record.flow);
    }
}

/// A packet without payload and without SYN, FIN or reset, or one in which no segment was found,
/// changes neither connections nor streams and brings no event of its own.
pub proof fn law_silent_packet_changes_nothing(
    state: LibpcapStateView,
    segment: Option<TcpSegmentView>,
    seconds: i64,
    microseconds: i64,
    now_ns: u64,
    replies: Seq<ResolverReplyView>,
)
    requires
        segment matches Some(found) ==> !says_something(found),
    ensures
        ({
            let result = state.packet_taken(segment, seconds, microseconds, now_ns, replies);
            &&& result.poll == CapturePollView::Progress
            &&& result.state.flows == state.flows
            &&& result.state.streams == state.streams
            &&& result.state.pending_events == state.pending_events
        }),
{
}

/// The octets of a direction of a flow as an event tells them.
pub open spec fn bytes_event(
    timestamp: Timestamp,
    payload: FlowPayloadView,
    degradation_reason: Seq<char>,
    stream_offset: u64,
    bytes: Seq<u8>,
) -> CaptureEventView {
    CaptureEventView::Bytes(
        CapturedBytesView {
            timestamp,
            flow: payload.flow,
            origin: libpcap_origin(),
            direction: payload.direction,
            stream_offset,
            bytes,
            attribution_confidence: payload.attribution_confidence,
            degraded: true,
            degradation_reason: Some(degradation_reason),
            enforcement_evidence: EnforcementEvidenceView::Unrestricted,
            enforcement_evidence_propagation: EnforcementEvidencePropagation::Event,
        },
    )
}

/// The offset at which a direction of a flow goes on: zero where it was not seen yet.
pub open spec fn next_offset_of(
    streams: StreamTrackerView,
    flow: FlowContextView,
    direction: Direction,
) -> u64 {
    if holds(streams.streams, stream_key(flow, direction)) {
        value_of(streams.streams, stream_key(flow, direction)).stream.next_offset
    } else {
        0
    }
}

/// Whether a segment at `sequence` is the next of a direction of a flow: it was not seen yet, or
/// goes on there with nothing waiting.
pub open spec fn is_next(
    streams: StreamTrackerView,
    flow: FlowContextView,
    direction: Direction,
    sequence: u32,
) -> bool {
    holds(streams.streams, stream_key(flow, direction)) ==> {
        let stream = value_of(streams.streams, stream_key(flow, direction)).stream;
        &&& stream.next_sequence is None || stream.next_sequence == Some(sequence)
        &&& stream.pending.len() == 0
        &&& stream.closed_at is None
    }
}

/// The next segment of a direction of a flow is told at once and whole, in an event of that flow
/// and direction, at the offset at which it goes on; the direction then goes on behind it. Other
/// directions and flows are left alone.
pub proof fn law_next_segment_is_told_at_once(
    streams: StreamTrackerView,
    timestamp: Timestamp,
    sequence: u32,
    bytes: Seq<u8>,
    payload: FlowPayloadView,
    degradation_reason: Seq<char>,
)
    requires
        crate::keyed::distinct_keys(streams.streams),
        bytes.len() > 0,
        is_next(streams, payload.flow, payload.direction, sequence),
        next_offset_of(streams, payload.flow, payload.direction) + bytes.len() <= u64::MAX,
        !streams.pending.over_limit(),
    ensures
        ({
            let result = streams.ingested(
                timestamp,
                sequence,
                bytes,
                payload,
                degradation_reason,
            );
            let key = stream_key(payload.flow, payload.direction);
            let offset = next_offset_of(streams, payload.flow, payload.direction);
            &&& result.events == seq![
                bytes_event(timestamp, payload, degradation_reason, offset, bytes),
            ]
            &&& is_next(
                result.state,
                payload.flow,
                payload.direction,
                seq_advance(sequence, bytes.len()),
            )
            &&& holds(result.state.streams, key)
            &&& next_offset_of(result.state, payload.flow, payload.direction) == offset
                + bytes.len()
            &&& forall|other: crate::libpcap::stream::budget::StreamKeyView|
                other != key && #[trigger] holds(streams.streams, other) ==> holds(
                    result.state.streams,
                    other,
                ) && value_of(result.state.streams, other) == value_of(streams.streams, other)
        }),
{
    let key = stream_key(payload.flow, payload.direction);
    let stream = if holds(streams.streams, key) {
        value_of(streams.streams, key).stream
    } else {
        fresh_stream()
    };
    let entry = refreshed(stream, timestamp, payload, degradation_reason);
    let step = ingested(stream, sequence, bytes);
    law_in_order_segment_is_delivered(stream, sequence, bytes);
    lemma_in_order_state(stream, sequence, bytes);
    let after = crate::libpcap::stream::tracking::StreamEntryView { stream: step.state, ..entry };
    let recorded = streams.recorded(timestamp, key, entry, step);
    lemma_with_value(streams.streams, key, after);
    assert(!recorded.state.pending.over_limit());
    let result = streams.ingested(timestamp, sequence, bytes, payload, degradation_reason);
    assert(result.events =~= recorded.events);
    assert(result.events =~= seq![
        bytes_event(timestamp, payload, degradation_reason, stream.next_offset, bytes),
    ]);
    assert forall|other: crate::libpcap::stream::budget::StreamKeyView|
        other != key && #[trigger] holds(streams.streams, other) implies holds(
        result.state.streams,
        other,
    ) && value_of(result.state.streams, other) == value_of(streams.streams, other) by {
        assert(value_of(with_value(streams.streams, key, after), other) == value_of(
            streams.streams,
            other,
        ));
    }
}

proof fn lemma_in_order_state(
    stream: crate::libpcap::stream::assembly::AssemblerView,
    sequence: u32,
    bytes: Seq<u8>,
)
    requires
        stream.next_sequence is None || stream.next_sequence == Some(sequence),
        stream.pending.len() == 0,
        stream.closed_at is None,
        bytes.len() > 0,
        stream.next_offset + bytes.len() <= u64::MAX,
    ensures
        ({
            let result = ingested(stream, sequence, bytes).state;
            &&& result.pending.len() == 0
            &&& result.closed_at is None
            &&& result.next_offset == stream.next_offset + bytes.len()
        }),
{
    crate::libpcap::tcp_seq::law_order(sequence, sequence);
    assert(bytes.take(bytes.len() as int) =~= bytes);
    assert(bytes.skip(0) =~= bytes);
}

} // verus!
