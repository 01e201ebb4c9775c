//! What becomes of a connection from segment to segment.
use vstd::prelude::*;

use crate::keyed::{
    distinct_keys, holds, index_of, lemma_held_at, lemma_index_of, lemma_with_value,
    lemma_without_key, value_of, with_value, without_key,
};
use crate::libpcap::decoder::TcpSegmentView;
use crate::libpcap::flow::candidate::{ResolverReplyView, SelectedFlowCandidateView};
use crate::libpcap::flow::laws::{
    bounded, lemma_room_accounted, lemma_swept_distinct, lemma_swept_keeps, lemma_swept_members,
    reported,
};
use crate::libpcap::flow::model::{
    FlowCloseSequence, FlowClosureView, FlowEndView, FlowFinalizationView,
};
use crate::libpcap::flow::record::{connection_of, ConnectionKey, FlowRecordView};
use crate::libpcap::flow::tracking::{end_of, is_idle, lifecycle_seen, opened_record, payload_seen, prepared, prepared_for_syn, removed, settled, surplus, swept, touched, with_room, Flows, selected_for, closures_of, Swept};
use crate::libpcap::tcp_seq::seq_advance;
use crate::model::{Direction, Timestamp};

verus! {

/// Two minutes, in nanoseconds.
pub open spec fn longest_silence() -> int {
    120_000_000_000
}

/// How many connections are tracked at most.
pub open spec fn most_connections() -> nat {
    16_384
}

/// What a segment leaves behind: the connections, the ends of some that were over before it, and
/// how far it ends its own.
#[verifier::ext_equal]
pub struct Observed {
    pub flows: Flows,
    pub closed: Seq<FlowClosureView>,
    pub end: Option<FlowEndView>,
}

/// What a segment leaves behind, with or without payload.
pub open spec fn observed(
    flows: Flows,
    segment: TcpSegmentView,
    timestamp: Timestamp,
    selected: SelectedFlowCandidateView,
) -> Observed {
    if segment.payload.len() > 0 {
        let seen = payload_seen(flows, segment, timestamp, selected);
        Observed {
            flows: seen.flows,
            closed: seen.observation.before_payload_closures,
            end: seen.observation.after_payload,
        }
    } else {
        let seen = lifecycle_seen(flows, segment, timestamp, selected);
        Observed {
            flows: seen.flows,
            closed: seen.observation.before_lifecycle_closures,
            end: seen.observation.after_lifecycle,
        }
    }
}

/// Whether a connection was silent for at most two minutes.
pub open spec fn is_awake(record: FlowRecordView, timestamp: Timestamp) -> bool {
    timestamp.wall_time_unix_ns <= record.last_seen_wall_time_unix_ns + longest_silence()
}

/// Whether all ends that are told are those of other connections than the one under `key`.
pub open spec fn are_ends_of_others(
    closed: Seq<FlowClosureView>,
    flows: Flows,
    key: ConnectionKey,
) -> bool {
    forall|index: int|
        0 <= index < closed.len() ==> is_end_of_another(#[trigger] closed[index], flows, key)
}

pub open spec fn is_end_of_another(
    closure: FlowClosureView,
    flows: Flows,
    key: ConnectionKey,
) -> bool {
    exists|other: ConnectionKey| #[trigger]
        holds(flows, other) && other != key && closure == value_of(flows, other).closure()
}

/// Whether the connection under `key` goes on as the same flow, or ends with its own segment.
pub open spec fn goes_on(before: Flows, key: ConnectionKey, after: Observed) -> bool {
    let flow = value_of(before, key).flow;
    &&& are_ends_of_others(after.closed, before, key)
    &&& (holds(after.flows, key) && value_of(after.flows, key).flow == flow) || (after.end matches
        Some(FlowEndView::Close(closure)) && closure.flow == flow)
}

/// Whether the connection under `key` is told to be over before its segment.
pub open spec fn is_replaced(before: Flows, key: ConnectionKey, after: Observed) -> bool {
    reported(after.closed, value_of(before, key).flow)
}

spec fn is_idle_end(closure: FlowClosureView, flows: Flows, now: i64) -> bool {
    exists|origin: int|
        0 <= origin < flows.len() && is_idle((#[trigger] flows[origin]).1, now) && closure
            == flows[origin].1.closure()
}

/// Whether an end that is told is that of a connection that was silent for too long.
pub open spec fn is_silent_end(
    closure: FlowClosureView,
    flows: Flows,
    timestamp: Timestamp,
) -> bool {
    exists|other: ConnectionKey| #[trigger]
        holds(flows, other) && !is_awake(value_of(flows, other), timestamp) && closure == value_of(
            flows,
            other,
        ).closure()
}

proof fn lemma_swept_ends(flows: Flows, now: i64)
    ensures
        forall|index: int|
            0 <= index < swept(flows, now).closed.len() ==> is_idle_end(
                #[trigger] swept(flows, now).closed[index],
                flows,
                now,
            ),
        forall|index: int|
            0 <= index < swept(flows, now).flows.len() ==> !is_idle(
                (#[trigger] swept(flows, now).flows[index]).1,
                now,
            ),
    decreases flows.len(),
{
    if flows.len() > 0 {
        let shorter = flows.drop_last();
        let rest = swept(shorter, now);
        let result = swept(flows, now);
        let last = flows.len() - 1;
        lemma_swept_ends(shorter, now);
        assert forall|index: int| 0 <= index < result.closed.len() implies is_idle_end(
            #[trigger] result.closed[index],
            flows,
            now,
        ) by {
            if index < rest.closed.len() {
                assert(result.closed[index] == rest.closed[index]);
                let origin = choose|origin: int|
                    0 <= origin < shorter.len() && is_idle((#[trigger] shorter[origin]).1, now)
                        && rest.closed[index] == shorter[origin].1.closure();
                assert(flows[origin] == shorter[origin]);
            } else {
                assert(is_idle(flows[last].1, now));
                assert(result.closed[index] == flows[last].1.closure());
            }
        }
        assert forall|index: int| 0 <= index < result.flows.len() implies !is_idle(
            (#[trigger] result.flows[index]).1,
            now,
        ) by {
            if index < rest.flows.len() {
                assert(result.flows[index] == rest.flows[index]);
            }
        }
    }
}

/// What is known of the connections once the idle ones are gone.
pub proof fn lemma_awake(flows: Flows, timestamp: Timestamp)
    requires
        bounded(flows),
    ensures
        ({
            let now = timestamp.wall_time_unix_ns;
            let awake = swept(flows, now);
            &&& bounded(awake.flows)
            &&& awake.flows.len() <= flows.len()
            &&& forall|key: ConnectionKey|
                #![trigger holds(awake.flows, key)]
                #![trigger value_of(awake.flows, key)]
                holds(awake.flows, key) <==> holds(flows, key) && is_awake(
                    value_of(flows, key),
                    timestamp,
                )
            &&& forall|key: ConnectionKey|
                #![trigger holds(awake.flows, key)]
                #![trigger value_of(awake.flows, key)]
                holds(awake.flows, key) ==> value_of(awake.flows, key) == value_of(flows, key)
            &&& forall|key: ConnectionKey| #[trigger]
                holds(flows, key) && !is_awake(value_of(flows, key), timestamp) ==> reported(
                    awake.closed,
                    value_of(flows, key).flow,
                )
            &&& forall|index: int|
                0 <= index < awake.closed.len() ==> is_silent_end(
                    #[trigger] awake.closed[index],
                    flows,
                    timestamp,
                )
        }),
{
    let now = timestamp.wall_time_unix_ns;
    let awake = swept(flows, now);
    lemma_swept_members(flows, now);
    lemma_swept_distinct(flows, now);
    lemma_swept_ends(flows, now);
    assert forall|key: ConnectionKey|
        #![trigger holds(awake.flows, key)]
        #![trigger value_of(awake.flows, key)]
        (holds(awake.flows, key) <==> holds(flows, key) && is_awake(
            value_of(flows, key),
            timestamp,
        )) && (holds(awake.flows, key) ==> value_of(awake.flows, key) == value_of(flows, key)) by {
        if holds(flows, key) {
            lemma_swept_keeps(flows, now, key);
        }
        if holds(awake.flows, key) {
            lemma_index_of(awake.flows, key);
            let place = index_of(awake.flows, key) as int;
            assert(flows.contains(awake.flows[place]));
            let origin = choose|origin: int| 0 <= origin < flows.len() && flows[origin]
                == awake.flows[place];
            lemma_held_at(flows, origin);
            assert(flows[origin].0 == key);
        }
    }
    assert forall|key: ConnectionKey| #[trigger] holds(flows, key) && !is_awake(
        value_of(flows, key),
        timestamp,
    ) implies reported(awake.closed, value_of(flows, key).flow) by {
        lemma_swept_keeps(flows, now, key);
    }
    assert forall|index: int| 0 <= index < awake.closed.len() implies is_silent_end(
        #[trigger] awake.closed[index],
        flows,
        timestamp,
    ) by {
        let origin = choose|origin: int|
            0 <= origin < flows.len() && is_idle((#[trigger] flows[origin]).1, now)
                && awake.closed[index] == flows[origin].1.closure();
        lemma_held_at(flows, origin);
        let other = flows[origin].0;
        assert(holds(flows, other) && value_of(flows, other) == flows[origin].1);
    }
}

proof fn lemma_touching_notes_time(
    record: FlowRecordView,
    segment: TcpSegmentView,
    timestamp: Timestamp,
)
    ensures
        touched(record, segment, timestamp).last_seen_wall_time_unix_ns
            == timestamp.wall_time_unix_ns,
{
}

proof fn lemma_record_notes_time(
    record: FlowRecordView,
    segment: TcpSegmentView,
    timestamp: Timestamp,
    selected: SelectedFlowCandidateView,
)
    ensures
        touched(record, segment, timestamp).last_seen_wall_time_unix_ns
            == timestamp.wall_time_unix_ns,
        opened_record(segment, timestamp, selected).last_seen_wall_time_unix_ns
            == timestamp.wall_time_unix_ns,
{
    lemma_touching_notes_time(record, segment, timestamp);
}

/// The time of the latest segment of a connection is on record.
proof fn lemma_time_is_noted(
    flows: Flows,
    segment: TcpSegmentView,
    timestamp: Timestamp,
    selected: SelectedFlowCandidateView,
)
    requires
        bounded(flows),
    ensures
        ({
            let after = observed(flows, segment, timestamp, selected).flows;
            let key = connection_of(segment);
            bounded(after) && (holds(after, key) ==> value_of(
                after,
                key,
            ).last_seen_wall_time_unix_ns == timestamp.wall_time_unix_ns)
        }),
{
    let key = connection_of(segment);
    let awake = swept(flows, timestamp.wall_time_unix_ns);
    crate::libpcap::flow::laws::law_payload_keeps_account(flows, segment, timestamp, selected);
    crate::libpcap::flow::laws::law_lifecycle_keeps_account(flows, segment, timestamp, selected);
    lemma_awake(flows, timestamp);
    lemma_without_key(awake.flows, key);
    let after = touched(value_of(awake.flows, key), segment, timestamp);
    lemma_record_notes_time(value_of(awake.flows, key), segment, timestamp, selected);
    lemma_with_value(awake.flows, key, after);
    let record = opened_record(segment, timestamp, selected);
    if segment.payload.len() > 0 {
        let state = prepared(flows, segment, timestamp);
        if holds(state.flows, key) {
            assert(state.flows == awake.flows);
        } else {
            lemma_prepared_distinct(flows, segment, timestamp);
            lemma_room_accounted(state);
            lemma_with_value(with_room(state).flows, key, record);
        }
    } else if segment.flags.syn {
        let state = prepared_for_syn(flows, segment, timestamp);
        if !holds(state.flows, key) {
            lemma_room_accounted(state);
            lemma_with_value(with_room(state).flows, key, record);
        }
    }
}

proof fn lemma_prepared_distinct(flows: Flows, segment: TcpSegmentView, timestamp: Timestamp)
    requires
        bounded(flows),
    ensures
        distinct_keys(prepared(flows, segment, timestamp).flows),
{
    let key = connection_of(segment);
    let awake = swept(flows, timestamp.wall_time_unix_ns);
    lemma_awake(flows, timestamp);
    lemma_without_key(awake.flows, key);
    lemma_without_key(removed(awake, key).flows, key);
}

/// The ends that are told before a segment whose connection goes on are those of idle ones.
proof fn lemma_awake_ends(flows: Flows, timestamp: Timestamp, key: ConnectionKey)
    requires
        bounded(flows),
        holds(flows, key),
        is_awake(value_of(flows, key), timestamp),
    ensures
        are_ends_of_others(swept(flows, timestamp.wall_time_unix_ns).closed, flows, key),
{
    lemma_awake(flows, timestamp);
    let closed = swept(flows, timestamp.wall_time_unix_ns).closed;
    assert forall|index: int| 0 <= index < closed.len() implies is_end_of_another(
        #[trigger] closed[index],
        flows,
        key,
    ) by {
        let other = choose|other: ConnectionKey| #[trigger]
            holds(flows, other) && !is_awake(value_of(flows, other), timestamp) && closed[index]
                == value_of(flows, other).closure();
        assert(holds(flows, other) && other != key);
    }
}

/// A tracked connection that was not silent for more than two minutes goes on with its next
/// segment without SYN, unless the sender of that had closed its direction.
proof fn lemma_known_goes_on(
    flows: Flows,
    segment: TcpSegmentView,
    timestamp: Timestamp,
    selected: SelectedFlowCandidateView,
)
    requires
        bounded(flows),
        holds(flows, connection_of(segment)),
        is_awake(value_of(flows, connection_of(segment)), timestamp),
        !segment.flags.syn || value_of(flows, connection_of(segment)).owns_syn(segment),
        segment.payload.len() > 0 ==> !value_of(flows, connection_of(segment)).is_past_close(
            segment,
        ),
    ensures
        ({
            let key = connection_of(segment);
            let record = value_of(flows, key);
            let after = observed(flows, segment, timestamp, selected);
            &&& goes_on(flows, key, after)
            &&& !(segment.payload.len() == 0 && segment.flags.syn) ==> after.flows == settled(
                swept(flows, timestamp.wall_time_unix_ns).flows,
                key,
                touched(record, segment, timestamp),
            ) && after.end == end_of(
                touched(record, segment, timestamp),
                record.direction_of(segment),
            )
            &&& segment.payload.len() > 0 ==> payload_seen(
                flows,
                segment,
                timestamp,
                selected,
            ).observation.payload.flow == record.flow && payload_seen(
                flows,
                segment,
                timestamp,
                selected,
            ).observation.payload.direction == record.direction_of(segment)
        }),
{
    let key = connection_of(segment);
    let awake = swept(flows, timestamp.wall_time_unix_ns);
    lemma_awake(flows, timestamp);
    lemma_awake_ends(flows, timestamp, key);
    assert(holds(awake.flows, key));
    let after = touched(value_of(awake.flows, key), segment, timestamp);
    lemma_with_value(awake.flows, key, after);
}

/// A segment of another connection leaves a connection alone that was not silent for more than two
/// minutes, as long as there is room for one more.
proof fn lemma_other_is_left_alone(
    flows: Flows,
    segment: TcpSegmentView,
    timestamp: Timestamp,
    selected: SelectedFlowCandidateView,
    key: ConnectionKey,
)
    requires
        bounded(flows),
        flows.len() < most_connections(),
        holds(flows, key),
        connection_of(segment) != key,
        is_awake(value_of(flows, key), timestamp),
    ensures
        ({
            let after = observed(flows, segment, timestamp, selected);
            &&& holds(after.flows, key)
            &&& value_of(after.flows, key) == value_of(flows, key)
            &&& are_ends_of_others(after.closed, flows, key)
        }),
{
    let own = connection_of(segment);
    let awake = swept(flows, timestamp.wall_time_unix_ns);
    lemma_awake(flows, timestamp);
    lemma_awake_ends(flows, timestamp, key);
    lemma_without_key(awake.flows, own);
    assert(holds(awake.flows, key));
    assert(value_of(without_key(awake.flows, own), key) == value_of(awake.flows, key));
    assert(holds(without_key(awake.flows, own), key));
    let gone = removed(awake, own);
    assert(are_ends_of_others(gone.closed, flows, key)) by {
        assert forall|index: int| 0 <= index < gone.closed.len() implies is_end_of_another(
            #[trigger] gone.closed[index],
            flows,
            key,
        ) by {
            if index < awake.closed.len() {
                assert(gone.closed[index] == awake.closed[index]);
            } else {
                assert(holds(awake.flows, own));
                assert(holds(flows, own) && own != key);
            }
        }
    }
    let after = touched(value_of(awake.flows, own), segment, timestamp);
    lemma_with_value(awake.flows, own, after);
    assert(value_of(with_value(awake.flows, own, after), key) == value_of(awake.flows, key));
    assert(holds(with_value(awake.flows, own, after), key));
    let record = opened_record(segment, timestamp, selected);
    let state = if segment.payload.len() > 0 {
        prepared(flows, segment, timestamp)
    } else if segment.flags.syn {
        prepared_for_syn(flows, segment, timestamp)
    } else {
        awake
    };
    lemma_without_key(gone.flows, own);
    assert(surplus(state.flows) == 0);
    let room = with_room(state);
    assert(room.flows =~= state.flows);
    assert(room.closed =~= state.closed);
    if !holds(state.flows, own) {
        lemma_with_value(state.flows, own, record);
        assert(value_of(with_value(state.flows, own, record), key) == value_of(state.flows, key));
        assert(holds(with_value(state.flows, own, record), key));
    }
}

/// The silence that ends a connection is measured from its latest segment: once a segment of it
/// was observed and it is still tracked, whatever segment comes in the two minutes after that
/// neither closes nor removes it as idle. One of another connection leaves it alone, as long as
/// there is room for one more; one of its own belongs to the same flow, unless its sender had
/// closed.
pub proof fn law_silence_counts_from_the_latest_segment(
    flows: Flows,
    first: TcpSegmentView,
    first_time: Timestamp,
    first_selected: SelectedFlowCandidateView,
    later: TcpSegmentView,
    later_time: Timestamp,
    later_selected: SelectedFlowCandidateView,
)
    requires
        bounded(flows),
        holds(
            observed(flows, first, first_time, first_selected).flows,
            connection_of(first),
        ),
        later_time.wall_time_unix_ns <= first_time.wall_time_unix_ns + longest_silence(),
    ensures
        ({
            let key = connection_of(first);
            let middle = observed(flows, first, first_time, first_selected).flows;
            let record = value_of(middle, key);
            let after = observed(middle, later, later_time, later_selected);
            &&& connection_of(later) != key && middle.len() < most_connections() ==> holds(
                after.flows,
                key,
            ) && value_of(after.flows, key) == record && are_ends_of_others(
                after.closed,
                middle,
                key,
            )
            &&& connection_of(later) == key && !later.flags.syn && record.close_of(
                record.direction_of(later),
            ) is None ==> goes_on(middle, key, after) && (later.payload.len() > 0 ==> payload_seen(
                middle,
                later,
                later_time,
                later_selected,
            ).observation.payload.flow == record.flow)
        }),
{
    let key = connection_of(first);
    let middle = observed(flows, first, first_time, first_selected).flows;
    let record = value_of(middle, key);
    lemma_time_is_noted(flows, first, first_time, first_selected);
    assert(is_awake(record, later_time));
    if connection_of(later) != key {
        if middle.len() < most_connections() {
            lemma_other_is_left_alone(middle, later, later_time, later_selected, key);
        }
    } else if !later.flags.syn && record.close_of(record.direction_of(later)) is None {
        lemma_known_goes_on(middle, later, later_time, later_selected);
    }
}

/// A connection that was silent for more than two minutes is told to be over when the next segment
/// comes, and is tracked no more; if the segment is its own, it belongs to a new flow.
pub proof fn law_long_silence_ends_a_connection(
    flows: Flows,
    key: ConnectionKey,
    segment: TcpSegmentView,
    timestamp: Timestamp,
    selected: SelectedFlowCandidateView,
)
    requires
        bounded(flows),
        holds(flows, key),
        timestamp.wall_time_unix_ns > value_of(flows, key).last_seen_wall_time_unix_ns
            + longest_silence(),
    ensures
        ({
            let after = observed(flows, segment, timestamp, selected);
            &&& is_replaced(flows, key, after)
            &&& connection_of(segment) != key ==> !holds(after.flows, key)
            &&& connection_of(segment) == key && holds(after.flows, key) ==> value_of(
                after.flows,
                key,
            ) == opened_record(segment, timestamp, selected)
        }),
{
    let own = connection_of(segment);
    let awake = swept(flows, timestamp.wall_time_unix_ns);
    let flow = value_of(flows, key).flow;
    lemma_awake(flows, timestamp);
    assert(!holds(awake.flows, key));
    let told = choose|index: int|
        0 <= index < awake.closed.len() && (#[trigger] awake.closed[index]).flow == flow;
    lemma_without_key(awake.flows, own);
    let gone = removed(awake, own);
    lemma_without_key(gone.flows, own);
    assert(gone.closed[told].flow == flow);
    let touched_record = touched(value_of(awake.flows, own), segment, timestamp);
    lemma_with_value(awake.flows, own, touched_record);
    let state = if segment.payload.len() > 0 {
        prepared(flows, segment, timestamp)
    } else if segment.flags.syn {
        prepared_for_syn(flows, segment, timestamp)
    } else {
        awake
    };
    assert(!holds(state.flows, key));
    assert(state.closed[told].flow == flow);
    lemma_room_accounted(state);
    let room = with_room(state);
    assert(!holds(room.flows, key));
    assert(room.closed[told].flow == flow);
    let record = opened_record(segment, timestamp, selected);
    lemma_with_value(room.flows, own, record);
    let after = observed(flows, segment, timestamp, selected);
    assert(after.closed[told].flow == flow);
}

/// Where a FIN or a reset closes its direction: the first close stands.
pub open spec fn close_after(record: FlowRecordView, segment: TcpSegmentView) -> FlowCloseSequence {
    let direction = record.direction_of(segment);
    match record.close_of(direction) {
        Some(earlier) => earlier,
        None => FlowCloseSequence {
            direction,
            sequence: seq_advance(segment.sequence, segment.payload.len()),
        },
    }
}

/// Whether a connection is over with a FIN or a reset.
pub open spec fn is_over_with(record: FlowRecordView, segment: TcpSegmentView) -> bool {
    segment.flags.rst || record.reset || record.close_of(
        record.direction_of(segment).opposite_of(),
    ) is Some
}

proof fn lemma_close_is_noted(
    record: FlowRecordView,
    segment: TcpSegmentView,
    timestamp: Timestamp,
)
    requires
        segment.flags.fin || segment.flags.rst,
        !segment.flags.syn,
    ensures
        ({
            let after = touched(record, segment, timestamp);
            let close = close_after(record, segment);
            &&& after.close_of(record.direction_of(segment)) == Some(close)
            &&& after.flow == record.flow
            &&& after.is_closed() == is_over_with(record, segment)
            &&& after.closure().finalizations.contains(close)
            &&& after.closure().flow == record.flow
        }),
{
    let after = touched(record, segment, timestamp);
    let close = close_after(record, segment);
    assert(seq_advance(segment.sequence, 0) == segment.sequence);
    let local = match after.local_close {
        Some(close) => seq![close],
        None => Seq::empty(),
    };
    match record.direction_of(segment) {
        Direction::Outbound => {
            assert(after.closure().finalizations[0] == close);
        },
        Direction::Inbound => {
            assert(after.closure().finalizations[local.len() as int] == close);
        },
    }
}

/// A FIN or a reset of a tracked connection is noted, with or without payload: the direction that
/// it comes from is closed behind its last octet, and the first close of a direction stands. Once
/// both directions are closed, or at a reset, the connection is tracked no more and told to be
/// over; before that, the end of the one direction is told.
pub proof fn law_fin_and_reset_are_noted(
    flows: Flows,
    segment: TcpSegmentView,
    timestamp: Timestamp,
    selected: SelectedFlowCandidateView,
)
    requires
        bounded(flows),
        holds(flows, connection_of(segment)),
        is_awake(value_of(flows, connection_of(segment)), timestamp),
        segment.flags.fin || segment.flags.rst,
        !segment.flags.syn,
        segment.payload.len() > 0 ==> value_of(flows, connection_of(segment)).close_of(
            value_of(flows, connection_of(segment)).direction_of(segment),
        ) is None,
    ensures
        ({
            let key = connection_of(segment);
            let record = value_of(flows, key);
            let direction = record.direction_of(segment);
            let close = close_after(record, segment);
            let after = observed(flows, segment, timestamp, selected);
            let over = is_over_with(record, segment);
            &&& over ==> !holds(after.flows, key) && (after.end matches Some(
                FlowEndView::Close(closure),
            ) && closure.flow == record.flow && closure.finalizations.contains(close))
            &&& !over ==> holds(after.flows, key) && value_of(after.flows, key).close_of(direction)
                == Some(close) && value_of(after.flows, key).flow == record.flow && after.end
                == Some(
                FlowEndView::Finalize(
                    FlowFinalizationView { flow: record.flow, close_sequence: close },
                ),
            )
        }),
{
    let key = connection_of(segment);
    let record = value_of(flows, key);
    let awake = swept(flows, timestamp.wall_time_unix_ns);
    lemma_awake(flows, timestamp);
    assert(holds(awake.flows, key));
    lemma_known_goes_on(flows, segment, timestamp, selected);
    lemma_close_is_noted(record, segment, timestamp);
    lemma_with_value(awake.flows, key, touched(record, segment, timestamp));
    lemma_without_key(awake.flows, key);
}

/// Whether the local end of every connection is one of its two ends.
pub open spec fn well_read(flows: Flows) -> bool {
    forall|index: int|
        0 <= index < flows.len() ==> ((#[trigger] flows[index]).1.local_endpoint
            == flows[index].0.lower || flows[index].1.local_endpoint == flows[index].0.higher)
}

/// A SYN belongs to the connection for which another one was seen if it repeats that one, or if it
/// comes from the other end and acknowledges that one; any other SYN replaces the connection, which
/// is then told to be over.
pub proof fn law_syn_repeats_answers_or_replaces(
    flows: Flows,
    first: TcpSegmentView,
    first_time: Timestamp,
    first_selected: SelectedFlowCandidateView,
    later: TcpSegmentView,
    later_time: Timestamp,
    later_selected: SelectedFlowCandidateView,
)
    requires
        bounded(flows),
        first.flags.syn,
        later.flags.syn,
        connection_of(later) == connection_of(first),
        first.source_end() != first.destination_end(),
        holds(
            observed(flows, first, first_time, first_selected).flows,
            connection_of(first),
        ),
        well_read(observed(flows, first, first_time, first_selected).flows),
        later_time.wall_time_unix_ns <= first_time.wall_time_unix_ns + longest_silence(),
    ensures
        ({
            let key = connection_of(first);
            let middle = observed(flows, first, first_time, first_selected).flows;
            let record = value_of(middle, key);
            let after = observed(middle, later, later_time, later_selected);
            let open = record.close_of(record.direction_of(later)) is None;
            let same_end = later.source_end() == first.source_end();
            let unheard = record.syn_of(record.direction_of(later)) is None;
            let repeats = later.sequence == first.sequence;
            let answers = later.flags.ack && later.acknowledgment == seq_advance(
                first.sequence,
                1,
            );
            &&& same_end && repeats && open ==> goes_on(middle, key, after)
            &&& same_end && !repeats ==> is_replaced(middle, key, after)
            &&& !same_end && unheard && answers && open ==> goes_on(middle, key, after)
            &&& !same_end && unheard && !answers ==> is_replaced(middle, key, after)
        }),
{
    let key = connection_of(first);
    let middle = observed(flows, first, first_time, first_selected).flows;
    let record = value_of(middle, key);
    lemma_time_is_noted(flows, first, first_time, first_selected);
    lemma_syn_is_noted(flows, first, first_time, first_selected);
    lemma_index_of(middle, key);
    crate::libpcap::flow::direction_laws::law_connection_is_its_two_ends(first, later);
    let place = index_of(middle, key) as int;
    assert(middle[place].0 == key);
    assert(record.local_endpoint == first.source_end() || record.local_endpoint
        == first.destination_end());
    if record.owns_syn(later) {
        if record.close_of(record.direction_of(later)) is None {
            lemma_known_goes_on(middle, later, later_time, later_selected);
        }
    } else {
        lemma_foreign_syn_replaces(middle, later, later_time, later_selected);
    }
}

proof fn lemma_syn_is_noted(
    flows: Flows,
    segment: TcpSegmentView,
    timestamp: Timestamp,
    selected: SelectedFlowCandidateView,
)
    requires
        bounded(flows),
        segment.flags.syn,
        holds(observed(flows, segment, timestamp, selected).flows, connection_of(segment)),
    ensures
        ({
            let record = value_of(
                observed(flows, segment, timestamp, selected).flows,
                connection_of(segment),
            );
            record.syn_of(record.direction_of(segment)) == Some(segment.sequence)
        }),
{
    let key = connection_of(segment);
    let awake = swept(flows, timestamp.wall_time_unix_ns);
    lemma_awake(flows, timestamp);
    lemma_without_key(awake.flows, key);
    let after = touched(value_of(awake.flows, key), segment, timestamp);
    lemma_with_value(awake.flows, key, after);
    let record = opened_record(segment, timestamp, selected);
    if segment.payload.len() > 0 {
        let state = prepared(flows, segment, timestamp);
        if holds(state.flows, key) {
            assert(state.flows == awake.flows);
        } else {
            lemma_prepared_distinct(flows, segment, timestamp);
            lemma_room_accounted(state);
            lemma_with_value(with_room(state).flows, key, record);
        }
    } else {
        let state = prepared_for_syn(flows, segment, timestamp);
        if !holds(state.flows, key) {
            lemma_room_accounted(state);
            lemma_with_value(with_room(state).flows, key, record);
        }
    }
}

proof fn lemma_foreign_syn_replaces(
    flows: Flows,
    segment: TcpSegmentView,
    timestamp: Timestamp,
    selected: SelectedFlowCandidateView,
)
    requires
        bounded(flows),
        segment.flags.syn,
        holds(flows, connection_of(segment)),
        is_awake(value_of(flows, connection_of(segment)), timestamp),
        !value_of(flows, connection_of(segment)).owns_syn(segment),
    ensures
        is_replaced(
            flows,
            connection_of(segment),
            observed(flows, segment, timestamp, selected),
        ),
{
    let key = connection_of(segment);
    let awake = swept(flows, timestamp.wall_time_unix_ns);
    lemma_awake(flows, timestamp);
    assert(holds(awake.flows, key));
    let gone = removed(awake, key);
    let last = awake.closed.len() as int;
    assert(gone.closed[last].flow == value_of(flows, key).flow);
    lemma_without_key(awake.flows, key);
    assert(!holds(gone.flows, key));
    assert(with_room(gone).closed[last] == gone.closed[last]);
    let after = observed(flows, segment, timestamp, selected);
    assert(after.closed[last] == gone.closed[last]);
}

/// The local end of every connection stays one of its two ends, whatever a resolver says.
pub proof fn law_connections_stay_well_read(
    flows: Flows,
    segment: TcpSegmentView,
    timestamp: Timestamp,
    replies: Seq<ResolverReplyView>,
)
    requires
        bounded(flows),
        well_read(flows),
    ensures
        well_read(observed(flows, segment, timestamp, selected_for(segment, replies)).flows),
{
    let key = connection_of(segment);
    let selected = selected_for(segment, replies);
    let awake = swept(flows, timestamp.wall_time_unix_ns);
    lemma_swept_members(flows, timestamp.wall_time_unix_ns);
    assert(well_read(awake.flows)) by {
        assert forall|index: int| 0 <= index < awake.flows.len() implies ((
        #[trigger] awake.flows[index]).1.local_endpoint == awake.flows[index].0.lower
            || awake.flows[index].1.local_endpoint == awake.flows[index].0.higher) by {
            assert(flows.contains(awake.flows[index]));
        }
    }
    lemma_index_of(awake.flows, key);
    let gone = removed(awake, key);
    lemma_index_of(gone.flows, key);
    let settled_record = touched(value_of(awake.flows, key), segment, timestamp);
    let state = if segment.payload.len() > 0 {
        prepared(flows, segment, timestamp)
    } else if segment.flags.syn {
        prepared_for_syn(flows, segment, timestamp)
    } else {
        awake
    };
    assert(well_read(gone.flows));
    assert(well_read(with_value(awake.flows, key, settled_record)) || !holds(awake.flows, key));
    assert(well_read(state.flows));
    let room = with_room(state);
    assert(well_read(room.flows));
    let record = opened_record(segment, timestamp, selected);
    assert(record.local_endpoint == segment.source_end() || record.local_endpoint
        == segment.destination_end());
    assert(well_read(room.flows.push((key, record))));
    if holds(state.flows, key) && !(segment.payload.len() == 0 && segment.flags.syn) {
        lemma_awake(flows, timestamp);
        lemma_without_key(awake.flows, key);
        assert(state.flows == awake.flows);
        assert(gone.flows == without_key(awake.flows, key));
        assert(well_read(settled(awake.flows, key, settled_record)));
    }
}

/// Whether an end that is told is that of a connection that was tracked before, and that is tracked
/// no more unless its own segment came.
pub open spec fn is_true_end(
    closure: FlowClosureView,
    before: Flows,
    after: Flows,
    own: ConnectionKey,
) -> bool {
    exists|key: ConnectionKey| #[trigger]
        holds(before, key) && closure == value_of(before, key).closure() && (key == own || !holds(
            after,
            key,
        ))
}

/// Only ends of connections are told that were tracked, and that are tracked no more or, where the
/// segment is their own, begin anew with it.
pub proof fn law_only_true_ends_are_told(
    flows: Flows,
    segment: TcpSegmentView,
    timestamp: Timestamp,
    selected: SelectedFlowCandidateView,
    index: int,
)
    requires
        bounded(flows),
        0 <= index < observed(flows, segment, timestamp, selected).closed.len(),
    ensures
        is_true_end(
            observed(flows, segment, timestamp, selected).closed[index],
            flows,
            observed(flows, segment, timestamp, selected).flows,
            connection_of(segment),
        ),
{
    let own = connection_of(segment);
    let after = observed(flows, segment, timestamp, selected);
    let closure = after.closed[index];
    let awake = swept(flows, timestamp.wall_time_unix_ns);
    lemma_awake(flows, timestamp);
    lemma_without_key(awake.flows, own);
    let gone = removed(awake, own);
    lemma_without_key(gone.flows, own);
    let state = if segment.payload.len() > 0 {
        prepared(flows, segment, timestamp)
    } else if segment.flags.syn {
        prepared_for_syn(flows, segment, timestamp)
    } else {
        awake
    };
    let settled_record = touched(value_of(awake.flows, own), segment, timestamp);
    lemma_with_value(awake.flows, own, settled_record);
    assert(state == awake || state == gone || state.flows == with_value(
        awake.flows,
        own,
        settled_record,
    ) && state.closed == awake.closed);
    lemma_room_accounted(state);
    let room = with_room(state);
    lemma_with_value(room.flows, own, opened_record(segment, timestamp, selected));
    if index < awake.closed.len() {
        assert(closure == awake.closed[index]);
        let key = choose|key: ConnectionKey| #[trigger]
            holds(flows, key) && !is_awake(value_of(flows, key), timestamp) && closure == value_of(
                flows,
                key,
            ).closure();
        assert(!holds(awake.flows, key));
        if key != own {
            assert(!holds(state.flows, key));
            assert(!holds(room.flows, key));
            assert(!holds(after.flows, key));
        }
    } else if index < state.closed.len() {
        assert(closure == gone.closed[index]);
        assert(holds(awake.flows, own));
        assert(holds(flows, own) && closure == value_of(flows, own).closure());
    } else {
        let place = index - state.closed.len();
        assert(closure == closures_of(state.flows.take(surplus(state.flows)))[place]);
        assert(closure == state.flows[place].1.closure());
        lemma_held_at(state.flows, place);
        let key = state.flows[place].0;
        assert(key != own);
        assert(holds(awake.flows, key));
        assert(value_of(state.flows, key) == value_of(awake.flows, key));
        assert(!holds(room.flows, key)) by {
            lemma_index_of(room.flows, key);
            if holds(room.flows, key) {
                let later = index_of(room.flows, key) as int;
                assert(room.flows[later] == state.flows[later + surplus(state.flows)]);
            }
        }
    }
}

/// Where as many connections are tracked as can be, none of them idle, the first segment with
/// payload of one more displaces the one that was opened first, and no other.
pub proof fn law_oldest_connection_makes_room(
    flows: Flows,
    segment: TcpSegmentView,
    timestamp: Timestamp,
    selected: SelectedFlowCandidateView,
    index: int,
)
    requires
        bounded(flows),
        flows.len() == most_connections(),
        forall|key: ConnectionKey| #[trigger]
            holds(flows, key) ==> is_awake(value_of(flows, key), timestamp),
        !holds(flows, connection_of(segment)),
        segment.payload.len() > 0,
        0 <= index < flows.len(),
    ensures
        ({
            let after = observed(flows, segment, timestamp, selected);
            &&& after.closed == seq![flows[0].1.closure()]
            &&& holds(after.flows, flows[index].0) <==> index > 0
            &&& index > 0 ==> value_of(after.flows, flows[index].0) == flows[index].1
        }),
{
    let own = connection_of(segment);
    let now = timestamp.wall_time_unix_ns;
    let awake = swept(flows, now);
    assert forall|place: int| 0 <= place < flows.len() implies !is_idle(
        (#[trigger] flows[place]).1,
        now,
    ) by {
        lemma_held_at(flows, place);
        assert(holds(flows, flows[place].0));
    }
    lemma_nothing_swept(flows, now);
    let state = prepared(flows, segment, timestamp);
    assert(state == awake);
    let room = with_room(state);
    assert(room.flows =~= flows.skip(1));
    assert(room.closed =~= seq![flows[0].1.closure()]);
    lemma_room_accounted(state);
    let record = opened_record(segment, timestamp, selected);
    lemma_with_value(room.flows, own, record);
    let key = flows[index].0;
    lemma_held_at(flows, index);
    assert(key != own);
    if index > 0 {
        assert(room.flows[index - 1] == flows[index]);
        lemma_held_at(room.flows, index - 1);
        assert(value_of(with_value(room.flows, own, record), key) == value_of(room.flows, key));
    } else {
        lemma_index_of(room.flows, key);
        if holds(room.flows, key) {
            let later = index_of(room.flows, key) as int;
            assert(room.flows[later] == flows[later + 1]);
        }
    }
}

proof fn lemma_nothing_swept(flows: Flows, now: i64)
    requires
        forall|place: int|
            0 <= place < flows.len() ==> !is_idle((#[trigger] flows[place]).1, now),
    ensures
        swept(flows, now) == (Swept { flows, closed: Seq::empty() }),
    decreases flows.len(),
{
    if flows.len() > 0 {
        let shorter = flows.drop_last();
        assert forall|place: int| 0 <= place < shorter.len() implies !is_idle(
            (#[trigger] shorter[place]).1,
            now,
        ) by {
            assert(shorter[place] == flows[place]);
        }
        lemma_nothing_swept(shorter, now);
        assert(shorter.push(flows.last()) =~= flows);
        assert(flows.last() == flows[flows.len() - 1]);
    }
}

/// A first segment with payload opens its connection, unless it ends it at once; a SYN without
/// payload opens it exactly if its process was found.
pub proof fn law_when_a_connection_is_opened(
    flows: Flows,
    segment: TcpSegmentView,
    timestamp: Timestamp,
    selected: SelectedFlowCandidateView,
)
    requires
        bounded(flows),
        !holds(flows, connection_of(segment)),
    ensures
        ({
            let key = connection_of(segment);
            let after = observed(flows, segment, timestamp, selected);
            let record = opened_record(segment, timestamp, selected);
            &&& segment.payload.len() > 0 ==> (holds(after.flows, key) <==> !segment.flags.rst)
            &&& segment.payload.len() == 0 && segment.flags.syn ==> (holds(after.flows, key)
                <==> selected.confidence != 0)
            &&& segment.payload.len() == 0 && !segment.flags.syn ==> !holds(after.flows, key)
            &&& holds(after.flows, key) ==> value_of(after.flows, key) == record
        }),
{
    let key = connection_of(segment);
    let awake = swept(flows, timestamp.wall_time_unix_ns);
    lemma_awake(flows, timestamp);
    assert(!holds(awake.flows, key));
    lemma_room_accounted(awake);
    lemma_with_value(with_room(awake).flows, key, opened_record(segment, timestamp, selected));
}

/// Payload of a direction that was closed still belongs to its connection if it starts before the
/// close, within half of the sequence numbers. At the close or behind it, it belongs to a new
/// connection between the two ends, and the earlier one is told to be over.
pub proof fn law_payload_behind_a_close_begins_anew(
    flows: Flows,
    segment: TcpSegmentView,
    timestamp: Timestamp,
    selected: SelectedFlowCandidateView,
)
    requires
        bounded(flows),
        holds(flows, connection_of(segment)),
        is_awake(value_of(flows, connection_of(segment)), timestamp),
        segment.payload.len() > 0,
        !segment.flags.syn,
        value_of(flows, connection_of(segment)).close_of(
            value_of(flows, connection_of(segment)).direction_of(segment),
        ) is Some,
    ensures
        ({
            let record = value_of(flows, connection_of(segment));
            let direction = record.direction_of(segment);
            let close = record.close_of(direction)->0.sequence;
            let steps = (segment.sequence - close) % 0x1_0000_0000;
            let seen = payload_seen(flows, segment, timestamp, selected).observation;
            &&& steps >= 0x8000_0000 ==> seen.payload.flow == record.flow && seen.payload.direction
                == direction
            &&& steps < 0x8000_0000 ==> reported(seen.before_payload_closures, record.flow)
                && seen.payload.flow == opened_record(segment, timestamp, selected).flow
                && seen.payload.direction == selected.direction
        }),
{
    let key = connection_of(segment);
    let record = value_of(flows, key);
    let close = record.close_of(record.direction_of(segment))->0.sequence;
    assert(segment.first_sequence() == segment.sequence);
    if (segment.sequence - close) % 0x1_0000_0000 >= 0x8000_0000 {
        lemma_known_goes_on(flows, segment, timestamp, selected);
    } else {
        let awake = swept(flows, timestamp.wall_time_unix_ns);
        lemma_awake(flows, timestamp);
        assert(holds(awake.flows, key) && value_of(awake.flows, key) == record);
        lemma_without_key(awake.flows, key);
        let state = prepared(flows, segment, timestamp);
        assert(state == removed(awake, key));
        assert(!holds(state.flows, key));
        let place = awake.closed.len() as int;
        assert(state.closed[place] == record.closure());
        assert(with_room(state).closed[place] == state.closed[place]);
    }
}

} // verus!
