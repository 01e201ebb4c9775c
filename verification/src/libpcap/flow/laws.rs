//! What holds of the tracked connections, whatever segments arrive.
use vstd::prelude::*;

use crate::keyed::{
    distinct_keys, holds, index_of, lemma_held_at, lemma_index_of, lemma_with_value,
    lemma_without_key, value_of, with_value, without_key,
};
use crate::libpcap::decoder::TcpSegmentView;
use crate::libpcap::flow::candidate::SelectedFlowCandidateView;
use crate::libpcap::flow::model::{FlowClosureView, FlowEndView};
use crate::libpcap::flow::record::{connection_of, ConnectionKey};
use crate::libpcap::flow::tracking::{
    closures_of, is_idle, lifecycle_seen, opened_record, payload_seen, prepared, prepared_for_syn,
    removed, settled, surplus, swept, syn_is_known, syn_seen, touched, with_room, Flows, Swept,
    MAX_FLOW_TRACKER_CONNECTIONS,
};
use crate::model::{FlowContextView, Timestamp};

verus! {

/// Whether every connection is tracked once, and no more than allowed.
pub open spec fn bounded(flows: Flows) -> bool {
    distinct_keys(flows) && flows.len() <= MAX_FLOW_TRACKER_CONNECTIONS
}

/// Whether the end of a flow is among those reported.
pub open spec fn reported(closed: Seq<FlowClosureView>, flow: FlowContextView) -> bool {
    exists|index: int| 0 <= index < closed.len() && (#[trigger] closed[index]).flow == flow
}

/// Whether every connection of `before` either goes on in `after`, as the same flow, or was
/// reported as ended.
pub open spec fn accounted(before: Flows, after: Flows, closed: Seq<FlowClosureView>) -> bool {
    forall|key: ConnectionKey| #[trigger]
        holds(before, key) ==> (holds(after, key) && value_of(after, key).flow == value_of(
            before,
            key,
        ).flow) || reported(closed, value_of(before, key).flow)
}

proof fn lemma_reported_extends(
    closed: Seq<FlowClosureView>,
    more: Seq<FlowClosureView>,
    flow: FlowContextView,
)
    requires
        reported(closed, flow),
    ensures
        reported(closed + more, flow),
{
    let index = choose|index: int|
        0 <= index < closed.len() && (#[trigger] closed[index]).flow == flow;
    assert((closed + more)[index].flow == flow);
}

proof fn lemma_accounted_extends(
    before: Flows,
    after: Flows,
    closed: Seq<FlowClosureView>,
    more: Seq<FlowClosureView>,
)
    requires
        accounted(before, after, closed),
    ensures
        accounted(before, after, closed + more),
{
    assert forall|key: ConnectionKey| #[trigger] holds(before, key) implies (holds(after, key)
        && value_of(after, key).flow == value_of(before, key).flow) || reported(
        closed + more,
        value_of(before, key).flow,
    ) by {
        if reported(closed, value_of(before, key).flow) {
            lemma_reported_extends(closed, more, value_of(before, key).flow);
        }
    }
}

proof fn lemma_accounted_chain(
    before: Flows,
    middle: Flows,
    after: Flows,
    first: Seq<FlowClosureView>,
    second: Seq<FlowClosureView>,
)
    requires
        accounted(before, middle, first),
        accounted(middle, after, second),
    ensures
        accounted(before, after, first + second),
{
    assert forall|key: ConnectionKey| #[trigger] holds(before, key) implies (holds(after, key)
        && value_of(after, key).flow == value_of(before, key).flow) || reported(
        first + second,
        value_of(before, key).flow,
    ) by {
        let flow = value_of(before, key).flow;
        if reported(first, flow) {
            lemma_reported_extends(first, second, flow);
        } else {
            assert(holds(middle, key));
            if reported(second, flow) {
                let index = choose|index: int|
                    0 <= index < second.len() && (#[trigger] second[index]).flow == flow;
                assert((first + second)[first.len() + index].flow == flow);
            }
        }
    }
}

/// Sweeping keeps connections as they are, in their order, and only idle ones go.
pub proof fn lemma_swept_members(flows: Flows, now: i64)
    ensures
        swept(flows, now).flows.len() <= flows.len(),
        forall|index: int|
            0 <= index < swept(flows, now).flows.len() ==> flows.contains(
                #[trigger] swept(flows, now).flows[index],
            ),
        forall|index: int|
            0 <= index < flows.len() ==> (if is_idle((#[trigger] flows[index]).1, now) {
                reported(swept(flows, now).closed, flows[index].1.flow)
            } else {
                swept(flows, now).flows.contains(flows[index])
            }),
    decreases flows.len(),
{
    if flows.len() > 0 {
        let shorter = flows.drop_last();
        let rest = swept(shorter, now);
        let result = swept(flows, now);
        let last = flows.last();
        lemma_swept_members(shorter, now);
        assert(flows[flows.len() - 1] == last);
        assert forall|index: int| 0 <= index < result.flows.len() implies flows.contains(
            #[trigger] result.flows[index],
        ) by {
            if index < rest.flows.len() {
                assert(result.flows[index] == rest.flows[index]);
                assert(shorter.contains(rest.flows[index]));
                let origin = choose|origin: int| 0 <= origin < shorter.len() && shorter[origin]
                    == rest.flows[index];
                assert(flows[origin] == rest.flows[index]);
            }
        }
        assert forall|index: int| 0 <= index < flows.len() implies (if is_idle(
            (#[trigger] flows[index]).1,
            now,
        ) {
            reported(result.closed, flows[index].1.flow)
        } else {
            result.flows.contains(flows[index])
        }) by {
            if index < shorter.len() {
                assert(shorter[index] == flows[index]);
                if is_idle(flows[index].1, now) {
                    let more = if is_idle(last.1, now) {
                        seq![last.1.closure()]
                    } else {
                        Seq::empty()
                    };
                    lemma_reported_extends(rest.closed, more, flows[index].1.flow);
                    assert(result.closed =~= rest.closed + more);
                } else {
                    assert(rest.flows.contains(shorter[index]));
                    let place = choose|place: int| 0 <= place < rest.flows.len()
                        && rest.flows[place] == shorter[index];
                    assert(result.flows[place] == flows[index]);
                }
            } else if is_idle(last.1, now) {
                assert(result.closed[result.closed.len() - 1].flow == last.1.flow);
            } else {
                assert(result.flows[result.flows.len() - 1] == last);
            }
        }
    }
}

pub proof fn lemma_swept_distinct(flows: Flows, now: i64)
    requires
        distinct_keys(flows),
    ensures
        distinct_keys(swept(flows, now).flows),
    decreases flows.len(),
{
    if flows.len() > 0 {
        let shorter = flows.drop_last();
        let rest = swept(shorter, now);
        let result = swept(flows, now);
        assert forall|first: int, second: int|
            #![trigger shorter[first], shorter[second]]
            0 <= first < second < shorter.len() implies shorter[first].0 != shorter[second].0 by {
            assert(flows[first].0 != flows[second].0);
        }
        lemma_swept_distinct(shorter, now);
        lemma_swept_members(shorter, now);
        assert forall|first: int, second: int|
            #![trigger result.flows[first], result.flows[second]]
            0 <= first < second < result.flows.len() implies result.flows[first].0
            != result.flows[second].0 by {
            assert(result.flows[first] == rest.flows[first]);
            if second < rest.flows.len() {
                assert(result.flows[second] == rest.flows[second]);
            } else {
                assert(shorter.contains(rest.flows[first]));
                let origin = choose|origin: int| 0 <= origin < shorter.len() && shorter[origin]
                    == rest.flows[first];
                assert(flows[origin].0 != flows[flows.len() - 1].0);
            }
        }
    }
}

/// A connection that was not silent for too long survives a sweep unchanged.
pub proof fn lemma_swept_keeps(flows: Flows, now: i64, key: ConnectionKey)
    requires
        distinct_keys(flows),
        holds(flows, key),
    ensures
        !is_idle(value_of(flows, key), now) ==> holds(swept(flows, now).flows, key) && value_of(
            swept(flows, now).flows,
            key,
        ) == value_of(flows, key),
        is_idle(value_of(flows, key), now) ==> reported(
            swept(flows, now).closed,
            value_of(flows, key).flow,
        ),
{
    lemma_index_of(flows, key);
    lemma_swept_members(flows, now);
    lemma_swept_distinct(flows, now);
    let index = index_of(flows, key) as int;
    assert(flows[index].0 == key);
    let kept = swept(flows, now).flows;
    if !is_idle(flows[index].1, now) {
        assert(kept.contains(flows[index]));
        let place = choose|place: int| 0 <= place < kept.len() && kept[place] == flows[index];
        lemma_held_at(kept, place);
    }
}

proof fn lemma_swept_accounted(flows: Flows, now: i64)
    requires
        distinct_keys(flows),
    ensures
        accounted(flows, swept(flows, now).flows, swept(flows, now).closed),
{
    assert forall|key: ConnectionKey| #[trigger] holds(flows, key) implies (holds(
        swept(flows, now).flows,
        key,
    ) && value_of(swept(flows, now).flows, key).flow == value_of(flows, key).flow) || reported(
        swept(flows, now).closed,
        value_of(flows, key).flow,
    ) by {
        lemma_swept_keeps(flows, now, key);
    }
}

proof fn lemma_removed_accounted(state: Swept, key: ConnectionKey)
    requires
        distinct_keys(state.flows),
    ensures
        distinct_keys(removed(state, key).flows),
        removed(state, key).flows.len() <= state.flows.len(),
        !holds(removed(state, key).flows, key),
        forall|before: Flows| #[trigger]
            accounted(before, state.flows, state.closed) ==> accounted(
                before,
                removed(state, key).flows,
                removed(state, key).closed,
            ),
{
    let result = removed(state, key);
    lemma_without_key(state.flows, key);
    if holds(state.flows, key) {
        let ended = value_of(state.flows, key).closure();
        assert(result.closed =~= state.closed + seq![ended]);
        assert(accounted(state.flows, result.flows, seq![ended])) by {
            assert forall|other: ConnectionKey| #[trigger] holds(state.flows, other) implies (holds(
                result.flows,
                other,
            ) && value_of(result.flows, other).flow == value_of(state.flows, other).flow)
                || reported(seq![ended], value_of(state.flows, other).flow) by {
                if other == key {
                    assert(seq![ended][0].flow == value_of(state.flows, other).flow);
                } else {
                    assert(value_of(without_key(state.flows, key), other) == value_of(
                        state.flows,
                        other,
                    ));
                }
            }
        }
        assert forall|before: Flows| #[trigger]
            accounted(before, state.flows, state.closed) implies accounted(
            before,
            result.flows,
            result.closed,
        ) by {
            lemma_accounted_chain(before, state.flows, result.flows, state.closed, seq![ended]);
        }
    }
}

pub proof fn lemma_room_accounted(state: Swept)
    requires
        distinct_keys(state.flows),
    ensures
        distinct_keys(with_room(state).flows),
        with_room(state).flows.len() < MAX_FLOW_TRACKER_CONNECTIONS,
        forall|key: ConnectionKey|
            !#[trigger] holds(state.flows, key) ==> !holds(with_room(state).flows, key),
        forall|before: Flows| #[trigger]
            accounted(before, state.flows, state.closed) ==> accounted(
                before,
                with_room(state).flows,
                with_room(state).closed,
            ),
{
    let result = with_room(state);
    let count = surplus(state.flows);
    let ended = closures_of(state.flows.take(count));
    assert forall|first: int, second: int|
        #![trigger result.flows[first], result.flows[second]]
        0 <= first < second < result.flows.len() implies result.flows[first].0
        != result.flows[second].0 by {
        assert(result.flows[first] == state.flows[first + count]);
        assert(result.flows[second] == state.flows[second + count]);
    }
    assert forall|key: ConnectionKey| !#[trigger] holds(state.flows, key) implies !holds(
        result.flows,
        key,
    ) by {
        lemma_index_of(result.flows, key);
        if holds(result.flows, key) {
            let place = index_of(result.flows, key) as int;
            assert(result.flows[place] == state.flows[place + count]);
            lemma_held_at(state.flows, place + count);
        }
    }
    assert(accounted(state.flows, result.flows, ended)) by {
        assert forall|key: ConnectionKey| #[trigger] holds(state.flows, key) implies (holds(
            result.flows,
            key,
        ) && value_of(result.flows, key).flow == value_of(state.flows, key).flow) || reported(
            ended,
            value_of(state.flows, key).flow,
        ) by {
            lemma_index_of(state.flows, key);
            let place = index_of(state.flows, key) as int;
            if place < count {
                assert(ended[place].flow == state.flows[place].1.flow);
            } else {
                assert(result.flows[place - count] == state.flows[place]);
                lemma_held_at(result.flows, place - count);
            }
        }
    }
    assert forall|before: Flows| #[trigger]
        accounted(before, state.flows, state.closed) implies accounted(
        before,
        result.flows,
        result.closed,
    ) by {
        lemma_accounted_chain(before, state.flows, result.flows, state.closed, ended);
    }
}

proof fn lemma_settled_accounted(
    state: Swept,
    key: ConnectionKey,
    segment: TcpSegmentView,
    timestamp: Timestamp,
)
    requires
        distinct_keys(state.flows),
        holds(state.flows, key),
    ensures
        ({
            let after = touched(value_of(state.flows, key), segment, timestamp);
            let end = if after.is_closed() {
                seq![after.closure()]
            } else {
                Seq::empty()
            };
            let result = settled(state.flows, key, after);
            &&& distinct_keys(result)
            &&& result.len() <= state.flows.len()
            &&& forall|before: Flows| #[trigger]
                accounted(before, state.flows, state.closed) ==> accounted(
                    before,
                    result,
                    state.closed + end,
                )
        }),
{
    let record = value_of(state.flows, key);
    let after = touched(record, segment, timestamp);
    let end = if after.is_closed() {
        seq![after.closure()]
    } else {
        Seq::empty()
    };
    let result = settled(state.flows, key, after);
    lemma_without_key(state.flows, key);
    lemma_with_value(state.flows, key, after);
    assert(accounted(state.flows, result, end)) by {
        assert forall|other: ConnectionKey| #[trigger] holds(state.flows, other) implies (holds(
            result,
            other,
        ) && value_of(result, other).flow == value_of(state.flows, other).flow) || reported(
            end,
            value_of(state.flows, other).flow,
        ) by {
            if other == key {
                if after.is_closed() {
                    assert(end[0].flow == record.flow);
                }
            } else if after.is_closed() {
                assert(value_of(without_key(state.flows, key), other) == value_of(
                    state.flows,
                    other,
                ));
            } else {
                assert(value_of(with_value(state.flows, key, after), other) == value_of(
                    state.flows,
                    other,
                ));
            }
        }
    }
    assert forall|before: Flows| #[trigger]
        accounted(before, state.flows, state.closed) implies accounted(
        before,
        result,
        state.closed + end,
    ) by {
        lemma_accounted_chain(before, state.flows, result, state.closed, end);
    }
}

/// The end of a connection that a segment brought, if it brought one.
pub open spec fn ended_by(end: Option<FlowEndView>) -> Seq<FlowClosureView> {
    match end {
        Some(FlowEndView::Close(closure)) => seq![closure],
        _ => Seq::empty(),
    }
}

proof fn lemma_prepared(flows: Flows, segment: TcpSegmentView, timestamp: Timestamp)
    requires
        bounded(flows),
    ensures
        ({
            let state = prepared(flows, segment, timestamp);
            &&& bounded(state.flows)
            &&& accounted(flows, state.flows, state.closed)
        }),
{
    let key = connection_of(segment);
    let now = timestamp.wall_time_unix_ns;
    let awake = swept(flows, now);
    lemma_swept_members(flows, now);
    lemma_swept_distinct(flows, now);
    lemma_swept_accounted(flows, now);
    lemma_removed_accounted(awake, key);
    let current = if segment.flags.syn && !syn_is_known(awake.flows, key, segment) {
        removed(awake, key)
    } else {
        awake
    };
    lemma_removed_accounted(current, key);
}

/// A segment with payload never makes more connections tracked than allowed, and no connection
/// is lost silently: each one goes on or is reported as ended, before the payload or after it.
pub proof fn law_payload_keeps_account(
    flows: Flows,
    segment: TcpSegmentView,
    timestamp: Timestamp,
    selected: SelectedFlowCandidateView,
)
    requires
        bounded(flows),
    ensures
        ({
            let seen = payload_seen(flows, segment, timestamp, selected);
            &&& bounded(seen.flows)
            &&& accounted(
                flows,
                seen.flows,
                seen.observation.before_payload_closures + ended_by(
                    seen.observation.after_payload,
                ),
            )
        }),
{
    let key = connection_of(segment);
    let state = prepared(flows, segment, timestamp);
    let seen = payload_seen(flows, segment, timestamp, selected);
    lemma_prepared(flows, segment, timestamp);
    if holds(state.flows, key) {
        lemma_settled_accounted(state, key, segment, timestamp);
    } else {
        lemma_room_accounted(state);
        let room = with_room(state);
        let record = opened_record(segment, timestamp, selected);
        let ended = ended_by(seen.observation.after_payload);
        lemma_accounted_extends(flows, room.flows, room.closed, ended);
        if !record.is_closed() {
            lemma_with_value(room.flows, key, record);
            assert(accounted(flows, seen.flows, room.closed + ended)) by {
                assert forall|other: ConnectionKey| #[trigger] holds(flows, other) implies (holds(
                    seen.flows,
                    other,
                ) && value_of(seen.flows, other).flow == value_of(flows, other).flow)
                    || reported(room.closed + ended, value_of(flows, other).flow) by {
                    if holds(room.flows, other) {
                        assert(other != key);
                        assert(value_of(with_value(room.flows, key, record), other) == value_of(
                            room.flows,
                            other,
                        ));
                    }
                }
            }
        }
    }
}

/// A segment without payload never makes more connections tracked than allowed, and no connection
/// is lost silently.
pub proof fn law_lifecycle_keeps_account(
    flows: Flows,
    segment: TcpSegmentView,
    timestamp: Timestamp,
    selected: SelectedFlowCandidateView,
)
    requires
        bounded(flows),
    ensures
        ({
            let seen = lifecycle_seen(flows, segment, timestamp, selected);
            &&& bounded(seen.flows)
            &&& accounted(
                flows,
                seen.flows,
                seen.observation.before_lifecycle_closures + ended_by(
                    seen.observation.after_lifecycle,
                ),
            )
        }),
{
    let key = connection_of(segment);
    let now = timestamp.wall_time_unix_ns;
    let awake = swept(flows, now);
    let seen = lifecycle_seen(flows, segment, timestamp, selected);
    let nothing = Seq::<FlowClosureView>::empty();
    lemma_swept_members(flows, now);
    lemma_swept_distinct(flows, now);
    lemma_swept_accounted(flows, now);
    if segment.flags.syn {
        let state = prepared_for_syn(flows, segment, timestamp);
        if syn_is_known(awake.flows, key, segment) {
            let after = touched(value_of(awake.flows, key), segment, timestamp);
            lemma_with_value(awake.flows, key, after);
            assert(accounted(awake.flows, state.flows, nothing)) by {
                assert forall|other: ConnectionKey| #[trigger] holds(awake.flows, other) implies (
                holds(state.flows, other) && value_of(state.flows, other).flow == value_of(
                    awake.flows,
                    other,
                ).flow) || reported(nothing, value_of(awake.flows, other).flow) by {
                    if other != key {
                        assert(value_of(with_value(awake.flows, key, after), other) == value_of(
                            awake.flows,
                            other,
                        ));
                    }
                }
            }
            lemma_accounted_chain(flows, awake.flows, state.flows, awake.closed, nothing);
            assert(awake.closed + nothing =~= awake.closed);
        } else {
            lemma_removed_accounted(awake, key);
        }
        assert(accounted(flows, state.flows, state.closed));
        if !holds(state.flows, key) && selected.confidence != 0 {
            lemma_room_accounted(state);
            let room = with_room(state);
            let record = opened_record(segment, timestamp, selected);
            lemma_with_value(room.flows, key, record);
            assert(accounted(flows, seen.flows, room.closed)) by {
                assert forall|other: ConnectionKey| #[trigger] holds(flows, other) implies (holds(
                    seen.flows,
                    other,
                ) && value_of(seen.flows, other).flow == value_of(flows, other).flow)
                    || reported(room.closed, value_of(flows, other).flow) by {
                    if holds(room.flows, other) {
                        assert(other != key);
                        assert(value_of(with_value(room.flows, key, record), other) == value_of(
                            room.flows,
                            other,
                        ));
                    }
                }
            }
        }
        assert(seen.observation.before_lifecycle_closures + nothing
            =~= seen.observation.before_lifecycle_closures);
    } else if holds(awake.flows, key) {
        lemma_settled_accounted(awake, key, segment, timestamp);
    } else {
        assert(awake.closed + nothing =~= awake.closed);
    }
}

/// However full the table is, a SYN whose process was not found, or a segment of a connection
/// that is tracked and goes on, displaces no other connection that is not idle.
pub proof fn law_no_needless_eviction(
    flows: Flows,
    segment: TcpSegmentView,
    timestamp: Timestamp,
    selected: SelectedFlowCandidateView,
    other: ConnectionKey,
)
    requires
        bounded(flows),
        holds(flows, other),
        other != connection_of(segment),
        !is_idle(value_of(flows, other), timestamp.wall_time_unix_ns),
    ensures
        segment.flags.syn && selected.confidence == 0 ==> ({
            let seen = syn_seen(flows, segment, timestamp, selected);
            holds(seen.flows, other) && value_of(seen.flows, other) == value_of(flows, other)
        }),
        holds(prepared(flows, segment, timestamp).flows, connection_of(segment)) ==> ({
            let seen = payload_seen(flows, segment, timestamp, selected);
            holds(seen.flows, other) && value_of(seen.flows, other) == value_of(flows, other)
        }),
{
    let key = connection_of(segment);
    let now = timestamp.wall_time_unix_ns;
    let awake = swept(flows, now);
    lemma_swept_distinct(flows, now);
    lemma_swept_keeps(flows, now, other);
    lemma_without_key(awake.flows, key);
    assert(value_of(without_key(awake.flows, key), other) == value_of(awake.flows, other));
    if syn_is_known(awake.flows, key, segment) {
        let after = touched(value_of(awake.flows, key), segment, timestamp);
        lemma_with_value(awake.flows, key, after);
        assert(value_of(with_value(awake.flows, key, after), other) == value_of(
            awake.flows,
            other,
        ));
    }
    let state = prepared(flows, segment, timestamp);
    if holds(state.flows, key) {
        assert(state.flows == awake.flows);
        let after = touched(value_of(state.flows, key), segment, timestamp);
        lemma_with_value(state.flows, key, after);
        assert(value_of(with_value(state.flows, key, after), other) == value_of(
            state.flows,
            other,
        ));
    }
}

} // verus!
