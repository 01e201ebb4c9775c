//! What tracking connections means.
use vstd::prelude::*;

use crate::keyed::{holds, value_of, with_value, without_key};
use crate::libpcap::decoder::TcpSegmentView;
use crate::libpcap::flow::candidate::{
    candidate_of, flow_of, likely_direction, selection, FlowCandidate, ResolverReplyView,
    SelectedFlowCandidateView,
};
use crate::libpcap::flow::ledger::{questions, ProcessExchange};
use crate::libpcap::flow::model::{
    FlowClosureView, FlowEndView, FlowFinalizationView, FlowLifecycleObservationView,
    FlowPayloadObservationView, FlowPayloadView,
};
use crate::libpcap::flow::record::{connection_of, ConnectionKey, FlowRecordView};
use crate::model::{Direction, Timestamp};

verus! {

/// How many connections are tracked at most.
pub const MAX_FLOW_TRACKER_CONNECTIONS: usize = 16_384;

/// How long a connection may be silent before it counts as over, in nanoseconds.
pub const FLOW_IDLE_TIMEOUT_UNIX_NS: i64 = 120_000_000_000;

/// The tracked connections, in the order in which they were opened.
pub type Flows = Seq<(ConnectionKey, FlowRecordView)>;

/// Connections that remain, and the ends of those that do not.
#[verifier::ext_equal]
pub struct Swept {
    pub flows: Flows,
    pub closed: Seq<FlowClosureView>,
}

/// Whether a connection was silent for too long.
pub open spec fn is_idle(record: FlowRecordView, now: i64) -> bool {
    now - record.last_seen_wall_time_unix_ns > FLOW_IDLE_TIMEOUT_UNIX_NS
}

/// The connections without those that were silent for too long.
pub open spec fn swept(flows: Flows, now: i64) -> Swept
    decreases flows.len(),
{
    if flows.len() == 0 {
        Swept { flows, closed: Seq::empty() }
    } else {
        let rest = swept(flows.drop_last(), now);
        let last = flows.last();
        if is_idle(last.1, now) {
            Swept { closed: rest.closed.push(last.1.closure()), ..rest }
        } else {
            Swept { flows: rest.flows.push(last), ..rest }
        }
    }
}

/// The connections without the one under `key`.
pub open spec fn removed(state: Swept, key: ConnectionKey) -> Swept {
    if holds(state.flows, key) {
        Swept {
            flows: without_key(state.flows, key),
            closed: state.closed.push(value_of(state.flows, key).closure()),
        }
    } else {
        state
    }
}

/// The ends of connections.
pub open spec fn closures_of(flows: Flows) -> Seq<FlowClosureView> {
    flows.map_values(|entry: (ConnectionKey, FlowRecordView)| entry.1.closure())
}

/// How many connections have to go before one more can be tracked.
pub open spec fn surplus(flows: Flows) -> int {
    if flows.len() >= MAX_FLOW_TRACKER_CONNECTIONS {
        flows.len() - MAX_FLOW_TRACKER_CONNECTIONS + 1
    } else {
        0
    }
}

/// The connections with room for one more: the oldest go.
pub open spec fn with_room(state: Swept) -> Swept {
    Swept {
        flows: state.flows.skip(surplus(state.flows)),
        closed: state.closed + closures_of(state.flows.take(surplus(state.flows))),
    }
}

/// Whether a SYN belongs to the tracked connection under `key`.
pub open spec fn syn_is_known(
    flows: Flows,
    key: ConnectionKey,
    segment: TcpSegmentView,
) -> bool {
    holds(flows, key) && value_of(flows, key).owns_syn(segment)
}

/// The two readings of a first segment, the likelier one first.
pub open spec fn primary_reading(segment: TcpSegmentView) -> FlowCandidate {
    candidate_of(segment, likely_direction(segment))
}

pub open spec fn secondary_reading(segment: TcpSegmentView) -> FlowCandidate {
    candidate_of(segment, likely_direction(segment).opposite_of())
}

/// The reading of a first segment that a resolver's replies lead to.
pub open spec fn selected_for(
    segment: TcpSegmentView,
    replies: Seq<ResolverReplyView>,
) -> SelectedFlowCandidateView {
    selection(primary_reading(segment), secondary_reading(segment), replies)
}

/// A connection as its first segment shows it.
pub open spec fn opened_record(
    segment: TcpSegmentView,
    timestamp: Timestamp,
    selected: SelectedFlowCandidateView,
) -> FlowRecordView {
    FlowRecordView::opened(
        selected.local_endpoint,
        selected.confidence,
        flow_of(
            segment,
            selected.direction,
            selected.process,
            selected.confidence,
            timestamp.monotonic_ns,
        ),
        timestamp.wall_time_unix_ns,
    ).with_lifecycle(segment)
}

/// A connection as a further segment shows it.
pub open spec fn touched(
    record: FlowRecordView,
    segment: TcpSegmentView,
    timestamp: Timestamp,
) -> FlowRecordView {
    FlowRecordView {
        last_seen_wall_time_unix_ns: timestamp.wall_time_unix_ns,
        ..record
    }.with_lifecycle(segment)
}

/// How far a connection is over, seen from a segment in `direction`.
pub open spec fn end_of(record: FlowRecordView, direction: Direction) -> Option<FlowEndView> {
    if record.is_closed() {
        Some(FlowEndView::Close(record.closure()))
    } else {
        match record.close_of(direction) {
            Some(close_sequence) => Some(
                FlowEndView::Finalize(FlowFinalizationView { flow: record.flow, close_sequence }),
            ),
            None => None,
        }
    }
}

/// The connections with `record` under `key`, unless it is over.
pub open spec fn settled(flows: Flows, key: ConnectionKey, record: FlowRecordView) -> Flows {
    if record.is_closed() {
        without_key(flows, key)
    } else {
        with_value(flows, key, record)
    }
}

/// The connections once those are gone that a segment with payload shows to be over: the idle
/// ones, the one that a foreign SYN replaces, and the one behind whose close the payload lies.
pub open spec fn prepared(flows: Flows, segment: TcpSegmentView, timestamp: Timestamp) -> Swept {
    let key = connection_of(segment);
    let awake = swept(flows, timestamp.wall_time_unix_ns);
    let current = if segment.flags.syn && !syn_is_known(awake.flows, key, segment) {
        removed(awake, key)
    } else {
        awake
    };
    if holds(current.flows, key) && value_of(current.flows, key).is_past_close(segment) {
        removed(current, key)
    } else {
        current
    }
}

/// The connections and what is reported of a segment.
#[verifier::ext_equal]
pub struct PayloadSeen {
    pub flows: Flows,
    pub observation: FlowPayloadObservationView,
}

/// What a segment of a tracked connection means.
pub open spec fn seen_known(
    state: Swept,
    segment: TcpSegmentView,
    timestamp: Timestamp,
) -> PayloadSeen {
    let key = connection_of(segment);
    let record = value_of(state.flows, key);
    let direction = record.direction_of(segment);
    let after = touched(record, segment, timestamp);
    PayloadSeen {
        flows: settled(state.flows, key, after),
        observation: FlowPayloadObservationView {
            before_payload_closures: state.closed,
            payload: FlowPayloadView {
                direction,
                flow: record.flow,
                attribution_confidence: record.confidence,
                attribution_failure: None,
            },
            after_payload: end_of(after, direction),
        },
    }
}

/// What the first segment of a connection means, read as `selected`.
pub open spec fn seen_new(
    state: Swept,
    segment: TcpSegmentView,
    timestamp: Timestamp,
    selected: SelectedFlowCandidateView,
) -> PayloadSeen {
    let key = connection_of(segment);
    let room = with_room(state);
    let record = opened_record(segment, timestamp, selected);
    PayloadSeen {
        flows: if record.is_closed() {
            room.flows
        } else {
            room.flows.push((key, record))
        },
        observation: FlowPayloadObservationView {
            before_payload_closures: room.closed,
            payload: FlowPayloadView {
                direction: selected.direction,
                flow: record.flow,
                attribution_confidence: selected.confidence,
                attribution_failure: selected.attribution_failure,
            },
            after_payload: end_of(record, selected.direction),
        },
    }
}

/// What a segment with payload means; `selected` is the reading of it where its connection is not
/// tracked yet.
pub open spec fn payload_seen(
    flows: Flows,
    segment: TcpSegmentView,
    timestamp: Timestamp,
    selected: SelectedFlowCandidateView,
) -> PayloadSeen {
    let state = prepared(flows, segment, timestamp);
    if holds(state.flows, connection_of(segment)) {
        seen_known(state, segment, timestamp)
    } else {
        seen_new(state, segment, timestamp, selected)
    }
}

/// What is exchanged with a resolver: it is told to forget what it remembers, and asked about the
/// readings of a segment.
pub open spec fn exchanged(
    has_resolver: bool,
    invalidated: bool,
    asked: bool,
    segment: TcpSegmentView,
    replies: Seq<ResolverReplyView>,
) -> Seq<ProcessExchange> {
    let first = if has_resolver && invalidated {
        seq![ProcessExchange::Invalidate]
    } else {
        Seq::empty()
    };
    if asked {
        first + questions(primary_reading(segment), secondary_reading(segment), replies)
    } else {
        first
    }
}

/// What is exchanged with a resolver about a segment with payload: it is asked where the
/// connection is not tracked yet, and forgets what it remembers first where a connection begins
/// or ends.
pub open spec fn payload_exchanged(
    has_resolver: bool,
    flows: Flows,
    segment: TcpSegmentView,
    timestamp: Timestamp,
    replies: Seq<ResolverReplyView>,
) -> Seq<ProcessExchange> {
    let state = prepared(flows, segment, timestamp);
    let known = holds(state.flows, connection_of(segment));
    exchanged(
        has_resolver,
        segment.signals_lifecycle() || state.closed.len() > 0 || (!known && state.flows.len()
            >= MAX_FLOW_TRACKER_CONNECTIONS),
        !known,
        segment,
        replies,
    )
}

/// What is exchanged with a resolver about a segment without payload: it is asked about a SYN
/// whose connection is not tracked yet.
pub open spec fn lifecycle_exchanged(
    has_resolver: bool,
    flows: Flows,
    segment: TcpSegmentView,
    timestamp: Timestamp,
    replies: Seq<ResolverReplyView>,
) -> Seq<ProcessExchange> {
    exchanged(
        has_resolver,
        segment.signals_lifecycle() || swept(flows, timestamp.wall_time_unix_ns).closed.len() > 0,
        segment.flags.syn && !holds(
            prepared_for_syn(flows, segment, timestamp).flows,
            connection_of(segment),
        ),
        segment,
        replies,
    )
}

/// The connections and what is reported of a segment without payload.
#[verifier::ext_equal]
pub struct LifecycleSeen {
    pub flows: Flows,
    pub observation: FlowLifecycleObservationView,
}

/// The connections once a SYN without payload was looked at, before one is opened for it: the one
/// that it belongs to has seen it, and a foreign one is gone.
pub open spec fn prepared_for_syn(
    flows: Flows,
    segment: TcpSegmentView,
    timestamp: Timestamp,
) -> Swept {
    let key = connection_of(segment);
    let awake = swept(flows, timestamp.wall_time_unix_ns);
    if syn_is_known(awake.flows, key, segment) {
        Swept {
            flows: with_value(
                awake.flows,
                key,
                touched(value_of(awake.flows, key), segment, timestamp),
            ),
            ..awake
        }
    } else {
        removed(awake, key)
    }
}

/// What a SYN without payload means: a connection is opened for it only where its process was
/// found, so that it cannot displace others.
pub open spec fn syn_seen(
    flows: Flows,
    segment: TcpSegmentView,
    timestamp: Timestamp,
    selected: SelectedFlowCandidateView,
) -> LifecycleSeen {
    let key = connection_of(segment);
    let state = prepared_for_syn(flows, segment, timestamp);
    let result = if !holds(state.flows, key) && selected.confidence != 0 {
        let room = with_room(state);
        Swept {
            flows: room.flows.push((key, opened_record(segment, timestamp, selected))),
            ..room
        }
    } else {
        state
    };
    LifecycleSeen {
        flows: result.flows,
        observation: FlowLifecycleObservationView {
            before_lifecycle_closures: result.closed,
            after_lifecycle: None,
        },
    }
}

/// What a segment without payload and without SYN means.
pub open spec fn close_seen(
    flows: Flows,
    segment: TcpSegmentView,
    timestamp: Timestamp,
) -> LifecycleSeen {
    let key = connection_of(segment);
    let awake = swept(flows, timestamp.wall_time_unix_ns);
    let known = holds(awake.flows, key);
    let record = value_of(awake.flows, key);
    let after = touched(record, segment, timestamp);
    LifecycleSeen {
        flows: if known {
            settled(awake.flows, key, after)
        } else {
            awake.flows
        },
        observation: FlowLifecycleObservationView {
            before_lifecycle_closures: awake.closed,
            after_lifecycle: if known {
                end_of(after, record.direction_of(segment))
            } else {
                None
            },
        },
    }
}

/// What a segment without payload means; `selected` is the reading of a SYN whose connection is
/// not tracked yet.
pub open spec fn lifecycle_seen(
    flows: Flows,
    segment: TcpSegmentView,
    timestamp: Timestamp,
    selected: SelectedFlowCandidateView,
) -> LifecycleSeen {
    if segment.flags.syn {
        syn_seen(flows, segment, timestamp, selected)
    } else {
        close_seen(flows, segment, timestamp)
    }
}

} // verus!
