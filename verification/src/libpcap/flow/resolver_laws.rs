//! When a resolver of processes is asked, and when it is told to forget.
use vstd::prelude::*;

use crate::keyed::{holds, value_of};
use crate::libpcap::decoder::TcpSegmentView;
use crate::libpcap::flow::candidate::{complete_replies, ResolverReplyView};
use crate::libpcap::flow::course_laws::{is_awake, lemma_awake};
use crate::libpcap::flow::laws::bounded;
use crate::libpcap::flow::ledger::ProcessExchange;
use crate::libpcap::flow::record::connection_of;
use crate::libpcap::flow::tracking::{
    closures_of, lifecycle_exchanged, payload_exchanged, payload_seen, prepared, selected_for,
    surplus, swept, Flows,
};
use crate::model::Timestamp;

verus! {

/// Whether a segment opens or closes something.
pub open spec fn changes_a_connection(segment: TcpSegmentView) -> bool {
    segment.flags.syn || segment.flags.fin || segment.flags.rst
}

/// Whether what was exchanged begins with the order to forget.
pub open spec fn begins_with_forgetting(exchanges: Seq<ProcessExchange>) -> bool {
    exchanges.len() > 0 && exchanges[0] is Invalidate
}

/// A resolver is told to forget what it remembers exactly where a connection begins or ends: at a
/// segment that opens or closes something, and where payload shows that connections are over. It is
/// told so before it is asked anything, and once. Without a resolver nothing is exchanged.
pub proof fn law_resolver_forgets_when_connections_change(
    has_resolver: bool,
    flows: Flows,
    segment: TcpSegmentView,
    timestamp: Timestamp,
    replies: Seq<ResolverReplyView>,
)
    requires
        complete_replies(has_resolver, replies),
    ensures
        ({
            let payload = payload_exchanged(has_resolver, flows, segment, timestamp, replies);
            let lifecycle = lifecycle_exchanged(has_resolver, flows, segment, timestamp, replies);
            let over = payload_seen(
                flows,
                segment,
                timestamp,
                selected_for(segment, replies),
            ).observation.before_payload_closures;
            &&& begins_with_forgetting(payload) <==> has_resolver && (changes_a_connection(segment)
                || over.len() > 0)
            &&& changes_a_connection(segment) ==> (begins_with_forgetting(lifecycle)
                <==> has_resolver)
            &&& !has_resolver ==> payload.len() == 0 && lifecycle.len() == 0
            &&& forall|index: int|
                0 < index < payload.len() ==> (#[trigger] payload[index]) is Asked
            &&& forall|index: int|
                0 < index < lifecycle.len() ==> (#[trigger] lifecycle[index]) is Asked
        }),
{
    let state = prepared(flows, segment, timestamp);
    let gone = state.flows.take(surplus(state.flows));
    assert(closures_of(gone).len() == gone.len());
}

/// A resolver is asked about a connection only where none is tracked that goes on: payload of a
/// tracked connection asks nothing, and where none is tracked every reply is one to a question.
pub proof fn law_tracked_connection_is_not_asked_about(
    has_resolver: bool,
    flows: Flows,
    segment: TcpSegmentView,
    timestamp: Timestamp,
    replies: Seq<ResolverReplyView>,
)
    requires
        bounded(flows),
        !segment.flags.syn,
        !segment.flags.fin,
        !segment.flags.rst,
    ensures
        ({
            let key = connection_of(segment);
            let record = value_of(flows, key);
            let exchanges = payload_exchanged(has_resolver, flows, segment, timestamp, replies);
            &&& holds(flows, key) && is_awake(record, timestamp) && record.close_of(
                record.direction_of(segment),
            ) is None ==> exchanges.len() <= 1 && (forall|index: int|
                0 <= index < exchanges.len() ==> !((#[trigger] exchanges[index]) is Asked))
            &&& !holds(flows, key) || !is_awake(record, timestamp) ==> exchanges.len()
                >= replies.len() && forall|index: int|
                0 <= index < replies.len() ==> (
                #[trigger] exchanges[index + exchanges.len() - replies.len()]) is Asked
                    && exchanges[index + exchanges.len() - replies.len()]->Asked_1
                    == replies[index]
        }),
{
    lemma_awake(flows, timestamp);
    let awake = swept(flows, timestamp.wall_time_unix_ns);
    let key = connection_of(segment);
    if holds(flows, key) && is_awake(value_of(flows, key), timestamp) {
        assert(holds(awake.flows, key));
    } else {
        assert(!holds(awake.flows, key));
    }
}

/// Of the segments without payload, only a SYN asks: a first one is asked about with every reply one
/// to a question, and one that closes something asks nothing.
pub proof fn law_only_a_first_syn_is_asked_about(
    has_resolver: bool,
    flows: Flows,
    segment: TcpSegmentView,
    timestamp: Timestamp,
    replies: Seq<ResolverReplyView>,
)
    requires
        bounded(flows),
    ensures
        ({
            let exchanges = lifecycle_exchanged(has_resolver, flows, segment, timestamp, replies);
            &&& !segment.flags.syn ==> forall|index: int|
                0 <= index < exchanges.len() ==> !((#[trigger] exchanges[index]) is Asked)
            &&& segment.flags.syn && !holds(flows, connection_of(segment)) ==> exchanges.len()
                >= replies.len() && forall|index: int|
                0 <= index < replies.len() ==> (
                #[trigger] exchanges[index + exchanges.len() - replies.len()]) is Asked
                    && exchanges[index + exchanges.len() - replies.len()]->Asked_1
                    == replies[index]
        }),
{
    lemma_awake(flows, timestamp);
    let awake = swept(flows, timestamp.wall_time_unix_ns);
    let key = connection_of(segment);
    if !holds(flows, key) {
        assert(!holds(awake.flows, key));
    }
}

} // verus!
