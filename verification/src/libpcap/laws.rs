//! What holds between packets.
use vstd::prelude::*;

use crate::libpcap::decoder::TcpSegmentView;
use crate::libpcap::flow::candidate::ResolverReplyView;
use crate::libpcap::flow::laws::{
    bounded, law_lifecycle_keeps_account, law_payload_keeps_account,
};
use crate::libpcap::flow::model::{FlowClosureView, FlowEndView};
use crate::libpcap::flow::tracking::{lifecycle_seen, payload_seen, selected_for};
use crate::libpcap::provider::{
    closed_event, closure_delivered, closures_delivered, end_delivered, next_sequence_number,
    packet_wall_time, LibpcapStateView,
};
use crate::libpcap::stream::tracking::{
    degradation_text, StreamTrackerView, REORDER_TIMEOUT_GAP_REASON,
};
use crate::libpcap::stream::tracking_laws::{
    consistent, law_close_forgets_flow, law_finalize_respects_budget,
    law_flush_all_leaves_nothing_waiting, law_ingest_respects_budget,
};
use crate::model::Timestamp;

verus! {

/// Whether the streams are consistent and no more waits in them than allowed.
pub open spec fn streams_sound(streams: StreamTrackerView) -> bool {
    consistent(streams) && !streams.pending.over_limit()
}

/// Whether the connections and the streams are as they must be between packets.
pub open spec fn sound(state: LibpcapStateView) -> bool {
    bounded(state.flows) && streams_sound(state.streams)
}

proof fn lemma_closures_sound(
    streams: StreamTrackerView,
    timestamp: Timestamp,
    closures: Seq<FlowClosureView>,
)
    requires
        streams_sound(streams),
    ensures
        streams_sound(closures_delivered(streams, timestamp, closures).state),
    decreases closures.len(),
{
    if closures.len() > 0 {
        let first = closure_delivered(streams, timestamp, closures[0]);
        law_close_forgets_flow(streams, timestamp, closures[0]);
        lemma_closures_sound(first.state, timestamp, closures.drop_first());
    }
}

proof fn lemma_end_sound(
    streams: StreamTrackerView,
    timestamp: Timestamp,
    end: Option<FlowEndView>,
)
    requires
        streams_sound(streams),
    ensures
        streams_sound(end_delivered(streams, timestamp, end).state),
{
    match end {
        None => {},
        Some(FlowEndView::Close(closure)) => {
            law_close_forgets_flow(streams, timestamp, closure);
        },
        Some(FlowEndView::Finalize(finalization)) => {
            law_finalize_respects_budget(
                streams,
                timestamp,
                finalization.flow,
                finalization.close_sequence,
            );
        },
    }
}

/// Whatever packet comes and whatever a resolver says, the connections stay within their limit
/// and the streams consistent and within theirs.
pub proof fn law_packets_keep_state_sound(
    state: LibpcapStateView,
    segment: Option<TcpSegmentView>,
    seconds: i64,
    microseconds: i64,
    now_ns: u64,
    replies: Seq<ResolverReplyView>,
)
    requires
        sound(state),
    ensures
        sound(state.packet_taken(segment, seconds, microseconds, now_ns, replies).state),
{
    if let Some(found) = segment {
        let timestamp = Timestamp {
            monotonic_ns: next_sequence_number(state.packet_sequence),
            wall_time_unix_ns: packet_wall_time(seconds, microseconds),
        };
        let selected = selected_for(found, replies);
        if found.payload.len() > 0 {
            law_payload_keeps_account(state.flows, found, timestamp, selected);
            let seen = payload_seen(state.flows, found, timestamp, selected);
            let before = seen.observation.before_payload_closures;
            lemma_closures_sound(state.streams, timestamp, before);
            let ended = closures_delivered(state.streams, timestamp, before);
            let payload = seen.observation.payload;
            let reason = degradation_text(payload.attribution_failure);
            law_ingest_respects_budget(
                ended.state,
                timestamp,
                found.first_sequence(),
                found.payload,
                payload,
                reason,
            );
            let taken = ended.state.ingested(
                timestamp,
                found.first_sequence(),
                found.payload,
                payload,
                reason,
            );
            lemma_end_sound(taken.state, timestamp, seen.observation.after_payload);
        } else if found.signals_lifecycle() {
            law_lifecycle_keeps_account(state.flows, found, timestamp, selected);
            let seen = lifecycle_seen(state.flows, found, timestamp, selected);
            let before = seen.observation.before_lifecycle_closures;
            lemma_closures_sound(state.streams, timestamp, before);
            let ended = closures_delivered(state.streams, timestamp, before);
            lemma_end_sound(ended.state, timestamp, seen.observation.after_lifecycle);
        }
    }
}

/// Once payload that waited for too long was delivered, nothing waits any more, no deadline is
/// set, and the state is as it must be.
pub proof fn law_timeout_delivers_everything(
    state: LibpcapStateView,
    now_ns: u64,
    wall_time_unix_ns: i64,
)
    requires
        sound(state),
    ensures
        sound(state.timed_out(now_ns, wall_time_unix_ns).state),
        !state.timed_out(
            now_ns,
            wall_time_unix_ns,
        ).state.streams.pending.totals.some_pending(),
        state.timed_out(now_ns, wall_time_unix_ns).state.pending_flush.deadline_ns is None,
{
    let timestamp = Timestamp {
        monotonic_ns: next_sequence_number(state.packet_sequence),
        wall_time_unix_ns,
    };
    law_flush_all_leaves_nothing_waiting(state.streams, timestamp, REORDER_TIMEOUT_GAP_REASON@);
}

/// A flow is reported closed only after everything that waited in it was delivered: the report is
/// the last event of its end.
pub proof fn law_close_is_reported_last(
    streams: StreamTrackerView,
    timestamp: Timestamp,
    closure: FlowClosureView,
)
    ensures
        closure_delivered(streams, timestamp, closure).events.len() > 0,
        closure_delivered(streams, timestamp, closure).events.last() == closed_event(
            timestamp,
            closure.flow,
        ),
        closure_delivered(streams, timestamp, closure).events.drop_last() == streams.flow_closed(
            timestamp,
            closure,
        ).events,
{
    assert(closure_delivered(streams, timestamp, closure).events.drop_last()
        =~= streams.flow_closed(timestamp, closure).events);
}

} // verus!
