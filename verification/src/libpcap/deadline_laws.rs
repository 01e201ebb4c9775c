//! When packets are stamped, and when payload that waits is delivered.
use vstd::prelude::*;

use crate::keyed::value_of;
use crate::libpcap::decoder::TcpSegmentView;
use crate::libpcap::flow::candidate::ResolverReplyView;
use crate::libpcap::packet_laws::told;
use crate::libpcap::provider::{
    held_i64, next_sequence_number, packet_wall_time, LibpcapStateView,
};
use crate::libpcap::stream::budget::StreamKeyView;
use crate::libpcap::stream::loss_laws::waits_ahead;
use crate::libpcap::stream::tracking::REORDER_TIMEOUT_GAP_REASON;
use crate::libpcap::stream::tracking_laws::consistent;
use crate::libpcap::stream::tracking_loss_laws::{
    all_well_keyed, law_flush_all_tells_all_that_waits, octet_waits, tells_octet,
};
use crate::model::Timestamp;

verus! {

/// The time of a packet is its seconds and microseconds in nanoseconds, or the largest time that 64
/// bits hold where that is too large, so that a later packet has no earlier time. Packets are
/// numbered on from one another.
pub proof fn law_packets_are_stamped_in_order(
    seconds: i64,
    microseconds: i64,
    later_seconds: i64,
    later_microseconds: i64,
    sequence: u64,
)
    requires
        0 <= microseconds < 1_000_000,
        0 <= later_microseconds < 1_000_000,
        i64::MIN <= seconds * 1_000_000_000,
        seconds < later_seconds || (seconds == later_seconds && microseconds
            <= later_microseconds),
    ensures
        packet_wall_time(seconds, microseconds) <= packet_wall_time(
            later_seconds,
            later_microseconds,
        ),
        seconds * 1_000_000_000 + microseconds * 1_000 <= i64::MAX ==> packet_wall_time(
            seconds,
            microseconds,
        ) == seconds * 1_000_000_000 + microseconds * 1_000,
        seconds * 1_000_000_000 > i64::MAX ==> packet_wall_time(seconds, microseconds) == i64::MAX,
        sequence < u64::MAX ==> next_sequence_number(sequence) == sequence + 1,
        next_sequence_number(u64::MAX) == u64::MAX,
{
    assert(held_i64(microseconds * 1_000) == microseconds * 1_000);
    assert(held_i64(later_microseconds * 1_000) == later_microseconds * 1_000);
    if seconds < later_seconds {
        assert(seconds * 1_000_000_000 + 1_000_000_000 <= later_seconds * 1_000_000_000);
    }
}

/// After every packet there is a deadline exactly if payload waits. A deadline that was set stays as
/// long as payload waits: further packets do not put it off.
pub proof fn law_deadline_is_not_put_off(
    state: LibpcapStateView,
    segment: Option<TcpSegmentView>,
    seconds: i64,
    microseconds: i64,
    now_ns: u64,
    replies: Seq<ResolverReplyView>,
)
    ensures
        ({
            let next = state.packet_taken(segment, seconds, microseconds, now_ns, replies).state;
            let waits = next.streams.pending.totals.some_pending();
            let interval = state.pending_flush.interval_ns;
            &&& next.pending_flush.interval_ns == interval
            &&& !waits ==> next.pending_flush.deadline_ns is None
            &&& waits ==> (next.pending_flush.deadline_ns matches Some(deadline) && deadline
                == match state.pending_flush.deadline_ns {
                Some(earlier) => earlier as int,
                None => now_ns + interval,
            })
        }),
{
    assert(now_ns + state.pending_flush.interval_ns <= u128::MAX);
}

/// Waiting payload is delivered at a look exactly if payload waits and its deadline has come; a
/// deadline that was not set yet counts from that look.
pub proof fn law_payload_is_delivered_at_its_deadline(state: LibpcapStateView, now_ns: u64)
    ensures
        state.flush_is_due(now_ns) <==> state.streams.pending.totals.some_pending() && (
        match state.pending_flush.deadline_ns {
            Some(deadline) => now_ns >= deadline,
            None => state.pending_flush.interval_ns == 0,
        }),
{
}

/// When payload has waited for too long, every octet that waits in any stream is told, behind the
/// events that were queued before, which are all still told, in their order.
pub proof fn law_timeout_tells_all_that_waits(
    state: LibpcapStateView,
    now_ns: u64,
    wall_time_unix_ns: i64,
    key: StreamKeyView,
    offset: int,
)
    requires
        state.packet_sequence < u64::MAX,
        consistent(state.streams),
        !state.streams.pending.over_limit(),
        all_well_keyed(state.streams),
        octet_waits(state.streams, key, offset),
        waits_ahead(value_of(state.streams.streams, key).stream),
        value_of(
            state.timed_out(now_ns, wall_time_unix_ns).state.streams.streams,
            key,
        ).stream.next_offset < u64::MAX,
    ensures
        ({
            let next = state.timed_out(now_ns, wall_time_unix_ns);
            let before = state.pending_events.len() as int;
            &&& told(next).len() >= before
            &&& told(next).subrange(0, before) == state.pending_events
            &&& tells_octet(told(next).skip(before), key, offset)
            &&& next.state.packet_sequence == state.packet_sequence + 1
            &&& next.state.flows == state.flows
        }),
{
    let timestamp = Timestamp {
        monotonic_ns: (state.packet_sequence + 1) as u64,
        wall_time_unix_ns,
    };
    let flushed = state.streams.flushed_all(timestamp, REORDER_TIMEOUT_GAP_REASON@);
    let next = state.timed_out(now_ns, wall_time_unix_ns);
    let queued = state.pending_events + flushed.events;
    law_flush_all_tells_all_that_waits(
        state.streams,
        timestamp,
        REORDER_TIMEOUT_GAP_REASON@,
        key,
        offset,
    );
    if queued.len() > 0 {
        assert(seq![queued[0]] + queued.drop_first() =~= queued);
    }
    assert(told(next) =~= queued);
    assert(queued.subrange(0, state.pending_events.len() as int) =~= state.pending_events);
    assert(queued.skip(state.pending_events.len() as int) =~= flushed.events);
}

} // verus!
