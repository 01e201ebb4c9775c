//! What was exchanged with a resolver decides what a packet leads to.
use vstd::prelude::*;

use crate::libpcap::decoder::TcpSegmentView;
use crate::libpcap::flow::candidate::{complete_replies, ResolverReplyView};
use crate::libpcap::flow::ledger::questions;
use crate::libpcap::flow::tracking::{exchanged, primary_reading, secondary_reading};
use crate::libpcap::provider::LibpcapStateView;

verus! {

/// The questions about a segment tell the replies to them.
proof fn lemma_replies_are_told(
    has_resolver: bool,
    invalidated: bool,
    segment: TcpSegmentView,
    first: Seq<ResolverReplyView>,
    second: Seq<ResolverReplyView>,
)
    requires
        exchanged(has_resolver, invalidated, true, segment, first) == exchanged(
            has_resolver,
            invalidated,
            true,
            segment,
            second,
        ),
    ensures
        first == second,
{
    let told = exchanged(has_resolver, invalidated, false, segment, first);
    let asked = questions(primary_reading(segment), secondary_reading(segment), first);
    let also = questions(primary_reading(segment), secondary_reading(segment), second);
    assert((told + asked).len() == (told + also).len());
    assert forall|step: int| 0 <= step < first.len() implies first[step] == second[step] by {
        assert((told + asked)[told.len() + step] == asked[step]);
        assert((told + also)[told.len() + step] == also[step]);
        assert(asked[step] == also[step]);
        assert(asked[step]->Asked_1 == first[step]);
        assert(also[step]->Asked_1 == second[step]);
    }
    assert(first =~= second);
}

/// What a packet leads to is decided by the state, the clock, the segment in it and what was
/// exchanged with the resolver: where the exchanges are the same, so are the next state and what
/// is brought.
pub proof fn law_exchanges_decide_packet(
    state: LibpcapStateView,
    has_resolver: bool,
    segment: Option<TcpSegmentView>,
    seconds: i64,
    microseconds: i64,
    now_ns: u64,
    first: Seq<ResolverReplyView>,
    second: Seq<ResolverReplyView>,
)
    requires
        complete_replies(has_resolver, first),
        complete_replies(has_resolver, second),
        state.packet_exchanged(has_resolver, segment, seconds, microseconds, first)
            == state.packet_exchanged(has_resolver, segment, seconds, microseconds, second),
    ensures
        state.packet_taken(segment, seconds, microseconds, now_ns, first) == state.packet_taken(
            segment,
            seconds,
            microseconds,
            now_ns,
            second,
        ),
{
    if let Some(found) = segment {
        let told = state.packet_exchanged(has_resolver, segment, seconds, microseconds, first);
        if told == exchanged(has_resolver, true, true, found, first) && told == exchanged(
            has_resolver,
            true,
            true,
            found,
            second,
        ) {
            lemma_replies_are_told(has_resolver, true, found, first, second);
        } else if told == exchanged(has_resolver, false, true, found, first) && told == exchanged(
            has_resolver,
            false,
            true,
            found,
            second,
        ) {
            lemma_replies_are_told(has_resolver, false, found, first, second);
        }
    }
}

} // verus!
