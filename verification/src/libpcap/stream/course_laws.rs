//! What holds of a stream over any course of calls.
use vstd::prelude::*;

use crate::libpcap::stream::assembler::fresh_stream;
use crate::libpcap::stream::assembly::{
    allowed_length, closed, drained, emitted, exceeds_stream_limit, first_duplicate, first_reaching,
    flushed, forced, forced_until, gapped, ingested, lemma_drained_shrinks, lemma_skipped_shrinks,
    lemma_soonest_lies_ahead, relieved, skipped_to, soonest, swap_removed, trimmed, unchanged,
    with_pending, Assembled, AssemblerView, SegmentView, BUFFER_LIMIT_GAP_REASON,
};
use crate::libpcap::stream::laws::{
    delivers, law_close_delivers, law_first_close_stands, law_flush_delivers, law_forced_delivers,
    law_ingest_delivers, lemma_delivers_compose, lemma_delivers_nothing,
    lemma_drained_leaves_ahead, lemma_faithful_prefix, pending_faithful, pieces_faithful,
    segment_faithful, tiled,
};
use crate::libpcap::tcp_seq::{seq_advance, seq_after, seq_before};

verus! {

/// A call on a stream.
pub enum StreamCall {
    Ingest { sequence: u32, payload: Seq<u8> },
    Flush { reason: Seq<char> },
    Close { sequence: u32, reason: Seq<char> },
    SkipAhead { reason: Seq<char> },
}

impl StreamCall {
    pub open spec fn on(self, state: AssemblerView) -> Assembled {
        match self {
            StreamCall::Ingest { sequence, payload } => ingested(state, sequence, payload),
            StreamCall::Flush { reason } => flushed(state, reason),
            StreamCall::Close { sequence, reason } => closed(state, sequence, reason),
            StreamCall::SkipAhead { reason } => forced(state, reason),
        }
    }

    /// Whether the call brings in only octets of which `sent` tells.
    pub open spec fn is_faithful(self, sent: spec_fn(u32, u8) -> bool) -> bool {
        self matches StreamCall::Ingest { sequence, payload } ==> segment_faithful(
            sequence,
            payload,
            sent,
        )
    }
}

/// What a course of calls leads to, with all that was delivered on the way.
pub open spec fn course(state: AssemblerView, calls: Seq<StreamCall>) -> Assembled
    decreases calls.len(),
{
    if calls.len() == 0 {
        unchanged(state)
    } else {
        let earlier = course(state, calls.drop_last());
        calls.last().on(earlier.state).preceded_by(earlier.pieces)
    }
}

/// Whether an octet lies before a close, by its sequence number.
pub open spec fn lies_before(close: u32) -> spec_fn(u32, u8) -> bool {
    |sequence: u32, octet: u8| seq_before(sequence, close)
}

proof fn lemma_before_close(close: u32, sequence: u32, bytes: Seq<u8>)
    requires
        bytes.len() == allowed_length(Some(close), sequence, bytes.len()),
    ensures
        segment_faithful(sequence, bytes, lies_before(close)),
{
    assert forall|index: int| 0 <= index < bytes.len() implies (lies_before(close))(
        seq_advance(sequence, index as nat),
        #[trigger] bytes[index],
    ) by {
        assert(seq_before(seq_advance(sequence, index as nat), close));
    }
}

proof fn lemma_flush_keeps_close(state: AssemblerView, reason: Seq<char>)
    ensures
        flushed(state, reason).state.closed_at == state.closed_at,
        state.next_sequence is None && state.pending.len() == 0 ==> flushed(state, reason)
            == unchanged(state),
    decreases state.pending.len(),
{
    lemma_force_keeps_close(state, reason);
    let step = forced(state, reason);
    if step.state.pending.len() != 0 && step.state.pending.len() < state.pending.len() {
        lemma_flush_keeps_close(step.state, reason);
    }
}

proof fn lemma_force_keeps_close(state: AssemblerView, reason: Seq<char>)
    ensures
        forced(state, reason).state.closed_at == state.closed_at,
        state.next_sequence is None ==> forced(state, reason) == unchanged(state),
{
    lemma_drained_shrinks(state);
    let ready = drained(state);
    if let Some(expected) = ready.state.next_sequence {
        lemma_skipped_shrinks(ready.state, expected, None, reason);
    }
}

proof fn lemma_relief_keeps_close(state: AssemblerView)
    ensures
        relieved(state).state.closed_at == state.closed_at,
    decreases state.pending.len(),
{
    if exceeds_stream_limit(state.pending) {
        let step = forced(state, BUFFER_LIMIT_GAP_REASON@);
        lemma_force_keeps_close(state, BUFFER_LIMIT_GAP_REASON@);
        if step.state.pending.len() < state.pending.len() {
            lemma_relief_keeps_close(step.state);
        }
    }
}

proof fn lemma_ingest_keeps_close(state: AssemblerView, sequence: u32, payload: Seq<u8>)
    ensures
        ingested(state, sequence, payload).state.closed_at == state.closed_at,
{
    let allowed = allowed_length(state.closed_at, sequence, payload.len());
    let bytes = payload.take(allowed as int);
    if allowed > 0 {
        if let Some(expected) = state.next_sequence {
            if !seq_after(sequence, expected) {
                lemma_drained_shrinks(emitted(state, sequence, bytes).state);
            } else {
                lemma_relief_keeps_close(
                    AssemblerView {
                        pending: with_pending(state.pending, sequence, bytes),
                        ..state
                    },
                );
            }
        }
    }
}

/// Once a stream is closed, no call moves its close.
proof fn lemma_call_keeps_close(state: AssemblerView, call: StreamCall)
    requires
        state.closed_at is Some,
    ensures
        call.on(state).state.closed_at == state.closed_at,
{
    match call {
        StreamCall::Ingest { sequence, payload } => {
            lemma_ingest_keeps_close(state, sequence, payload);
        },
        StreamCall::Flush { reason } => {
            lemma_flush_keeps_close(state, reason);
        },
        StreamCall::Close { sequence, reason } => {
            law_first_close_stands(state, sequence, reason);
        },
        StreamCall::SkipAhead { reason } => {
            lemma_force_keeps_close(state, reason);
        },
    }
}

/// Whether a course has delivered, from where it started, only what `sent` tells of; before the
/// first segment nothing was delivered and nothing waits.
spec fn delivers_from(
    start: AssemblerView,
    first: u32,
    result: Assembled,
    sent: spec_fn(u32, u8) -> bool,
) -> bool {
    match result.state.next_sequence {
        None => {
            &&& start.next_sequence is None
            &&& result.state.next_offset == start.next_offset
            &&& result.state.pending.len() == 0
            &&& result.pieces.len() == 0
        },
        Some(_) => {
            &&& start.next_sequence is Some ==> start.next_sequence == Some(first)
            &&& delivers(first, start.next_offset, result, sent)
        },
    }
}

/// The part of what a call brings in that lies before the close.
spec fn taken_part(state: AssemblerView, call: StreamCall, sent: spec_fn(u32, u8) -> bool) -> bool {
    call matches StreamCall::Ingest { sequence, payload } ==> segment_faithful(
        sequence,
        payload.take(allowed_length(state.closed_at, sequence, payload.len()) as int),
        sent,
    )
}

proof fn lemma_call_delivers(
    start: AssemblerView,
    first: u32,
    earlier: Assembled,
    call: StreamCall,
    sent: spec_fn(u32, u8) -> bool,
) -> (later: u32)
    requires
        delivers_from(start, first, earlier, sent),
        taken_part(earlier.state, call, sent),
    ensures
        delivers_from(start, later, call.on(earlier.state).preceded_by(earlier.pieces), sent),
        start.next_sequence is Some ==> later == first,
{
    let state = earlier.state;
    let step = call.on(state);
    let result = step.preceded_by(earlier.pieces);
    if state.next_sequence is None {
        assert(earlier.pieces =~= Seq::empty());
        assert(result.pieces =~= step.pieces);
        assert(result == step);
        assert(pending_faithful(state.pending, sent));
    }
    match call {
        StreamCall::Ingest { sequence, payload } => {
            let allowed = allowed_length(state.closed_at, sequence, payload.len());
            law_ingest_delivers(state, sequence, payload, sent);
            if allowed == 0 {
                assert(result.pieces =~= earlier.pieces);
                assert(result == earlier);
                return first;
            }
            if state.next_sequence is None {
                return sequence;
            }
            lemma_delivers_compose(first, start.next_offset, earlier, step, sent);
        },
        StreamCall::Flush { reason } => {
            if state.next_sequence is None {
                lemma_flush_keeps_close(state, reason);
            } else {
                law_flush_delivers(state, reason, sent);
                lemma_delivers_compose(first, start.next_offset, earlier, step, sent);
            }
        },
        StreamCall::Close { sequence, reason } => {
            if state.next_sequence is None {
                assert(state.pending =~= Seq::empty());
            } else {
                law_close_delivers(state, sequence, reason, sent);
                lemma_delivers_compose(first, start.next_offset, earlier, step, sent);
            }
        },
        StreamCall::SkipAhead { reason } => {
            if state.next_sequence is None {
                lemma_force_keeps_close(state, reason);
            } else {
                law_forced_delivers(state, reason, sent);
                lemma_delivers_compose(first, start.next_offset, earlier, step, sent);
            }
        },
    }
    first
}

/// Whatever calls are made on a stream, in whatever order, all that they deliver together covers
/// the stream from offset 0 on: the first piece starts there, each further one where the one
/// before it ends, and none is empty, so that no offset is delivered twice or left out without a
/// gap. And every octet is one that was sent at the sequence number that its offset stands for,
/// counted from that of the first segment. This holds as long as offsets are not exhausted.
pub proof fn law_course_covers_the_stream(
    calls: Seq<StreamCall>,
    sent: spec_fn(u32, u8) -> bool,
) -> (first: u32)
    requires
        forall|index: int| 0 <= index < calls.len() ==> (#[trigger] calls[index]).is_faithful(sent),
        course(fresh_stream(), calls).state.next_offset < u64::MAX,
    ensures
        ({
            let result = course(fresh_stream(), calls);
            &&& tiled(result.pieces, 0, result.state.next_offset as int)
            &&& pieces_faithful(result.pieces, first, 0, sent)
            &&& result.state.next_sequence is Some ==> result.state.next_sequence == Some(
                seq_advance(first, result.state.next_offset as nat),
            )
        }),
{
    lemma_course_delivers(calls, sent)
}

proof fn lemma_course_delivers(calls: Seq<StreamCall>, sent: spec_fn(u32, u8) -> bool) -> (first:
    u32)
    requires
        forall|index: int| 0 <= index < calls.len() ==> (#[trigger] calls[index]).is_faithful(sent),
    ensures
        delivers_from(fresh_stream(), first, course(fresh_stream(), calls), sent),
    decreases calls.len(),
{
    if calls.len() == 0 {
        return 0;
    }
    let shorter = calls.drop_last();
    assert forall|index: int| 0 <= index < shorter.len() implies (
    #[trigger] shorter[index]).is_faithful(sent) by {
        assert(shorter[index] == calls[index]);
    }
    let before = lemma_course_delivers(shorter, sent);
    let earlier = course(fresh_stream(), shorter);
    let call = calls.last();
    assert(calls[calls.len() - 1].is_faithful(sent));
    if let StreamCall::Ingest { sequence, payload } = call {
        lemma_faithful_prefix(
            sequence,
            payload,
            allowed_length(earlier.state.closed_at, sequence, payload.len()) as int,
            sent,
        );
    }
    lemma_call_delivers(fresh_stream(), before, earlier, call, sent)
}

/// Whether everything that waits lies before a close.
pub open spec fn waits_before(pending: Seq<SegmentView>, close: u32) -> bool {
    forall|index: int|
        0 <= index < pending.len() ==> {
            let segment = #[trigger] pending[index];
            segment.bytes.len() > 0 && allowed_length(
                Some(close),
                segment.sequence,
                segment.bytes.len(),
            ) == segment.bytes.len()
        }
}

proof fn lemma_trimmed_waits_before(pending: Seq<SegmentView>, close: u32)
    ensures
        waits_before(trimmed(pending, close), close),
        waits_before(pending, close) ==> trimmed(pending, close) == pending,
    decreases pending.len(),
{
    if pending.len() > 0 {
        let shorter = pending.drop_last();
        let last = pending.last();
        lemma_trimmed_waits_before(shorter, close);
        let rest = trimmed(shorter, close);
        let result = trimmed(pending, close);
        let allowed = allowed_length(Some(close), last.sequence, last.bytes.len());
        assert forall|index: int| 0 <= index < result.len() implies ({
            let segment = #[trigger] result[index];
            segment.bytes.len() > 0 && allowed_length(
                Some(close),
                segment.sequence,
                segment.bytes.len(),
            ) == segment.bytes.len()
        }) by {
            if index < rest.len() {
                assert(result[index] == rest[index]);
            }
        }
        if waits_before(pending, close) {
            assert forall|index: int| 0 <= index < shorter.len() implies ({
                let segment = #[trigger] shorter[index];
                segment.bytes.len() > 0 && allowed_length(
                    Some(close),
                    segment.sequence,
                    segment.bytes.len(),
                ) == segment.bytes.len()
            }) by {
                assert(shorter[index] == pending[index]);
            }
            assert(pending[pending.len() - 1] == last);
            assert(last.bytes.take(allowed as int) =~= last.bytes);
            assert(result =~= pending);
        }
    } else {
        assert(trimmed(pending, close) =~= pending);
    }
}

proof fn lemma_waits_before_is_faithful(pending: Seq<SegmentView>, close: u32)
    requires
        waits_before(pending, close),
    ensures
        pending_faithful(pending, lies_before(close)),
{
    assert forall|index: int| 0 <= index < pending.len() implies segment_faithful(
        (#[trigger] pending[index]).sequence,
        pending[index].bytes,
        lies_before(close),
    ) by {
        lemma_before_close(close, pending[index].sequence, pending[index].bytes);
    }
}

proof fn lemma_waits_before_without(pending: Seq<SegmentView>, index: int, close: u32)
    requires
        0 <= index < pending.len(),
        waits_before(pending, close),
    ensures
        waits_before(swap_removed(pending, index), close),
{
    let rest = swap_removed(pending, index);
    assert forall|kept: int| 0 <= kept < rest.len() implies ({
        let segment = #[trigger] rest[kept];
        segment.bytes.len() > 0 && allowed_length(
            Some(close),
            segment.sequence,
            segment.bytes.len(),
        ) == segment.bytes.len()
    }) by {
        if kept == index {
            assert(rest[kept] == pending[pending.len() - 1]);
        } else {
            assert(rest[kept] == pending[kept]);
        }
    }
}

/// Draining leaves nothing behind the close, and nothing that draining again would deliver.
proof fn lemma_drained_settles(state: AssemblerView, close: u32)
    requires
        waits_before(state.pending, close),
    ensures
        waits_before(drained(state).state.pending, close),
        drained(drained(state).state) == unchanged(drained(state).state),
    decreases state.pending.len(),
{
    if let Some(expected) = state.next_sequence {
        let duplicate = first_duplicate(state.pending, expected);
        let reaching = first_reaching(state.pending, expected);
        if duplicate < state.pending.len() {
            lemma_waits_before_without(state.pending, duplicate as int, close);
            lemma_drained_settles(state.without(duplicate as int), close);
        } else if reaching < state.pending.len() {
            let segment = state.pending[reaching as int];
            lemma_waits_before_without(state.pending, reaching as int, close);
            let step = emitted(
                state.without(reaching as int),
                segment.sequence,
                segment.bytes,
            );
            lemma_drained_settles(step.state, close);
        }
    }
}

/// Delivering up to the close leaves nothing that doing so again would deliver.
proof fn lemma_forced_until_settles(
    state: AssemblerView,
    close: u32,
    reason: Seq<char>,
    again: Seq<char>,
)
    requires
        waits_before(state.pending, close),
        state.next_sequence is None ==> state.pending.len() == 0,
    ensures
        ({
            let result = forced_until(state, close, reason).state;
            &&& waits_before(result.pending, close)
            &&& result.closed_at == state.closed_at
            &&& forced_until(result, close, again) == unchanged(result)
        }),
    decreases state.pending.len(),
{
    let ready = drained(state);
    lemma_drained_settles(state, close);
    lemma_drained_shrinks(state);
    if let Some(expected) = ready.state.next_sequence {
        if seq_after(close, expected) {
            let count = ready.state.pending.len() as int;
            lemma_drained_leaves_ahead(state);
            lemma_soonest_lies_ahead(ready.state.pending, expected, Some(close), count);
            let index = soonest(ready.state.pending, expected, Some(close), count);
            if index < 0 {
                if count > 0 {
                    let segment = ready.state.pending[0];
                    assert(segment.lies_ahead(expected, None));
                    assert(allowed_length(Some(close), segment.sequence, segment.bytes.len()) > 0);
                    assert(segment.lies_ahead(expected, Some(close)));
                }
                let gap = gapped(ready.state, expected, close, reason).state;
                assert(gap.pending.len() == 0);
                assert(drained(gap) == unchanged(gap));
                assert(!seq_after(close, close));
                assert(forced_until(gap, close, again) == unchanged(gap));
            } else {
                let step = skipped_to(ready.state, index, expected, reason);
                lemma_skipped_shrinks(ready.state, expected, Some(close), reason);
                let segment = ready.state.pending[index];
                let gap = gapped(
                    ready.state.without(index),
                    expected,
                    segment.sequence,
                    reason,
                );
                lemma_waits_before_without(ready.state.pending, index, close);
                lemma_drained_settles(
                    emitted(gap.state, segment.sequence, segment.bytes).state,
                    close,
                );
                lemma_forced_until_settles(step.state, close, reason, again);
            }
        }
    }
}

/// The first close of a stream stays its boundary: a later close, at whatever sequence number,
/// acts as one at the first, and right after a close it delivers nothing and changes nothing.
pub proof fn law_repeated_close_delivers_nothing(
    state: AssemblerView,
    sequence: u32,
    reason: Seq<char>,
    later: u32,
    again: Seq<char>,
)
    requires
        state.next_sequence is None ==> state.pending.len() == 0,
    ensures
        ({
            let result = closed(state, sequence, reason).state;
            &&& result.closed_at is Some
            &&& closed(result, later, again) == closed(result, result.closed_at->0, again)
            &&& closed(result, later, again) == unchanged(result)
        }),
{
    let close = match state.closed_at {
        Some(earlier) => earlier,
        None => sequence,
    };
    let cut = AssemblerView {
        closed_at: Some(close),
        pending: trimmed(state.pending, close),
        ..state
    };
    lemma_trimmed_waits_before(state.pending, close);
    if state.pending.len() == 0 {
        assert(cut.pending.len() == 0);
    }
    lemma_forced_until_settles(cut, close, reason, again);
    let result = closed(state, sequence, reason).state;
    lemma_trimmed_waits_before(result.pending, close);
    assert(result == AssemblerView {
        closed_at: Some(close),
        pending: trimmed(result.pending, close),
        ..result
    });
}

proof fn lemma_course_stays_before(
    state: AssemblerView,
    close: u32,
    calls: Seq<StreamCall>,
    start: u32,
) -> (first: u32)
    requires
        state.closed_at == Some(close),
        waits_before(state.pending, close),
        state.next_sequence is None ==> state.pending.len() == 0,
        state.next_sequence is Some ==> state.next_sequence == Some(start),
    ensures
        delivers_from(state, first, course(state, calls), lies_before(close)),
        state.next_sequence is Some ==> first == start,
        course(state, calls).state.closed_at == Some(close),
    decreases calls.len(),
{
    let sent = lies_before(close);
    if calls.len() == 0 {
        lemma_waits_before_is_faithful(state.pending, close);
        if state.next_sequence is Some {
            lemma_delivers_nothing(state, sent);
        }
        return start;
    }
    let shorter = calls.drop_last();
    let call = calls.last();
    let before = lemma_course_stays_before(state, close, shorter, start);
    let earlier = course(state, shorter);
    lemma_call_keeps_close(earlier.state, call);
    if let StreamCall::Ingest { sequence, payload } = call {
        let allowed = allowed_length(Some(close), sequence, payload.len());
        lemma_before_close(close, sequence, payload.take(allowed as int));
    }
    lemma_call_delivers(state, before, earlier, call, sent)
}

/// After a close, whatever calls are made, no octet at or behind the close is delivered: each one
/// that is has a sequence number before it, as its offset tells, as long as offsets are not
/// exhausted. And a segment that starts at or behind the close changes nothing.
pub proof fn law_nothing_is_delivered_behind_the_close(
    state: AssemblerView,
    sequence: u32,
    reason: Seq<char>,
    calls: Seq<StreamCall>,
) -> (first: u32)
    requires
        state.next_sequence is None ==> state.pending.len() == 0,
        course(closed(state, sequence, reason).state, calls).state.next_offset < u64::MAX,
    ensures
        ({
            let ended = closed(state, sequence, reason).state;
            let result = course(ended, calls);
            &&& ended.closed_at is Some
            &&& result.state.closed_at == ended.closed_at
            &&& ended.next_sequence is Some ==> ended.next_sequence == Some(first)
            &&& pieces_faithful(
                result.pieces,
                first,
                ended.next_offset,
                lies_before(ended.closed_at->0),
            )
            &&& forall|late: u32, payload: Seq<u8>|
                !seq_before(late, ended.closed_at->0) ==> #[trigger] ingested(
                    result.state,
                    late,
                    payload,
                ) == unchanged(result.state)
        }),
{
    let close = match state.closed_at {
        Some(earlier) => earlier,
        None => sequence,
    };
    let cut = AssemblerView {
        closed_at: Some(close),
        pending: trimmed(state.pending, close),
        ..state
    };
    lemma_trimmed_waits_before(state.pending, close);
    if state.pending.len() == 0 {
        assert(cut.pending.len() == 0);
    }
    lemma_forced_until_settles(cut, close, reason, reason);
    let ended = closed(state, sequence, reason).state;
    lemma_closed_is_started(cut, close, reason);
    let start = match ended.next_sequence {
        Some(next) => next,
        None => 0,
    };
    lemma_course_stays_before(ended, close, calls, start)
}

/// Delivering up to the close of a stream of which nothing was seen leaves nothing waiting.
proof fn lemma_closed_is_started(state: AssemblerView, close: u32, reason: Seq<char>)
    requires
        state.next_sequence is None ==> state.pending.len() == 0,
    ensures
        ({
            let result = forced_until(state, close, reason).state;
            result.next_sequence is None ==> result.pending.len() == 0
        }),
    decreases state.pending.len(),
{
    let ready = drained(state);
    lemma_drained_shrinks(state);
    if let Some(expected) = ready.state.next_sequence {
        if seq_after(close, expected) {
            let count = ready.state.pending.len() as int;
            let index = soonest(ready.state.pending, expected, Some(close), count);
            if index >= 0 {
                lemma_skipped_shrinks(ready.state, expected, Some(close), reason);
                lemma_closed_is_started(
                    skipped_to(ready.state, index, expected, reason).state,
                    close,
                    reason,
                );
            }
        }
    }
}

} // verus!
