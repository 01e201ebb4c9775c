//! What holds of every reassembled stream.
use vstd::prelude::*;

use crate::libpcap::stream::assembly::{
    allowed_length, closed, drained, emitted, exceeds_stream_limit, first_duplicate, first_reaching,
    flushed, forced, forced_until, gapped, ingested, lemma_drained_shrinks, lemma_skipped_shrinks,
    lemma_soonest_lies_ahead, position, relieved, skipped_to, soonest, swap_removed, total_bytes,
    trimmed, unchanged, with_pending, Assembled, AssemblerView, PieceView, SegmentView,
    BUFFER_LIMIT_GAP_REASON,
};
use crate::libpcap::tcp_seq::{
    law_advance_composes, law_distance_leads_there, law_order, seq_advance, seq_after, seq_before,
    seq_distance,
};

verus! {

/// Where a piece starts in the stream.
pub open spec fn piece_start(piece: PieceView) -> u64 {
    match piece {
        PieceView::Bytes { stream_offset, .. } => stream_offset,
        PieceView::Gap { expected_offset, .. } => expected_offset,
    }
}

/// Where a piece ends in the stream.
pub open spec fn piece_end(piece: PieceView) -> int {
    match piece {
        PieceView::Bytes { stream_offset, bytes } => stream_offset + bytes.len(),
        PieceView::Gap { expected_offset, next_offset, .. } => match next_offset {
            Some(next) => next as int,
            None => expected_offset as int,
        },
    }
}

/// Whether the pieces cover the stream from `start` to `end`, each beginning where the one before
/// it ends, and none of them empty.
pub open spec fn tiled(pieces: Seq<PieceView>, start: int, end: int) -> bool
    decreases pieces.len(),
{
    if pieces.len() == 0 {
        start == end
    } else {
        let last = pieces.last();
        piece_start(last) < piece_end(last) && piece_end(last) == end && tiled(
            pieces.drop_last(),
            start,
            piece_start(last) as int,
        )
    }
}

/// Whether octets that start at `sequence` are those that the sender put there, as `sent` tells of
/// a sequence number and an octet.
pub open spec fn segment_faithful(
    sequence: u32,
    bytes: Seq<u8>,
    sent: spec_fn(u32, u8) -> bool,
) -> bool {
    forall|index: int|
        0 <= index < bytes.len() ==> sent(
            seq_advance(sequence, index as nat),
            #[trigger] bytes[index],
        )
}

/// Whether every waiting segment holds what the sender put there.
pub open spec fn pending_faithful(pending: Seq<SegmentView>, sent: spec_fn(u32, u8) -> bool) -> bool {
    forall|index: int|
        0 <= index < pending.len() ==> segment_faithful(
            (#[trigger] pending[index]).sequence,
            pending[index].bytes,
            sent,
        )
}

/// Whether a delivered piece holds what the sender put at its place, where `sequence` is the
/// position of `offset`.
pub open spec fn piece_faithful(
    piece: PieceView,
    sequence: u32,
    offset: u64,
    sent: spec_fn(u32, u8) -> bool,
) -> bool {
    match piece {
        PieceView::Bytes { stream_offset, bytes } => stream_offset >= offset && segment_faithful(
            seq_advance(sequence, (stream_offset - offset) as nat),
            bytes,
            sent,
        ),
        PieceView::Gap { .. } => true,
    }
}

/// Whether every delivered piece holds what the sender put at its place.
pub open spec fn pieces_faithful(
    pieces: Seq<PieceView>,
    sequence: u32,
    offset: u64,
    sent: spec_fn(u32, u8) -> bool,
) -> bool {
    forall|index: int|
        0 <= index < pieces.len() ==> piece_faithful(
            #[trigger] pieces[index],
            sequence,
            offset,
            sent,
        )
}

/// What an operation owes that starts where `sequence` is expected at `offset`: offsets do not
/// run backwards; what still waits is what was sent; and as long as offsets are not exhausted,
/// the pieces cover the way from the old offset to the new one without overlap, hold what was
/// sent at their place, and the expected sequence number moves along with the offset.
pub open spec fn delivers(
    sequence: u32,
    offset: u64,
    result: Assembled,
    sent: spec_fn(u32, u8) -> bool,
) -> bool {
    &&& result.state.next_offset >= offset
    &&& result.state.next_sequence is Some
    &&& pending_faithful(result.state.pending, sent)
    &&& result.state.next_offset < u64::MAX ==> {
        &&& result.state.next_sequence == Some(
            seq_advance(sequence, (result.state.next_offset - offset) as nat),
        )
        &&& tiled(result.pieces, offset as int, result.state.next_offset as int)
        &&& pieces_faithful(result.pieces, sequence, offset, sent)
    }
}

proof fn lemma_tiled_concat(
    first: Seq<PieceView>,
    second: Seq<PieceView>,
    start: int,
    middle: int,
    end: int,
)
    requires
        tiled(first, start, middle),
        tiled(second, middle, end),
    ensures
        tiled(first + second, start, end),
    decreases second.len(),
{
    if second.len() == 0 {
        assert(first + second =~= first);
    } else {
        let last = second.last();
        lemma_tiled_concat(first, second.drop_last(), start, middle, piece_start(last) as int);
        assert((first + second).drop_last() =~= first + second.drop_last());
        assert((first + second).last() == last);
    }
}

pub proof fn lemma_delivers_compose(
    sequence: u32,
    offset: u64,
    first: Assembled,
    second: Assembled,
    sent: spec_fn(u32, u8) -> bool,
)
    requires
        delivers(sequence, offset, first, sent),
        delivers(first.state.next_sequence->0, first.state.next_offset, second, sent),
    ensures
        delivers(sequence, offset, second.preceded_by(first.pieces), sent),
{
    let middle = first.state.next_offset;
    let result = second.preceded_by(first.pieces);
    if result.state.next_offset < u64::MAX {
        let advanced = (middle - offset) as nat;
        law_advance_composes(sequence, advanced, (second.state.next_offset - middle) as nat);
        lemma_tiled_concat(
            first.pieces,
            second.pieces,
            offset as int,
            middle as int,
            second.state.next_offset as int,
        );
        assert forall|index: int| 0 <= index < result.pieces.len() implies piece_faithful(
            #[trigger] result.pieces[index],
            sequence,
            offset,
            sent,
        ) by {
            if index < first.pieces.len() {
                assert(result.pieces[index] == first.pieces[index]);
            } else {
                let piece = second.pieces[index - first.pieces.len()];
                assert(result.pieces[index] == piece);
                assert(piece_faithful(piece, first.state.next_sequence->0, middle, sent));
                if let PieceView::Bytes { stream_offset, .. } = piece {
                    law_advance_composes(sequence, advanced, (stream_offset - middle) as nat);
                }
            }
        }
    }
}

pub proof fn lemma_delivers_nothing(state: AssemblerView, sent: spec_fn(u32, u8) -> bool)
    requires
        state.next_sequence is Some,
        pending_faithful(state.pending, sent),
    ensures
        delivers(state.next_sequence->0, state.next_offset, unchanged(state), sent),
{
}

pub proof fn lemma_emitted_delivers(
    state: AssemblerView,
    sequence: u32,
    bytes: Seq<u8>,
    sent: spec_fn(u32, u8) -> bool,
)
    requires
        pending_faithful(state.pending, sent),
        segment_faithful(sequence, bytes, sent),
        state.next_sequence is Some ==> !seq_after(sequence, state.next_sequence->0),
    ensures
        ({
            let expected = match state.next_sequence {
                Some(next) => next,
                None => sequence,
            };
            delivers(expected, state.next_offset, emitted(state, sequence, bytes), sent)
        }),
        emitted(state, sequence, bytes).state.pending == state.pending,
{
    let expected = match state.next_sequence {
        Some(next) => next,
        None => sequence,
    };
    law_order(sequence, expected);
    let skip = if seq_before(sequence, expected) {
        seq_distance(sequence, expected)
    } else {
        0
    };
    law_distance_leads_there(sequence, expected);
    assert(seq_advance(sequence, skip) == expected);
    let result = emitted(state, sequence, bytes);
    if skip < bytes.len() {
        let fresh = bytes.skip(skip as int);
        assert forall|index: int| 0 <= index < fresh.len() implies sent(
            seq_advance(expected, index as nat),
            #[trigger] fresh[index],
        ) by {
            assert(fresh[index] == bytes[skip + index]);
            law_advance_composes(sequence, skip, index as nat);
        }
        let piece = result.pieces[0];
        assert(result.pieces.drop_last() =~= Seq::<PieceView>::empty());
        assert(tiled(
            result.pieces.drop_last(),
            state.next_offset as int,
            state.next_offset as int,
        ));
    }
}

proof fn lemma_faithful_without(
    pending: Seq<SegmentView>,
    index: int,
    sent: spec_fn(u32, u8) -> bool,
)
    requires
        0 <= index < pending.len(),
        pending_faithful(pending, sent),
    ensures
        pending_faithful(swap_removed(pending, index), sent),
{
    let rest = swap_removed(pending, index);
    assert forall|kept: int| 0 <= kept < rest.len() implies segment_faithful(
        (#[trigger] rest[kept]).sequence,
        rest[kept].bytes,
        sent,
    ) by {
        if kept == index {
            assert(rest[kept] == pending[pending.len() - 1]);
        } else {
            assert(rest[kept] == pending[kept]);
        }
    }
}

/// Where a search ends inside the segments, the one found satisfies the condition; none before
/// it does.
pub proof fn lemma_position_satisfies(pending: Seq<SegmentView>, wanted: spec_fn(SegmentView) -> bool)
    ensures
        position(pending, wanted) <= pending.len(),
        position(pending, wanted) < pending.len() ==> wanted(
            pending[position(pending, wanted) as int],
        ),
        forall|earlier: int|
            0 <= earlier < position(pending, wanted) ==> !wanted(#[trigger] pending[earlier]),
    decreases pending.len(),
{
    if pending.len() > 0 && !wanted(pending[0]) {
        let rest = pending.drop_first();
        lemma_position_satisfies(rest, wanted);
        assert forall|earlier: int| 0 <= earlier < position(pending, wanted) implies !wanted(
            #[trigger] pending[earlier],
        ) by {
            if earlier > 0 {
                assert(pending[earlier] == rest[earlier - 1]);
            }
        }
    }
}

pub proof fn lemma_drained_delivers(state: AssemblerView, sent: spec_fn(u32, u8) -> bool)
    requires
        state.next_sequence is Some,
        pending_faithful(state.pending, sent),
    ensures
        delivers(state.next_sequence->0, state.next_offset, drained(state), sent),
    decreases state.pending.len(),
{
    let expected = state.next_sequence->0;
    let duplicate = first_duplicate(state.pending, expected);
    let reaching = first_reaching(state.pending, expected);
    lemma_position_satisfies(
        state.pending,
        |segment: SegmentView| segment.is_duplicate(expected),
    );
    lemma_position_satisfies(state.pending, |segment: SegmentView| segment.reaches(expected));
    if duplicate < state.pending.len() {
        lemma_faithful_without(state.pending, duplicate as int, sent);
        lemma_drained_delivers(state.without(duplicate as int), sent);
    } else if reaching < state.pending.len() {
        let segment = state.pending[reaching as int];
        lemma_faithful_without(state.pending, reaching as int, sent);
        let step = emitted(state.without(reaching as int), segment.sequence, segment.bytes);
        lemma_emitted_delivers(
            state.without(reaching as int),
            segment.sequence,
            segment.bytes,
            sent,
        );
        lemma_drained_delivers(step.state, sent);
        lemma_delivers_compose(expected, state.next_offset, step, drained(step.state), sent);
    } else {
        lemma_delivers_nothing(state, sent);
    }
}

proof fn lemma_gapped_delivers(
    state: AssemblerView,
    sequence: u32,
    reason: Seq<char>,
    sent: spec_fn(u32, u8) -> bool,
)
    requires
        state.next_sequence is Some,
        seq_after(sequence, state.next_sequence->0),
        pending_faithful(state.pending, sent),
    ensures
        delivers(
            state.next_sequence->0,
            state.next_offset,
            gapped(state, state.next_sequence->0, sequence, reason),
            sent,
        ),
{
    let expected = state.next_sequence->0;
    let result = gapped(state, expected, sequence, reason);
    law_distance_leads_there(expected, sequence);
    law_order(sequence, expected);
    assert(seq_distance(expected, sequence) > 0);
    assert(result.pieces.drop_last() =~= Seq::<PieceView>::empty());
    assert(tiled(result.pieces.drop_last(), state.next_offset as int, state.next_offset as int));
}

pub proof fn lemma_skipped_delivers(
    state: AssemblerView,
    index: int,
    reason: Seq<char>,
    sent: spec_fn(u32, u8) -> bool,
)
    requires
        state.next_sequence is Some,
        pending_faithful(state.pending, sent),
        0 <= index < state.pending.len(),
        seq_after(state.pending[index].sequence, state.next_sequence->0),
    ensures
        delivers(
            state.next_sequence->0,
            state.next_offset,
            skipped_to(state, index, state.next_sequence->0, reason),
            sent,
        ),
{
    let expected = state.next_sequence->0;
    let segment = state.pending[index];
    let rest = state.without(index);
    lemma_faithful_without(state.pending, index, sent);
    let gap = gapped(rest, expected, segment.sequence, reason);
    lemma_gapped_delivers(rest, segment.sequence, reason, sent);
    let step = emitted(gap.state, segment.sequence, segment.bytes);
    law_order(segment.sequence, segment.sequence);
    lemma_emitted_delivers(gap.state, segment.sequence, segment.bytes, sent);
    lemma_delivers_compose(expected, state.next_offset, gap, step, sent);
    lemma_drained_delivers(step.state, sent);
    lemma_delivers_compose(
        expected,
        state.next_offset,
        step.preceded_by(gap.pieces),
        drained(step.state),
        sent,
    );
}

/// Skipping ahead, as when too much waits in all streams together, delivers what was sent.
pub proof fn law_forced_delivers(
    state: AssemblerView,
    reason: Seq<char>,
    sent: spec_fn(u32, u8) -> bool,
)
    requires
        state.next_sequence is Some,
        pending_faithful(state.pending, sent),
    ensures
        delivers(state.next_sequence->0, state.next_offset, forced(state, reason), sent),
{
    let ready = drained(state);
    lemma_drained_delivers(state, sent);
    let expected = ready.state.next_sequence->0;
    let count = ready.state.pending.len() as int;
    lemma_soonest_lies_ahead(ready.state.pending, expected, None, count);
    let index = soonest(ready.state.pending, expected, None, count);
    if index >= 0 {
        lemma_skipped_delivers(ready.state, index, reason, sent);
        lemma_delivers_compose(
            state.next_sequence->0,
            state.next_offset,
            ready,
            skipped_to(ready.state, index, expected, reason),
            sent,
        );
    }
}

/// Flushing delivers what was sent, with gaps for what is missing.
pub proof fn law_flush_delivers(state: AssemblerView, reason: Seq<char>, sent: spec_fn(u32, u8) -> bool)
    requires
        state.next_sequence is Some,
        pending_faithful(state.pending, sent),
    ensures
        delivers(state.next_sequence->0, state.next_offset, flushed(state, reason), sent),
    decreases state.pending.len(),
{
    let step = forced(state, reason);
    law_forced_delivers(state, reason, sent);
    if step.state.pending.len() != 0 && step.state.pending.len() < state.pending.len() {
        law_flush_delivers(step.state, reason, sent);
        lemma_delivers_compose(
            state.next_sequence->0,
            state.next_offset,
            step,
            flushed(step.state, reason),
            sent,
        );
    }
}

pub proof fn lemma_relieved_delivers(state: AssemblerView, sent: spec_fn(u32, u8) -> bool)
    requires
        state.next_sequence is Some,
        pending_faithful(state.pending, sent),
    ensures
        delivers(state.next_sequence->0, state.next_offset, relieved(state), sent),
    decreases state.pending.len(),
{
    if exceeds_stream_limit(state.pending) {
        let reason = BUFFER_LIMIT_GAP_REASON@;
        let step = forced(state, reason);
        law_forced_delivers(state, reason, sent);
        if step.state.pending.len() < state.pending.len() {
            lemma_relieved_delivers(step.state, sent);
            lemma_delivers_compose(
                state.next_sequence->0,
                state.next_offset,
                step,
                relieved(step.state),
                sent,
            );
        }
    } else {
        lemma_delivers_nothing(state, sent);
    }
}

pub proof fn lemma_faithful_prefix(
    sequence: u32,
    bytes: Seq<u8>,
    length: int,
    sent: spec_fn(u32, u8) -> bool,
)
    requires
        segment_faithful(sequence, bytes, sent),
        0 <= length <= bytes.len(),
    ensures
        segment_faithful(sequence, bytes.take(length), sent),
{
    let prefix = bytes.take(length);
    assert forall|index: int| 0 <= index < prefix.len() implies sent(
        seq_advance(sequence, index as nat),
        #[trigger] prefix[index],
    ) by {
        assert(prefix[index] == bytes[index]);
    }
}

/// Whatever order segments arrive in, and however often, taking one in delivers only octets that
/// the sender put at their place, in order, without overlap, and keeps the sequence number and
/// the offset of the stream in step. A segment without octets before the close of the stream
/// changes nothing.
pub proof fn law_ingest_delivers(
    state: AssemblerView,
    sequence: u32,
    payload: Seq<u8>,
    sent: spec_fn(u32, u8) -> bool,
)
    requires
        pending_faithful(state.pending, sent),
        segment_faithful(
            sequence,
            payload.take(
                allowed_length(state.closed_at, sequence, payload.len()) as int,
            ),
            sent,
        ),
    ensures
        allowed_length(state.closed_at, sequence, payload.len()) == 0 ==> ingested(
            state,
            sequence,
            payload,
        ) == unchanged(state),
        allowed_length(state.closed_at, sequence, payload.len()) > 0 ==> delivers(
            match state.next_sequence {
                Some(expected) => expected,
                None => sequence,
            },
            state.next_offset,
            ingested(state, sequence, payload),
            sent,
        ),
{
    let allowed = allowed_length(state.closed_at, sequence, payload.len());
    let bytes = payload.take(allowed as int);
    if allowed > 0 {
        match state.next_sequence {
            None => {
                lemma_emitted_delivers(state, sequence, bytes, sent);
            },
            Some(expected) => {
                if !seq_after(sequence, expected) {
                    let step = emitted(state, sequence, bytes);
                    lemma_emitted_delivers(state, sequence, bytes, sent);
                    lemma_drained_delivers(step.state, sent);
                    lemma_delivers_compose(
                        expected,
                        state.next_offset,
                        step,
                        drained(step.state),
                        sent,
                    );
                } else {
                    let waiting = AssemblerView {
                        pending: with_pending(state.pending, sequence, bytes),
                        ..state
                    };
                    assert(pending_faithful(waiting.pending, sent)) by {
                        assert forall|index: int|
                            0 <= index < waiting.pending.len() implies segment_faithful(
                            (#[trigger] waiting.pending[index]).sequence,
                            waiting.pending[index].bytes,
                            sent,
                        ) by {
                            if index < state.pending.len() && waiting.pending[index]
                                == state.pending[index] {
                                assert(segment_faithful(
                                    state.pending[index].sequence,
                                    state.pending[index].bytes,
                                    sent,
                                ));
                            }
                        }
                    }
                    lemma_relieved_delivers(waiting, sent);
                }
            },
        }
    }
}

pub proof fn lemma_trimmed_faithful(pending: Seq<SegmentView>, close: u32, sent: spec_fn(u32, u8) -> bool)
    requires
        pending_faithful(pending, sent),
    ensures
        pending_faithful(trimmed(pending, close), sent),
    decreases pending.len(),
{
    if pending.len() > 0 {
        let shorter = pending.drop_last();
        assert forall|index: int| 0 <= index < shorter.len() implies segment_faithful(
            (#[trigger] shorter[index]).sequence,
            shorter[index].bytes,
            sent,
        ) by {
            assert(shorter[index] == pending[index]);
        }
        lemma_trimmed_faithful(shorter, close, sent);
        let last = pending.last();
        assert(last == pending[pending.len() - 1]);
        let allowed = allowed_length(Some(close), last.sequence, last.bytes.len());
        if allowed > 0 {
            lemma_faithful_prefix(last.sequence, last.bytes, allowed as int, sent);
            let rest = trimmed(shorter, close);
            let result = trimmed(pending, close);
            assert forall|index: int| 0 <= index < result.len() implies segment_faithful(
                (#[trigger] result[index]).sequence,
                result[index].bytes,
                sent,
            ) by {
                if index < rest.len() {
                    assert(result[index] == rest[index]);
                }
            }
        }
    }
}

pub proof fn lemma_forced_until_delivers(
    state: AssemblerView,
    limit: u32,
    reason: Seq<char>,
    sent: spec_fn(u32, u8) -> bool,
)
    requires
        state.next_sequence is Some,
        pending_faithful(state.pending, sent),
    ensures
        delivers(
            state.next_sequence->0,
            state.next_offset,
            forced_until(state, limit, reason),
            sent,
        ),
    decreases state.pending.len(),
{
    let start = state.next_sequence->0;
    let ready = drained(state);
    lemma_drained_delivers(state, sent);
    lemma_drained_shrinks(state);
    let expected = ready.state.next_sequence->0;
    if seq_after(limit, expected) {
        let count = ready.state.pending.len() as int;
        lemma_soonest_lies_ahead(ready.state.pending, expected, Some(limit), count);
        let index = soonest(ready.state.pending, expected, Some(limit), count);
        if index < 0 {
            lemma_gapped_delivers(ready.state, limit, reason, sent);
            lemma_delivers_compose(
                start,
                state.next_offset,
                ready,
                gapped(ready.state, expected, limit, reason),
                sent,
            );
        } else {
            let step = skipped_to(ready.state, index, expected, reason);
            lemma_skipped_shrinks(ready.state, expected, Some(limit), reason);
            lemma_skipped_delivers(ready.state, index, reason, sent);
            lemma_delivers_compose(start, state.next_offset, ready, step, sent);
            lemma_forced_until_delivers(step.state, limit, reason, sent);
            lemma_delivers_compose(
                start,
                state.next_offset,
                step.preceded_by(ready.pieces),
                forced_until(step.state, limit, reason),
                sent,
            );
        }
    }
}

/// Closing delivers what was sent before the close, with gaps for what is missing.
pub proof fn law_close_delivers(
    state: AssemblerView,
    sequence: u32,
    reason: Seq<char>,
    sent: spec_fn(u32, u8) -> bool,
)
    requires
        state.next_sequence is Some,
        pending_faithful(state.pending, sent),
    ensures
        delivers(
            state.next_sequence->0,
            state.next_offset,
            closed(state, sequence, reason),
            sent,
        ),
{
    let close = match state.closed_at {
        Some(earlier) => earlier,
        None => sequence,
    };
    lemma_trimmed_faithful(state.pending, close, sent);
    lemma_forced_until_delivers(
        AssemblerView {
            closed_at: Some(close),
            pending: trimmed(state.pending, close),
            ..state
        },
        close,
        reason,
        sent,
    );
}

/// Draining leaves only segments that lie ahead of the expected position.
pub proof fn lemma_drained_leaves_ahead(state: AssemblerView)
    requires
        state.next_sequence is Some,
    ensures
        ({
            let ready = drained(state).state;
            forall|index: int|
                0 <= index < ready.pending.len() ==> (#[trigger] ready.pending[index]).lies_ahead(
                    ready.next_sequence->0,
                    None,
                )
        }),
    decreases state.pending.len(),
{
    let expected = state.next_sequence->0;
    let duplicate = first_duplicate(state.pending, expected);
    let reaching = first_reaching(state.pending, expected);
    let unwanted = |segment: SegmentView| segment.is_duplicate(expected);
    let wanted = |segment: SegmentView| segment.reaches(expected);
    lemma_position_satisfies(state.pending, unwanted);
    lemma_position_satisfies(state.pending, wanted);
    if duplicate < state.pending.len() {
        lemma_drained_leaves_ahead(state.without(duplicate as int));
    } else if reaching < state.pending.len() {
        let segment = state.pending[reaching as int];
        lemma_drained_leaves_ahead(
            emitted(state.without(reaching as int), segment.sequence, segment.bytes).state,
        );
    } else {
        assert forall|index: int| 0 <= index < state.pending.len() implies (
        #[trigger] state.pending[index]).lies_ahead(expected, None) by {
            assert(!unwanted(state.pending[index]));
            assert(!wanted(state.pending[index]));
        }
    }
}

/// Skipping ahead makes progress as long as something waits.
pub proof fn lemma_forced_shrinks(state: AssemblerView, reason: Seq<char>)
    requires
        state.next_sequence is Some,
    ensures
        forced(state, reason).state.next_sequence is Some,
        forced(state, reason).state.closed_at == state.closed_at,
        forced(state, reason).state.pending.len() <= state.pending.len(),
        state.pending.len() > 0 ==> forced(state, reason).state.pending.len()
            < state.pending.len(),
{
    let ready = drained(state);
    lemma_drained_shrinks(state);
    lemma_drained_leaves_ahead(state);
    let expected = ready.state.next_sequence->0;
    let count = ready.state.pending.len() as int;
    lemma_soonest_lies_ahead(ready.state.pending, expected, None, count);
    lemma_skipped_shrinks(ready.state, expected, None, reason);
    if count > 0 {
        assert(ready.state.pending[0].lies_ahead(expected, None));
    }
}

/// After a flush nothing waits any more.
pub proof fn law_flush_leaves_nothing_waiting(state: AssemblerView, reason: Seq<char>)
    requires
        state.next_sequence is None ==> state.pending.len() == 0,
    ensures
        flushed(state, reason).state.pending.len() == 0,
    decreases state.pending.len(),
{
    if state.next_sequence is Some {
        lemma_forced_shrinks(state, reason);
        let step = forced(state, reason);
        if step.state.pending.len() != 0 && step.state.pending.len() < state.pending.len() {
            law_flush_leaves_nothing_waiting(step.state, reason);
        }
    }
}

/// A stream in which nothing waits before the first segment, and no more than allowed after.
pub open spec fn well_kept(state: AssemblerView) -> bool {
    &&& state.next_sequence is None ==> state.pending.len() == 0
    &&& !exceeds_stream_limit(state.pending)
}

pub proof fn lemma_total_update(pending: Seq<SegmentView>, index: int, segment: SegmentView)
    requires
        0 <= index < pending.len(),
    ensures
        total_bytes(pending.update(index, segment)) == total_bytes(pending)
            - pending[index].bytes.len() + segment.bytes.len(),
    decreases pending.len(),
{
    let updated = pending.update(index, segment);
    if index == pending.len() - 1 {
        assert(updated.drop_last() =~= pending.drop_last());
    } else {
        lemma_total_update(pending.drop_last(), index, segment);
        assert(updated.drop_last() =~= pending.drop_last().update(index, segment));
        assert(updated.last() == pending.last());
    }
}

proof fn lemma_total_without(pending: Seq<SegmentView>, index: int)
    requires
        0 <= index < pending.len(),
    ensures
        total_bytes(swap_removed(pending, index)) <= total_bytes(pending),
{
    lemma_total_update(pending, index, pending.last());
    let updated = pending.update(index, pending.last());
    assert(updated.last() == pending.last());
}

pub proof fn lemma_drained_total(state: AssemblerView)
    ensures
        total_bytes(drained(state).state.pending) <= total_bytes(state.pending),
    decreases state.pending.len(),
{
    if let Some(expected) = state.next_sequence {
        let duplicate = first_duplicate(state.pending, expected);
        let reaching = first_reaching(state.pending, expected);
        if duplicate < state.pending.len() {
            lemma_total_without(state.pending, duplicate as int);
            lemma_drained_total(state.without(duplicate as int));
        } else if reaching < state.pending.len() {
            let segment = state.pending[reaching as int];
            lemma_total_without(state.pending, reaching as int);
            lemma_drained_total(
                emitted(state.without(reaching as int), segment.sequence, segment.bytes).state,
            );
        }
    }
}

pub proof fn lemma_skipped_total(state: AssemblerView, index: int, expected: u32, reason: Seq<char>)
    requires
        0 <= index < state.pending.len(),
    ensures
        total_bytes(skipped_to(state, index, expected, reason).state.pending) <= total_bytes(
            state.pending,
        ),
{
    let segment = state.pending[index];
    let gap = gapped(state.without(index), expected, segment.sequence, reason);
    lemma_total_without(state.pending, index);
    lemma_drained_total(emitted(gap.state, segment.sequence, segment.bytes).state);
}

pub proof fn lemma_forced_total(state: AssemblerView, reason: Seq<char>)
    ensures
        total_bytes(forced(state, reason).state.pending) <= total_bytes(state.pending),
{
    let ready = drained(state);
    lemma_drained_total(state);
    if let Some(expected) = ready.state.next_sequence {
        let count = ready.state.pending.len() as int;
        lemma_soonest_lies_ahead(ready.state.pending, expected, None, count);
        let index = soonest(ready.state.pending, expected, None, count);
        if index >= 0 {
            lemma_skipped_total(ready.state, index, expected, reason);
        }
    }
}

/// Skipping ahead keeps a stream well kept.
pub proof fn law_forced_stays_well_kept(state: AssemblerView, reason: Seq<char>)
    requires
        well_kept(state),
    ensures
        well_kept(forced(state, reason).state),
{
    lemma_forced_total(state, reason);
    if state.next_sequence is Some {
        lemma_forced_shrinks(state, reason);
    }
}

proof fn lemma_relieved_within_limits(state: AssemblerView)
    requires
        state.next_sequence is Some,
    ensures
        relieved(state).state.next_sequence is Some,
        !exceeds_stream_limit(relieved(state).state.pending),
    decreases state.pending.len(),
{
    if exceeds_stream_limit(state.pending) {
        let reason = BUFFER_LIMIT_GAP_REASON@;
        assert(state.pending.len() > 0);
        lemma_forced_shrinks(state, reason);
        lemma_relieved_within_limits(forced(state, reason).state);
    }
}

/// Taking a segment in keeps a stream well kept: too many waiting segments are relieved at once.
pub proof fn law_ingest_stays_well_kept(state: AssemblerView, sequence: u32, payload: Seq<u8>)
    requires
        well_kept(state),
    ensures
        well_kept(ingested(state, sequence, payload).state),
{
    let allowed = allowed_length(state.closed_at, sequence, payload.len());
    let bytes = payload.take(allowed as int);
    if allowed > 0 && state.next_sequence is Some {
        let expected = state.next_sequence->0;
        if !seq_after(sequence, expected) {
            let step = emitted(state, sequence, bytes);
            lemma_drained_shrinks(step.state);
            lemma_drained_total(step.state);
        } else {
            lemma_relieved_within_limits(
                AssemblerView {
                    pending: with_pending(state.pending, sequence, bytes),
                    ..state
                },
            );
        }
    }
}

pub proof fn lemma_trimmed_total(pending: Seq<SegmentView>, close: u32)
    ensures
        trimmed(pending, close).len() <= pending.len(),
        total_bytes(trimmed(pending, close)) <= total_bytes(pending),
    decreases pending.len(),
{
    if pending.len() > 0 {
        let rest = trimmed(pending.drop_last(), close);
        lemma_trimmed_total(pending.drop_last(), close);
        let last = pending.last();
        let allowed = allowed_length(Some(close), last.sequence, last.bytes.len());
        if allowed > 0 {
            assert(trimmed(pending, close).drop_last() =~= rest);
        }
    }
}

proof fn lemma_forced_until_keeps(state: AssemblerView, limit: u32, reason: Seq<char>)
    ensures
        forced_until(state, limit, reason).state.pending.len() <= state.pending.len(),
        total_bytes(forced_until(state, limit, reason).state.pending) <= total_bytes(
            state.pending,
        ),
        forced_until(state, limit, reason).state.closed_at == state.closed_at,
        forced_until(state, limit, reason).state.next_sequence is Some
            == state.next_sequence is Some,
    decreases state.pending.len(),
{
    let ready = drained(state);
    lemma_drained_shrinks(state);
    lemma_drained_total(state);
    if let Some(expected) = ready.state.next_sequence {
        let count = ready.state.pending.len() as int;
        lemma_soonest_lies_ahead(ready.state.pending, expected, Some(limit), count);
        let index = soonest(ready.state.pending, expected, Some(limit), count);
        if seq_after(limit, expected) && index >= 0 {
            lemma_skipped_shrinks(ready.state, expected, Some(limit), reason);
            lemma_skipped_total(ready.state, index, expected, reason);
            lemma_forced_until_keeps(
                skipped_to(ready.state, index, expected, reason).state,
                limit,
                reason,
            );
        }
    }
}

/// Closing keeps a stream well kept.
pub proof fn law_close_stays_well_kept(state: AssemblerView, sequence: u32, reason: Seq<char>)
    requires
        well_kept(state),
    ensures
        well_kept(closed(state, sequence, reason).state),
{
    let close = match state.closed_at {
        Some(earlier) => earlier,
        None => sequence,
    };
    let start = AssemblerView {
        closed_at: Some(close),
        pending: trimmed(state.pending, close),
        ..state
    };
    lemma_trimmed_total(state.pending, close);
    lemma_forced_until_keeps(start, close, reason);
    assert(closed(state, sequence, reason) == forced_until(start, close, reason));
}

/// Closing lets nothing more wait than before.
pub proof fn lemma_close_shrinks(state: AssemblerView, sequence: u32, reason: Seq<char>)
    ensures
        closed(state, sequence, reason).state.pending.len() <= state.pending.len(),
        total_bytes(closed(state, sequence, reason).state.pending) <= total_bytes(state.pending),
{
    let close = match state.closed_at {
        Some(earlier) => earlier,
        None => sequence,
    };
    let start = AssemblerView {
        closed_at: Some(close),
        pending: trimmed(state.pending, close),
        ..state
    };
    lemma_trimmed_total(state.pending, close);
    lemma_forced_until_keeps(start, close, reason);
    assert(closed(state, sequence, reason) == forced_until(start, close, reason));
}

/// The first close of a stream stands: closing again, at whatever sequence number, leaves it.
pub proof fn law_first_close_stands(state: AssemblerView, sequence: u32, reason: Seq<char>)
    ensures
        closed(state, sequence, reason).state.closed_at == Some(
            match state.closed_at {
                Some(earlier) => earlier,
                None => sequence,
            },
        ),
{
    let close = match state.closed_at {
        Some(earlier) => earlier,
        None => sequence,
    };
    lemma_forced_until_keeps(
        AssemblerView {
            closed_at: Some(close),
            pending: trimmed(state.pending, close),
            ..state
        },
        close,
        reason,
    );
}

/// A segment that starts at or behind the close of the stream is ignored.
pub proof fn law_nothing_behind_the_close(
    state: AssemblerView,
    sequence: u32,
    payload: Seq<u8>,
)
    requires
        state.closed_at is Some,
        !seq_before(sequence, state.closed_at->0),
    ensures
        ingested(state, sequence, payload) == unchanged(state),
{
}

/// A segment that starts at the expected position, where nothing waits and the stream is not
/// closed, is delivered whole and at once.
pub proof fn law_in_order_segment_is_delivered(
    state: AssemblerView,
    sequence: u32,
    payload: Seq<u8>,
)
    requires
        state.next_sequence is None || state.next_sequence == Some(sequence),
        state.pending.len() == 0,
        state.closed_at is None,
        payload.len() > 0,
    ensures
        ingested(state, sequence, payload).pieces == seq![
            PieceView::Bytes { stream_offset: state.next_offset, bytes: payload },
        ],
        ingested(state, sequence, payload).state.next_sequence == Some(
            seq_advance(sequence, payload.len()),
        ),
{
    law_order(sequence, sequence);
    assert(payload.take(payload.len() as int) =~= payload);
    assert(payload.skip(0) =~= payload);
    let step = emitted(state, sequence, payload);
    assert(step.pieces + Seq::<PieceView>::empty() =~= step.pieces);
}

} // verus!
