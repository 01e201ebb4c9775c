//! No octet that arrived is lost: it is delivered, or it waits.
//!
//! An octet is told by how far it lies ahead of the expected position.
use vstd::prelude::*;

use crate::libpcap::stream::assembly::{
    allowed_length, closed, drained, emitted, exceeds_stream_limit, first_duplicate, first_reaching,
    first_with_sequence, flushed, forced, forced_until, gapped, ingested, lemma_skipped_shrinks,
    lemma_soonest_lies_ahead, offset_sum, relieved, skipped_to, soonest, swap_removed, total_bytes,
    trimmed, unchanged, with_pending, Assembled, AssemblerView, PieceView, SegmentView,
    BUFFER_LIMIT_GAP_REASON,
};
use crate::libpcap::stream::laws::{
    delivers, law_close_delivers, law_flush_delivers, law_flush_leaves_nothing_waiting,
    law_forced_delivers, lemma_forced_shrinks, lemma_position_satisfies, lemma_relieved_delivers,
    lemma_total_update, lemma_trimmed_total, piece_end, piece_start, tiled,
};
use crate::libpcap::tcp_seq::{seq_advance, seq_after, seq_before, seq_distance};

verus! {

/// Half the circle of sequence numbers.
pub open spec fn half() -> int {
    0x8000_0000
}

/// How far a sequence number lies ahead of another one.
#[verifier::opaque]
pub open spec fn place_of(base: u32, sequence: u32) -> int {
    seq_distance(base, sequence) as int
}

/// The sequence number that lies so far ahead of another one.
#[verifier::opaque]
pub open spec fn place_at(base: u32, ahead: int) -> u32 {
    seq_advance(base, ahead as nat)
}

proof fn lemma_place(base: u32, sequence: u32)
    ensures
        place_of(base, sequence) == seq_distance(base, sequence),
        0 <= place_of(base, sequence) < 0x1_0000_0000,
        place_at(base, place_of(base, sequence)) == sequence,
        place_of(base, base) == 0,
        place_at(base, 0) == base,
{
    reveal(place_of);
    reveal(place_at);
}

/// Places are told from a base that lies behind, or ahead of it.
proof fn lemma_place_moves(base: u32, ahead: int, sequence: u32)
    requires
        0 <= ahead < 0x1_0000_0000,
    ensures
        place_of(base, place_at(base, ahead)) == ahead,
        ahead <= place_of(base, sequence) ==> place_of(place_at(base, ahead), sequence) == place_of(
            base,
            sequence,
        ) - ahead,
        ahead + place_of(place_at(base, ahead), sequence) < 0x1_0000_0000 ==> place_of(
            base,
            sequence,
        ) == ahead + place_of(place_at(base, ahead), sequence),
{
    reveal(place_of);
    reveal(place_at);
}

proof fn lemma_place_adds(base: u32, first: int, second: int)
    requires
        0 <= first,
        0 <= second,
    ensures
        place_at(place_at(base, first), second) == place_at(base, first + second),
{
    reveal(place_at);
}

/// What lies ahead by at most half a circle comes after.
proof fn lemma_ahead_comes_after(expected: u32, sequence: u32)
    ensures
        0 < place_of(expected, sequence) <= half() <==> seq_after(sequence, expected),
        !seq_after(sequence, expected) ==> 0 <= place_of(sequence, expected) < half(),
        !seq_after(sequence, expected) ==> seq_before(sequence, expected) || sequence == expected,
{
    reveal(place_of);
}

/// Whether a waiting segment holds the octet that lies `ahead` octets ahead of `expected`.
pub open spec fn waits_at(pending: Seq<SegmentView>, expected: u32, ahead: int) -> bool {
    exists|index: int|
        0 <= index < pending.len() && holds_octet(#[trigger] pending[index], expected, ahead)
}

pub open spec fn holds_octet(segment: SegmentView, expected: u32, ahead: int) -> bool {
    let start = place_of(expected, segment.sequence);
    start <= ahead < start + segment.bytes.len()
}

/// Whether the octet at an offset is among those delivered.
pub open spec fn delivered_at(pieces: Seq<PieceView>, offset: int) -> bool {
    exists|index: int| 0 <= index < pieces.len() && brings(#[trigger] pieces[index], offset)
}

pub open spec fn brings(piece: PieceView, offset: int) -> bool {
    match piece {
        PieceView::Bytes { stream_offset, bytes } => stream_offset <= offset < stream_offset
            + bytes.len(),
        PieceView::Gap { .. } => false,
    }
}

/// Whether the octet at an offset is among those reported as missing.
pub open spec fn missed_at(pieces: Seq<PieceView>, offset: int) -> bool {
    exists|index: int| 0 <= index < pieces.len() && misses(#[trigger] pieces[index], offset)
}

pub open spec fn misses(piece: PieceView, offset: int) -> bool {
    match piece {
        PieceView::Bytes { .. } => false,
        PieceView::Gap { expected_offset, next_offset, .. } => expected_offset <= offset && (
        match next_offset {
            Some(next) => offset < next,
            None => true,
        }),
    }
}

/// Whether all that waits lies ahead of the expected position, by at most half a circle, and is
/// less than that together. No empty segment waits, and nothing before the first segment.
pub open spec fn waits_ahead(state: AssemblerView) -> bool {
    match state.next_sequence {
        None => state.pending.len() == 0,
        Some(expected) => total_bytes(state.pending) < half() && forall|index: int|
            0 <= index < state.pending.len() ==> state.pending[index].bytes.len() > 0 && 0
                < place_of(expected, (#[trigger] state.pending[index]).sequence) <= half(),
    }
}

/// Whether no octet that waited in `state` is lost in `result`: each is delivered at its offset, or
/// still waits. This holds as long as offsets are not exhausted.
pub open spec fn loses_nothing(state: AssemblerView, result: Assembled) -> bool {
    forall|ahead: int| #[trigger]
        waits_at(state.pending, state.next_sequence->0, ahead) ==> is_kept(state, result, ahead)
}

/// Whether the octet that lies `ahead` octets ahead of the expected position of `state` is delivered
/// at its offset by `result`, or waits then.
pub open spec fn is_kept(state: AssemblerView, result: Assembled, ahead: int) -> bool {
    delivered_at(result.pieces, state.next_offset + ahead) || waits_at(
        result.state.pending,
        result.state.next_sequence->0,
        ahead - (result.state.next_offset - state.next_offset),
    )
}

spec fn anything() -> spec_fn(u32, u8) -> bool {
    |sequence: u32, octet: u8| true
}

proof fn lemma_delivered_first(first: Seq<PieceView>, second: Seq<PieceView>, offset: int)
    requires
        delivered_at(first, offset),
    ensures
        delivered_at(first + second, offset),
{
    let index = choose|index: int|
        0 <= index < first.len() && brings(#[trigger] first[index], offset);
    assert((first + second)[index] == first[index]);
}

proof fn lemma_delivered_second(first: Seq<PieceView>, second: Seq<PieceView>, offset: int)
    requires
        delivered_at(second, offset),
    ensures
        delivered_at(first + second, offset),
{
    let index = choose|index: int|
        0 <= index < second.len() && brings(#[trigger] second[index], offset);
    assert((first + second)[first.len() + index] == second[index]);
}

/// Of two steps that lose nothing, the whole loses nothing.
proof fn lemma_nothing_lost_in_two_steps(state: AssemblerView, first: Assembled, second: Assembled)
    requires
        loses_nothing(state, first),
        loses_nothing(first.state, second),
    ensures
        loses_nothing(state, second.preceded_by(first.pieces)),
{
    let result = second.preceded_by(first.pieces);
    assert forall|ahead: int| #[trigger]
        waits_at(state.pending, state.next_sequence->0, ahead) implies delivered_at(
        result.pieces,
        state.next_offset + ahead,
    ) || waits_at(
        result.state.pending,
        result.state.next_sequence->0,
        ahead - (result.state.next_offset - state.next_offset),
    ) by {
        let offset = state.next_offset + ahead;
        if delivered_at(first.pieces, offset) {
            lemma_delivered_first(first.pieces, second.pieces, offset);
        } else {
            let moved = first.state.next_offset - state.next_offset;
            assert(waits_at(first.state.pending, first.state.next_sequence->0, ahead - moved));
            if delivered_at(second.pieces, first.state.next_offset + (ahead - moved)) {
                lemma_delivered_second(first.pieces, second.pieces, offset);
            }
        }
    }
}

proof fn lemma_total_without_exactly(pending: Seq<SegmentView>, index: int)
    requires
        0 <= index < pending.len(),
    ensures
        total_bytes(swap_removed(pending, index)) == total_bytes(pending)
            - pending[index].bytes.len(),
{
    lemma_total_update(pending, index, pending.last());
    let updated = pending.update(index, pending.last());
    assert(updated.last() == pending.last());
}

proof fn lemma_total_holds_each(pending: Seq<SegmentView>, index: int)
    requires
        0 <= index < pending.len(),
    ensures
        pending[index].bytes.len() <= total_bytes(pending),
{
    lemma_total_without_exactly(pending, index);
}

proof fn lemma_waits_elsewhere(
    pending: Seq<SegmentView>,
    index: int,
    expected: u32,
    ahead: int,
)
    requires
        0 <= index < pending.len(),
        waits_at(pending, expected, ahead),
    ensures
        holds_octet(pending[index], expected, ahead) || waits_at(
            swap_removed(pending, index),
            expected,
            ahead,
        ),
{
    let rest = swap_removed(pending, index);
    let place = choose|place: int|
        0 <= place < pending.len() && holds_octet(#[trigger] pending[place], expected, ahead);
    if place != index {
        if place == pending.len() - 1 {
            assert(rest[index] == pending[place]);
        } else {
            assert(rest[place] == pending[place]);
        }
    }
}

/// Whether all that waits begins less than half a circle ahead of `base`, is not empty, and ends
/// within `bound`.
spec fn near(pending: Seq<SegmentView>, base: u32, bound: int) -> bool {
    forall|index: int|
        0 <= index < pending.len() ==> is_near(#[trigger] pending[index], base, bound)
}

spec fn is_near(segment: SegmentView, base: u32, bound: int) -> bool {
    &&& segment.bytes.len() > 0
    &&& place_of(base, segment.sequence) < half()
    &&& place_of(base, segment.sequence) + segment.bytes.len() <= bound
}

proof fn lemma_near_without(pending: Seq<SegmentView>, index: int, base: u32, bound: int)
    requires
        0 <= index < pending.len(),
        near(pending, base, bound),
    ensures
        near(swap_removed(pending, index), base, bound),
{
    let rest = swap_removed(pending, index);
    assert forall|place: int| 0 <= place < rest.len() implies is_near(
        #[trigger] rest[place],
        base,
        bound,
    ) by {
        if place == index {
            assert(rest[place] == pending[pending.len() - 1]);
        } else {
            assert(rest[place] == pending[place]);
        }
    }
}

/// How a segment lies to the expected position, told by how far both are ahead of `base`.
proof fn lemma_places(segment: SegmentView, base: u32, at: int)
    requires
        place_of(base, segment.sequence) < half(),
        segment.bytes.len() < half(),
        0 <= at < half(),
    ensures
        ({
            let expected = place_at(base, at);
            let start = place_of(base, segment.sequence);
            let end = start + segment.bytes.len();
            &&& 0 <= start
            &&& segment.is_duplicate(expected) <==> end <= at
            &&& segment.reaches(expected) <==> start <= at < end
        }),
{
    let expected = place_at(base, at);
    lemma_place(base, segment.sequence);
    lemma_start_is_after(base, segment.sequence, at);
    if place_of(base, segment.sequence) <= at {
        lemma_end_is_after(base, segment.sequence, segment.bytes.len(), at);
    }
}

proof fn lemma_start_is_after(base: u32, sequence: u32, at: int)
    requires
        0 <= place_of(base, sequence) < half(),
        0 <= at < half(),
    ensures
        seq_after(sequence, place_at(base, at)) <==> at < place_of(base, sequence),
{
    reveal(place_of);
    reveal(place_at);
}

proof fn lemma_end_is_after(base: u32, sequence: u32, length: nat, at: int)
    requires
        0 <= place_of(base, sequence) <= at < half(),
        length < half(),
    ensures
        seq_after(seq_advance(sequence, length), place_at(base, at)) <==> at < place_of(
            base,
            sequence,
        ) + length,
{
    let start = place_of(base, sequence);
    lemma_place(base, sequence);
    lemma_place_steps(base, start, length);
    lemma_places_apart(base, start + length, at);
}

proof fn lemma_places_apart(base: u32, first: int, second: int)
    requires
        0 <= first,
        0 <= second,
    ensures
        seq_distance(place_at(base, first), place_at(base, second)) == (second - first)
            % 0x1_0000_0000,
{
    reveal(place_at);
    vstd::arithmetic::div_mod::lemma_sub_mod_noop(base + second, base + first, 0x1_0000_0000);
}

proof fn lemma_between(base: u32, sequence: u32, at: int)
    requires
        0 <= place_of(base, sequence) <= at < half(),
    ensures
        seq_before(sequence, place_at(base, at)) <==> place_of(base, sequence) < at,
        place_of(base, sequence) < at ==> seq_distance(sequence, place_at(base, at)) == at
            - place_of(base, sequence),
{
    reveal(place_of);
    reveal(place_at);
}

proof fn lemma_place_steps(base: u32, at: int, steps: nat)
    requires
        0 <= at,
    ensures
        seq_advance(place_at(base, at), steps) == place_at(base, at + steps),
{
    reveal(place_at);
}

/// A segment that reaches the expected position brings what it has from there on.
proof fn lemma_emitted_from(
    state: AssemblerView,
    sequence: u32,
    bytes: Seq<u8>,
    base: u32,
    at: int,
)
    requires
        state.next_sequence == Some(place_at(base, at)),
        0 <= place_of(base, sequence) <= at < place_of(base, sequence) + bytes.len(),
        at < half(),
    ensures
        ({
            let start = place_of(base, sequence);
            let end = start + bytes.len();
            emitted(state, sequence, bytes) == (Assembled {
                state: AssemblerView {
                    next_sequence: Some(place_at(base, end)),
                    next_offset: offset_sum(state.next_offset, (end - at) as nat),
                    ..state
                },
                pieces: seq![
                    PieceView::Bytes {
                        stream_offset: state.next_offset,
                        bytes: bytes.skip(at - start),
                    },
                ],
            })
        }),
{
    let start = place_of(base, sequence);
    let expected = place_at(base, at);
    let end = start + bytes.len();
    lemma_between(base, sequence, at);
    lemma_place_steps(base, at, (end - at) as nat);
    assert(bytes.skip(at - start).len() == end - at);
}

/// A segment that starts at the expected position brings all it has.
proof fn lemma_emitted_whole(state: AssemblerView, base: u32, bytes: Seq<u8>)
    requires
        state.next_sequence == Some(base),
    ensures
        emitted(state, base, bytes) == (Assembled {
            state: AssemblerView {
                next_sequence: Some(place_at(base, bytes.len() as int)),
                next_offset: offset_sum(state.next_offset, bytes.len()),
                ..state
            },
            pieces: if bytes.len() > 0 {
                seq![PieceView::Bytes { stream_offset: state.next_offset, bytes }]
            } else {
                Seq::empty()
            },
        }),
{
    lemma_place(base, base);
    if bytes.len() > 0 {
        lemma_emitted_from(state, base, bytes, base, 0);
        assert(bytes.skip(0) =~= bytes);
    } else {
        assert(!seq_before(base, base));
    }
}

/// Either a duplicate waits, or a segment that reaches the expected position, or all that waits
/// lies ahead.
proof fn lemma_what_is_ready(state: AssemblerView, base: u32, at: int, bound: int)
    requires
        0 <= at,
        at + total_bytes(state.pending) < half(),
        near(state.pending, base, bound),
    ensures
        ({
            let expected = place_at(base, at);
            let duplicate = first_duplicate(state.pending, expected) as int;
            let reaching = first_reaching(state.pending, expected) as int;
            let found = state.pending[duplicate];
            let reached = state.pending[reaching];
            &&& duplicate < state.pending.len() ==> place_of(base, found.sequence)
                + found.bytes.len() <= at
            &&& reaching < state.pending.len() ==> place_of(base, reached.sequence) <= at
                < place_of(base, reached.sequence) + reached.bytes.len()
            &&& duplicate >= state.pending.len() && reaching >= state.pending.len() ==> forall|
                index: int,
            |
                0 <= index < state.pending.len() ==> at < place_of(
                    base,
                    (#[trigger] state.pending[index]).sequence,
                )
        }),
{
    let expected = place_at(base, at);
    let unwanted = |segment: SegmentView| segment.is_duplicate(expected);
    let wanted = |segment: SegmentView| segment.reaches(expected);
    lemma_position_satisfies(state.pending, unwanted);
    lemma_position_satisfies(state.pending, wanted);
    assert forall|index: int| 0 <= index < state.pending.len() implies {
        let segment = #[trigger] state.pending[index];
        let start = place_of(base, segment.sequence);
        let end = start + segment.bytes.len();
        &&& 0 <= start
        &&& segment.is_duplicate(expected) <==> end <= at
        &&& segment.reaches(expected) <==> start <= at < end
    } by {
        assert(is_near(state.pending[index], base, bound));
        lemma_total_holds_each(state.pending, index);
        lemma_places(state.pending[index], base, at);
    }
    let duplicate = first_duplicate(state.pending, expected) as int;
    let reaching = first_reaching(state.pending, expected) as int;
    if duplicate >= state.pending.len() && reaching >= state.pending.len() {
        assert forall|index: int| 0 <= index < state.pending.len() implies at < place_of(
            base,
            (#[trigger] state.pending[index]).sequence,
        ) by {
            assert(!unwanted(state.pending[index]));
            assert(!wanted(state.pending[index]));
        }
    }
}

/// Draining loses nothing that lies behind the expected position.
proof fn lemma_drained_loses_nothing(state: AssemblerView, base: u32, at: int, bound: int)
    requires
        0 <= at <= bound,
        state.next_sequence == Some(place_at(base, at)),
        at + total_bytes(state.pending) < half(),
        near(state.pending, base, bound),
    ensures
        drained(state).state.next_offset >= state.next_offset,
        drained(state).state.next_offset < u64::MAX ==> is_drained_of(
            state,
            base,
            at,
            bound,
            drained(state),
        ),
    decreases state.pending.len(),
{
    let expected = place_at(base, at);
    let duplicate = first_duplicate(state.pending, expected);
    let reaching = first_reaching(state.pending, expected);
    lemma_what_is_ready(state, base, at, bound);
    let result = drained(state);
    if duplicate < state.pending.len() {
        let index = duplicate as int;
        lemma_total_without_exactly(state.pending, index);
        lemma_near_without(state.pending, index, base, bound);
        let rest = state.without(index);
        lemma_drained_loses_nothing(rest, base, at, bound);
        assert(result == drained(rest));
        if result.state.next_offset < u64::MAX {
            assert forall|ahead: int|
                ahead >= at && #[trigger] waits_at(state.pending, base, ahead) implies delivered_at(
                result.pieces,
                state.next_offset + (ahead - at),
            ) || waits_at(result.state.pending, base, ahead) by {
                lemma_waits_elsewhere(state.pending, index, base, ahead);
                assert(waits_at(rest.pending, base, ahead));
            }
        }
    } else if reaching < state.pending.len() {
        let index = reaching as int;
        let segment = state.pending[index];
        assert(is_near(segment, base, bound));
        lemma_place(base, segment.sequence);
        lemma_total_without_exactly(state.pending, index);
        lemma_near_without(state.pending, index, base, bound);
        let rest = state.without(index);
        let step = emitted(rest, segment.sequence, segment.bytes);
        let start = place_of(base, segment.sequence);
        let end = start + segment.bytes.len();
        lemma_emitted_from(rest, segment.sequence, segment.bytes, base, at);
        lemma_drained_loses_nothing(step.state, base, end, bound);
        let more = drained(step.state);
        assert(result == more.preceded_by(step.pieces));
        if result.state.next_offset < u64::MAX {
            assert(step.state.next_offset == state.next_offset + (end - at));
            assert forall|ahead: int|
                ahead >= at && #[trigger] waits_at(state.pending, base, ahead) implies delivered_at(
                result.pieces,
                state.next_offset + (ahead - at),
            ) || waits_at(result.state.pending, base, ahead) by {
                if ahead < end {
                    assert(brings(step.pieces[0], state.next_offset + (ahead - at)));
                    lemma_delivered_first(
                        step.pieces,
                        more.pieces,
                        state.next_offset + (ahead - at),
                    );
                } else {
                    lemma_waits_elsewhere(state.pending, index, base, ahead);
                    assert(waits_at(step.state.pending, base, ahead));
                    if delivered_at(more.pieces, step.state.next_offset + (ahead - end)) {
                        lemma_delivered_second(
                            step.pieces,
                            more.pieces,
                            state.next_offset + (ahead - at),
                        );
                    }
                }
            }
        }
    } else {
        assert(result == unchanged(state));
    }
}

/// What draining brings about, from the expected position `at` on.
spec fn is_drained_of(
    state: AssemblerView,
    base: u32,
    at: int,
    bound: int,
    result: Assembled,
) -> bool {
    let moved = result.state.next_offset - state.next_offset;
    &&& result.state.next_sequence == Some(place_at(base, at + moved))
    &&& at + moved <= bound
    &&& at + moved + total_bytes(result.state.pending) < half()
    &&& near(result.state.pending, base, bound)
    &&& forall|index: int|
        0 <= index < result.state.pending.len() ==> at + moved < place_of(
            base,
            (#[trigger] result.state.pending[index]).sequence,
        )
    &&& forall|ahead: int|
        ahead >= at && #[trigger] waits_at(state.pending, base, ahead) ==> delivered_at(
            result.pieces,
            state.next_offset + (ahead - at),
        ) || waits_at(result.state.pending, base, ahead)
}

/// Nothing is ready where all that waits lies ahead.
proof fn lemma_nothing_is_ready(state: AssemblerView)
    requires
        waits_ahead(state),
    ensures
        drained(state) == unchanged(state),
{
    if let Some(expected) = state.next_sequence {
        let unwanted = |segment: SegmentView| segment.is_duplicate(expected);
        let wanted = |segment: SegmentView| segment.reaches(expected);
        lemma_position_satisfies(state.pending, unwanted);
        lemma_position_satisfies(state.pending, wanted);
        let duplicate = first_duplicate(state.pending, expected) as int;
        let reaching = first_reaching(state.pending, expected) as int;
        if duplicate < state.pending.len() {
            lemma_ahead_comes_after(expected, state.pending[duplicate].sequence);
            assert(unwanted(state.pending[duplicate]));
        }
        if reaching < state.pending.len() {
            lemma_ahead_comes_after(expected, state.pending[reaching].sequence);
            assert(wanted(state.pending[reaching]));
        }
    }
}

/// The segment that comes soonest is no farther ahead than any other one.
pub proof fn law_soonest_is_nearest(
    pending: Seq<SegmentView>,
    expected: u32,
    limit: Option<u32>,
    count: int,
)
    requires
        count <= pending.len(),
    ensures
        ({
            let best = soonest(pending, expected, limit, count);
            forall|index: int|
                0 <= index < count && (#[trigger] pending[index]).lies_ahead(expected, limit)
                    ==> best >= 0 && seq_distance(expected, pending[best].sequence)
                    <= seq_distance(expected, pending[index].sequence)
        }),
    decreases count,
{
    if count > 0 {
        law_soonest_is_nearest(pending, expected, limit, count - 1);
        lemma_soonest_lies_ahead(pending, expected, limit, count - 1);
    }
}

/// Skipping to the nearest segment loses nothing.
proof fn lemma_skipped_loses_nothing(
    state: AssemblerView,
    index: int,
    reason: Seq<char>,
    bound: int,
)
    requires
        state.next_sequence is Some,
        waits_ahead(state),
        0 <= index < state.pending.len(),
        forall|other: int|
            0 <= other < state.pending.len() ==> place_of(
                state.next_sequence->0,
                state.pending[index].sequence,
            ) <= place_of(
                state.next_sequence->0,
                (#[trigger] state.pending[other]).sequence,
            ) && place_of(state.next_sequence->0, state.pending[other].sequence)
                + state.pending[other].bytes.len() <= bound,
        skipped_to(state, index, state.next_sequence->0, reason).state.next_offset < u64::MAX,
    ensures
        ({
            let result = skipped_to(state, index, state.next_sequence->0, reason);
            let moved = result.state.next_offset - state.next_offset;
            &&& loses_nothing(state, result)
            &&& waits_ahead(result.state)
            &&& 0 < moved <= bound
            &&& moved < 0x1_0000_0000
            &&& result.state.next_sequence == Some(place_at(state.next_sequence->0, moved))
            &&& forall|other: int|
                0 <= other < result.state.pending.len() ==> moved + place_of(
                    result.state.next_sequence->0,
                    (#[trigger] result.state.pending[other]).sequence,
                ) + result.state.pending[other].bytes.len() <= bound
        }),
{
    let expected = state.next_sequence->0;
    let segment = state.pending[index];
    let rest = state.without(index);
    let base = segment.sequence;
    let gap = gapped(rest, expected, base, reason);
    let step = emitted(gap.state, base, segment.bytes);
    let more = drained(step.state);
    let result = skipped_to(state, index, expected, reason);
    let length = segment.bytes.len() as int;
    let start = place_of(expected, base);
    lemma_place(expected, base);
    lemma_place(base, base);
    lemma_total_without_exactly(state.pending, index);
    lemma_emitted_whole(gap.state, base, segment.bytes);
    assert forall|other: int| 0 <= other < rest.pending.len() implies place_of(
        base,
        (#[trigger] rest.pending[other]).sequence,
    ) == place_of(expected, rest.pending[other].sequence) - start && is_near(
        rest.pending[other],
        base,
        bound - start,
    ) by {
        let origin = if other == index {
            state.pending.len() - 1
        } else {
            other
        };
        assert(rest.pending[other] == state.pending[origin]);
        lemma_place(expected, state.pending[origin].sequence);
        lemma_place_moves(expected, start, state.pending[origin].sequence);
    }
    assert(near(step.state.pending, base, bound - start));
    assert(state.pending[index] == segment);
    lemma_drained_loses_nothing(step.state, base, length, bound - start);
    assert(result == more.preceded_by(gap.pieces + step.pieces));
    assert(gap.state.next_offset == state.next_offset + start);
    assert(step.state.next_offset == gap.state.next_offset + length);
    let moved = result.state.next_offset - state.next_offset;
    let at = length + (more.state.next_offset - step.state.next_offset);
    assert(moved == start + at);
    lemma_place_adds(expected, start, at);
    let reached = result.state.next_sequence->0;
    assert(reached == place_at(base, at) && reached == place_at(expected, moved));
    assert forall|other: int| 0 <= other < result.state.pending.len() implies 0 < place_of(
        reached,
        (#[trigger] result.state.pending[other]).sequence,
    ) <= half() && moved + place_of(reached, result.state.pending[other].sequence) == start
        + place_of(base, result.state.pending[other].sequence) && is_near(
        result.state.pending[other],
        base,
        bound - start,
    ) by {
        lemma_place_moves(base, at, result.state.pending[other].sequence);
    }
    let first = gap.pieces + step.pieces;
    assert forall|ahead: int| #[trigger] waits_at(state.pending, expected, ahead) implies delivered_at(
        result.pieces,
        state.next_offset + ahead,
    ) || waits_at(result.state.pending, reached, ahead - moved) by {
        lemma_waits_elsewhere(state.pending, index, expected, ahead);
        let offset = state.next_offset + ahead;
        let place = choose|place: int|
            0 <= place < state.pending.len() && holds_octet(
                #[trigger] state.pending[place],
                expected,
                ahead,
            );
        assert(ahead >= start);
        if ahead < start + length {
            assert(brings(step.pieces[0], offset));
            assert(first[gap.pieces.len() as int] == step.pieces[0]);
            lemma_delivered_first(first, more.pieces, offset);
        } else {
            let other = choose|other: int|
                0 <= other < rest.pending.len() && holds_octet(
                    #[trigger] rest.pending[other],
                    expected,
                    ahead,
                );
            assert(holds_octet(step.state.pending[other], base, ahead - start));
            assert(waits_at(step.state.pending, base, ahead - start));
            if delivered_at(more.pieces, step.state.next_offset + (ahead - start - length)) {
                lemma_delivered_second(first, more.pieces, offset);
            } else {
                let kept = choose|kept: int|
                    0 <= kept < result.state.pending.len() && holds_octet(
                        #[trigger] result.state.pending[kept],
                        base,
                        ahead - start,
                    );
                assert(holds_octet(result.state.pending[kept], reached, ahead - moved));
            }
        }
    }
}

/// No bound at all, for segments that wait.
spec fn no_bound() -> int {
    0x2_0000_0000
}

proof fn lemma_all_within_no_bound(state: AssemblerView, other: int)
    requires
        state.next_sequence is Some,
        waits_ahead(state),
        0 <= other < state.pending.len(),
    ensures
        place_of(state.next_sequence->0, state.pending[other].sequence)
            + state.pending[other].bytes.len() <= no_bound(),
{
    lemma_total_holds_each(state.pending, other);
}

/// Skipping ahead, as when too much waits, loses nothing.
pub proof fn law_forced_loses_nothing(state: AssemblerView, reason: Seq<char>)
    requires
        state.next_sequence is Some,
        waits_ahead(state),
        forced(state, reason).state.next_offset < u64::MAX,
    ensures
        loses_nothing(state, forced(state, reason)),
        waits_ahead(forced(state, reason).state),
{
    let expected = state.next_sequence->0;
    let count = state.pending.len() as int;
    lemma_nothing_is_ready(state);
    lemma_soonest_lies_ahead(state.pending, expected, None, count);
    law_soonest_is_nearest(state.pending, expected, None, count);
    let index = soonest(state.pending, expected, None, count);
    let nothing = Seq::<PieceView>::empty();
    if index >= 0 {
        assert forall|other: int| 0 <= other < count implies place_of(
            expected,
            state.pending[index].sequence,
        ) <= place_of(expected, (#[trigger] state.pending[other]).sequence) && place_of(
            expected,
            state.pending[other].sequence,
        ) + state.pending[other].bytes.len() <= no_bound() by {
            lemma_ahead_comes_after(expected, state.pending[other].sequence);
            lemma_place(expected, state.pending[other].sequence);
            lemma_place(expected, state.pending[index].sequence);
            assert(state.pending[other].lies_ahead(expected, None));
            lemma_all_within_no_bound(state, other);
        }
        let step = skipped_to(state, index, expected, reason);
        assert(nothing + step.pieces =~= step.pieces);
        assert(forced(state, reason) == step);
        lemma_skipped_loses_nothing(state, index, reason, no_bound());
    } else {
        assert(forced(state, reason) == unchanged(state));
    }
}

proof fn lemma_offsets_rise(state: AssemblerView, reason: Seq<char>)
    requires
        state.next_sequence is Some,
    ensures
        flushed(state, reason).state.next_offset >= state.next_offset,
        forced(state, reason).state.next_offset >= state.next_offset,
        relieved(state).state.next_offset >= state.next_offset,
{
    law_flush_delivers(state, reason, anything());
    law_forced_delivers(state, reason, anything());
    lemma_relieved_delivers(state, anything());
}

proof fn lemma_flushed_loses_nothing(state: AssemblerView, reason: Seq<char>)
    requires
        state.next_sequence is Some,
        waits_ahead(state),
        flushed(state, reason).state.next_offset < u64::MAX,
    ensures
        loses_nothing(state, flushed(state, reason)),
    decreases state.pending.len(),
{
    let step = forced(state, reason);
    lemma_forced_shrinks(state, reason);
    lemma_offsets_rise(step.state, reason);
    if step.state.pending.len() == 0 || step.state.pending.len() >= state.pending.len() {
        law_forced_loses_nothing(state, reason);
    } else {
        law_forced_loses_nothing(state, reason);
        lemma_flushed_loses_nothing(step.state, reason);
        lemma_nothing_lost_in_two_steps(state, step, flushed(step.state, reason));
    }
}

/// Flushing loses nothing, and then all that waits lies ahead.
pub proof fn lemma_flush_keeps_octets(state: AssemblerView, reason: Seq<char>)
    requires
        state.next_sequence is Some,
        waits_ahead(state),
        flushed(state, reason).state.next_offset < u64::MAX,
    ensures
        loses_nothing(state, flushed(state, reason)),
        waits_ahead(flushed(state, reason).state),
{
    lemma_flushed_loses_nothing(state, reason);
    law_flush_leaves_nothing_waiting(state, reason);
}

/// Pieces that cover a stretch do not overlap.
proof fn lemma_tiles_are_apart(pieces: Seq<PieceView>, start: int, end: int, offset: int)
    requires
        tiled(pieces, start, end),
        delivered_at(pieces, offset),
    ensures
        !missed_at(pieces, offset),
        start <= offset < end,
    decreases pieces.len(),
{
    if pieces.len() > 0 {
        let last = pieces.last();
        let shorter = pieces.drop_last();
        let middle = piece_start(last) as int;
        lemma_tiles_in_order(shorter, start, middle);
        let place = choose|place: int|
            0 <= place < pieces.len() && brings(#[trigger] pieces[place], offset);
        if place < shorter.len() {
            assert(shorter[place] == pieces[place]);
            lemma_tiles_are_apart(shorter, start, middle, offset);
            if missed_at(pieces, offset) {
                let gap = choose|gap: int|
                    0 <= gap < pieces.len() && misses(#[trigger] pieces[gap], offset);
                if gap < shorter.len() {
                    assert(misses(shorter[gap], offset));
                } else {
                    assert(pieces[gap] == last);
                }
            }
        } else {
            assert(pieces[place] == last);
            assert(piece_start(last) <= offset);
            if missed_at(pieces, offset) {
                let gap = choose|gap: int|
                    0 <= gap < pieces.len() && misses(#[trigger] pieces[gap], offset);
                if gap < shorter.len() {
                    assert(shorter[gap] == pieces[gap]);
                    assert(piece_end(shorter[gap]) <= middle);
                    assert(piece_start(shorter[gap]) < piece_end(shorter[gap]));
                }
            }
        }
        assert(start <= middle);
    }
}

proof fn lemma_tiles_in_order(pieces: Seq<PieceView>, start: int, end: int)
    requires
        tiled(pieces, start, end),
    ensures
        start <= end,
        forall|index: int|
            0 <= index < pieces.len() ==> piece_start(#[trigger] pieces[index]) < piece_end(
                pieces[index],
            ) <= end,
    decreases pieces.len(),
{
    if pieces.len() > 0 {
        let shorter = pieces.drop_last();
        lemma_tiles_in_order(shorter, start, piece_start(pieces.last()) as int);
        assert forall|index: int| 0 <= index < pieces.len() implies piece_start(
            #[trigger] pieces[index],
        ) < piece_end(pieces[index]) <= end by {
            if index < shorter.len() {
                assert(pieces[index] == shorter[index]);
            }
        }
    }
}

/// Flushing delivers every octet that waits, at its offset, and reports none of them as missing:
/// a gap stands only for octets that never arrived. This holds as long as offsets are not
/// exhausted.
pub proof fn law_flush_misses_nothing_that_waits(
    state: AssemblerView,
    reason: Seq<char>,
    ahead: int,
)
    requires
        state.next_sequence is Some,
        waits_ahead(state),
        flushed(state, reason).state.next_offset < u64::MAX,
        waits_at(state.pending, state.next_sequence->0, ahead),
    ensures
        delivered_at(flushed(state, reason).pieces, state.next_offset + ahead),
        !missed_at(flushed(state, reason).pieces, state.next_offset + ahead),
{
    let result = flushed(state, reason);
    lemma_flushed_loses_nothing(state, reason);
    law_flush_leaves_nothing_waiting(state, reason);
    law_flush_delivers(state, reason, anything());
    lemma_tiles_are_apart(
        result.pieces,
        state.next_offset as int,
        result.state.next_offset as int,
        state.next_offset + ahead,
    );
}

/// Skipping ahead reports no octet as missing that waits: each one is delivered or still waits
/// behind what was delivered.
pub proof fn law_forced_misses_nothing_that_waits(
    state: AssemblerView,
    reason: Seq<char>,
    ahead: int,
)
    requires
        state.next_sequence is Some,
        waits_ahead(state),
        forced(state, reason).state.next_offset < u64::MAX,
        waits_at(state.pending, state.next_sequence->0, ahead),
    ensures
        !missed_at(forced(state, reason).pieces, state.next_offset + ahead),
{
    let result = forced(state, reason);
    law_forced_loses_nothing(state, reason);
    law_forced_delivers(state, reason, anything());
    lemma_missed_is_gone(state, result, ahead);
}

proof fn lemma_missed_is_gone(state: AssemblerView, result: Assembled, ahead: int)
    requires
        state.next_sequence is Some,
        loses_nothing(state, result),
        result.state.next_offset < u64::MAX,
        delivers(state.next_sequence->0, state.next_offset, result, anything()),
        waits_at(state.pending, state.next_sequence->0, ahead),
    ensures
        !missed_at(result.pieces, state.next_offset + ahead),
{
    let offset = state.next_offset + ahead;
    let start = state.next_offset as int;
    let end = result.state.next_offset as int;
    if delivered_at(result.pieces, offset) {
        lemma_tiles_are_apart(result.pieces, start, end, offset);
    } else {
        let moved = end - start;
        let reached = result.state.next_sequence->0;
        assert(waits_at(result.state.pending, reached, ahead - moved));
        let kept = choose|kept: int|
            0 <= kept < result.state.pending.len() && holds_octet(
                #[trigger] result.state.pending[kept],
                reached,
                ahead - moved,
            );
        lemma_place(reached, result.state.pending[kept].sequence);
        lemma_tiles_in_order(result.pieces, start, end);
        if missed_at(result.pieces, offset) {
            let gap = choose|gap: int|
                0 <= gap < result.pieces.len() && misses(#[trigger] result.pieces[gap], offset);
            assert(piece_end(result.pieces[gap]) <= end);
        }
    }
}

proof fn lemma_relieved_loses_nothing(state: AssemblerView)
    requires
        state.next_sequence is Some,
        waits_ahead(state),
        relieved(state).state.next_offset < u64::MAX,
    ensures
        loses_nothing(state, relieved(state)),
        waits_ahead(relieved(state).state),
    decreases state.pending.len(),
{
    if exceeds_stream_limit(state.pending) {
        let reason = BUFFER_LIMIT_GAP_REASON@;
        let step = forced(state, reason);
        lemma_forced_shrinks(state, reason);
        lemma_offsets_rise(step.state, reason);
        law_forced_loses_nothing(state, reason);
        if step.state.pending.len() < state.pending.len() {
            lemma_relieved_loses_nothing(step.state);
            lemma_nothing_lost_in_two_steps(state, step, relieved(step.state));
        }
    }
}

/// How far ahead of the expected position an octet of a segment lies; negative for one that lies
/// behind it. The first segment begins at the expected position.
pub open spec fn ahead_of(state: AssemblerView, sequence: u32, index: int) -> int {
    match state.next_sequence {
        None => index,
        Some(expected) => if seq_after(sequence, expected) {
            seq_distance(expected, sequence) + index
        } else {
            index - seq_distance(sequence, expected)
        },
    }
}

/// Taking a segment in loses nothing: every octet that waited, and every octet of the segment that
/// lies before the close of the stream and not behind the expected position, is delivered at its
/// offset or waits. None of them is reported as missing. This holds as long as offsets are not
/// exhausted.
pub proof fn law_ingest_loses_nothing(state: AssemblerView, sequence: u32, payload: Seq<u8>)
    requires
        waits_ahead(state),
        total_bytes(state.pending) + payload.len() < half(),
        ingested(state, sequence, payload).state.next_offset < u64::MAX,
    ensures
        waits_ahead(ingested(state, sequence, payload).state),
        state.next_sequence is Some ==> loses_nothing(state, ingested(state, sequence, payload)),
        forall|index: int|
            #![trigger ahead_of(state, sequence, index)]
            0 <= index < payload.len() && lies_before_close(state, sequence, index) && ahead_of(
                state,
                sequence,
                index,
            ) >= 0 ==> is_kept(
                state,
                ingested(state, sequence, payload),
                ahead_of(state, sequence, index),
            ),
{
    let allowed = allowed_length(state.closed_at, sequence, payload.len());
    let bytes = payload.take(allowed as int);
    let result = ingested(state, sequence, payload);
    lemma_allowed(state, sequence, payload.len());
    if allowed == 0 {
        assert(result == unchanged(state));
    } else {
        assert(result == taken_in(state, sequence, bytes));
        lemma_taken_in(state, sequence, bytes);
        assert forall|index: int|
            #![trigger ahead_of(state, sequence, index)]
            0 <= index < payload.len() && lies_before_close(state, sequence, index) && ahead_of(
                state,
                sequence,
                index,
            ) >= 0 implies is_kept(state, result, ahead_of(state, sequence, index)) by {
            assert(index < allowed);
        }
    }
}

proof fn lemma_allowed(state: AssemblerView, sequence: u32, length: nat)
    ensures
        allowed_length(state.closed_at, sequence, length) <= length,
        forall|index: int|
            0 <= index < length && #[trigger] lies_before_close(state, sequence, index) ==> index
                < allowed_length(state.closed_at, sequence, length),
{
}

/// What taking octets in brings about that all lie before the close.
spec fn taken_in(state: AssemblerView, sequence: u32, bytes: Seq<u8>) -> Assembled {
    match state.next_sequence {
        None => emitted(state, sequence, bytes),
        Some(expected) => if !seq_after(sequence, expected) {
            let step = emitted(state, sequence, bytes);
            drained(step.state).preceded_by(step.pieces)
        } else {
            relieved(
                AssemblerView { pending: with_pending(state.pending, sequence, bytes), ..state },
            )
        },
    }
}

proof fn lemma_taken_in(state: AssemblerView, sequence: u32, bytes: Seq<u8>)
    requires
        waits_ahead(state),
        bytes.len() > 0,
        total_bytes(state.pending) + bytes.len() < half(),
        taken_in(state, sequence, bytes).state.next_offset < u64::MAX,
    ensures
        waits_ahead(taken_in(state, sequence, bytes).state),
        state.next_sequence is Some ==> loses_nothing(state, taken_in(state, sequence, bytes)),
        forall|index: int|
            0 <= index < bytes.len() && #[trigger] ahead_of(state, sequence, index) >= 0 ==> is_kept(
                state,
                taken_in(state, sequence, bytes),
                ahead_of(state, sequence, index),
            ),
{
    let result = taken_in(state, sequence, bytes);
    if state.next_sequence is None {
        lemma_first_segment(state, sequence, bytes);
        assert forall|index: int|
            0 <= index < bytes.len() && #[trigger] ahead_of(state, sequence, index)
                >= 0 implies is_kept(state, result, ahead_of(state, sequence, index)) by {
            assert(delivered_at(result.pieces, state.next_offset + index));
        }
    } else if !seq_after(sequence, state.next_sequence->0) {
        lemma_ready_segment_loses_nothing(state, sequence, bytes);
        lemma_place(sequence, state.next_sequence->0);
        assert forall|index: int|
            0 <= index < bytes.len() && #[trigger] ahead_of(state, sequence, index)
                >= 0 implies is_kept(state, result, ahead_of(state, sequence, index)) by {
            assert(delivered_at(
                result.pieces,
                state.next_offset + ahead_of(state, sequence, index),
            ));
        }
    } else {
        lemma_late_segment_loses_nothing(state, sequence, bytes);
        lemma_place(state.next_sequence->0, sequence);
    }
}

/// Whether an octet of a segment lies before the close of the stream, if it is closed.
pub open spec fn lies_before_close(state: AssemblerView, sequence: u32, index: int) -> bool {
    match state.closed_at {
        Some(close) => seq_before(sequence, close) && index < seq_distance(sequence, close),
        None => true,
    }
}

proof fn lemma_first_segment(state: AssemblerView, sequence: u32, bytes: Seq<u8>)
    requires
        state.next_sequence is None,
        bytes.len() > 0,
        waits_ahead(state),
    ensures
        waits_ahead(emitted(state, sequence, bytes).state),
        forall|index: int|
            0 <= index < bytes.len() ==> #[trigger] delivered_at(
                emitted(state, sequence, bytes).pieces,
                state.next_offset + index,
            ),
{
    let result = emitted(state, sequence, bytes);
    assert(!seq_before(sequence, sequence));
    assert(bytes.skip(0) =~= bytes);
    assert(result.state.pending == state.pending);
    assert forall|index: int| 0 <= index < bytes.len() implies #[trigger] delivered_at(
        result.pieces,
        state.next_offset + index,
    ) by {
        assert(brings(result.pieces[0], state.next_offset + index));
    }
}

proof fn lemma_late_segment_loses_nothing(state: AssemblerView, sequence: u32, bytes: Seq<u8>)
    requires
        state.next_sequence is Some,
        waits_ahead(state),
        seq_after(sequence, state.next_sequence->0),
        bytes.len() > 0,
        total_bytes(state.pending) + bytes.len() < half(),
        relieved(
            AssemblerView { pending: with_pending(state.pending, sequence, bytes), ..state },
        ).state.next_offset < u64::MAX,
    ensures
        ({
            let result = relieved(
                AssemblerView { pending: with_pending(state.pending, sequence, bytes), ..state },
            );
            let start = place_of(state.next_sequence->0, sequence);
            &&& waits_ahead(result.state)
            &&& loses_nothing(state, result)
            &&& forall|ahead: int|
                start <= ahead < start + bytes.len() ==> #[trigger] is_kept(state, result, ahead)
        }),
{
    let expected = state.next_sequence->0;
    let start = place_of(expected, sequence);
    let waiting = AssemblerView { pending: with_pending(state.pending, sequence, bytes), ..state };
    let result = relieved(waiting);
    lemma_waiting_segment(state, sequence, bytes);
    lemma_relieved_loses_nothing(waiting);
    assert forall|ahead: int| #[trigger] waits_at(state.pending, expected, ahead) implies is_kept(
        state,
        result,
        ahead,
    ) by {
        assert(waits_at(waiting.pending, expected, ahead));
        assert(is_kept(waiting, result, ahead));
    }
    assert forall|ahead: int| start <= ahead < start + bytes.len() implies #[trigger] is_kept(
        state,
        result,
        ahead,
    ) by {
        assert(waits_at(waiting.pending, expected, ahead));
        assert(is_kept(waiting, result, ahead));
    }
}

/// With a segment that has to wait, all that waited waits, and the segment too.
proof fn lemma_waiting_segment(state: AssemblerView, sequence: u32, bytes: Seq<u8>)
    requires
        state.next_sequence is Some,
        waits_ahead(state),
        seq_after(sequence, state.next_sequence->0),
        bytes.len() > 0,
        total_bytes(state.pending) + bytes.len() < half(),
    ensures
        ({
            let expected = state.next_sequence->0;
            let waiting = with_pending(state.pending, sequence, bytes);
            &&& waits_ahead(AssemblerView { pending: waiting, ..state })
            &&& forall|ahead: int| #[trigger]
                waits_at(state.pending, expected, ahead) ==> waits_at(waiting, expected, ahead)
            &&& forall|ahead: int|
                place_of(expected, sequence) <= ahead < place_of(expected, sequence)
                    + bytes.len() ==> #[trigger] waits_at(waiting, expected, ahead)
        }),
{
    let expected = state.next_sequence->0;
    let pending = state.pending;
    let waiting = with_pending(pending, sequence, bytes);
    let same = |segment: SegmentView| segment.sequence == sequence;
    lemma_position_satisfies(pending, same);
    let place = first_with_sequence(pending, sequence) as int;
    let added = SegmentView { sequence, bytes };
    if place < pending.len() {
        lemma_total_update(pending, place, added);
        lemma_total_holds_each(pending, place);
        assert(pending[place].sequence == sequence);
    } else {
        assert(waiting.drop_last() =~= pending);
        assert(waiting.last() == added);
    }
    lemma_ahead_comes_after(expected, sequence);
    assert forall|index: int| 0 <= index < waiting.len() implies waiting[index].bytes.len() > 0
        && 0 < place_of(expected, (#[trigger] waiting[index]).sequence) <= half() by {
        if index < pending.len() && index != place {
            assert(waiting[index] == pending[index]);
        }
    }
    assert forall|ahead: int| #[trigger] waits_at(pending, expected, ahead) implies waits_at(
        waiting,
        expected,
        ahead,
    ) by {
        let index = choose|index: int|
            0 <= index < pending.len() && holds_octet(#[trigger] pending[index], expected, ahead);
        assert(holds_octet(waiting[index], expected, ahead));
    }
    assert forall|ahead: int|
        place_of(expected, sequence) <= ahead < place_of(expected, sequence)
            + bytes.len() implies #[trigger] waits_at(waiting, expected, ahead) by {
        assert(holds_octet(waiting[place], expected, ahead));
    }
}

/// A segment that starts no later than the expected position brings what it has behind that, and
/// nothing that waits is lost.
proof fn lemma_ready_segment_loses_nothing(state: AssemblerView, sequence: u32, bytes: Seq<u8>)
    requires
        state.next_sequence is Some,
        waits_ahead(state),
        !seq_after(sequence, state.next_sequence->0),
        total_bytes(state.pending) + bytes.len() < half(),
        drained(emitted(state, sequence, bytes).state).state.next_offset < u64::MAX,
    ensures
        ({
            let step = emitted(state, sequence, bytes);
            let result = drained(step.state).preceded_by(step.pieces);
            &&& waits_ahead(result.state)
            &&& loses_nothing(state, result)
            &&& forall|ahead: int|
                0 <= ahead < bytes.len() - place_of(sequence, state.next_sequence->0)
                    ==> #[trigger] delivered_at(result.pieces, state.next_offset + ahead)
        }),
{
    let expected = state.next_sequence->0;
    let behind = place_of(sequence, expected);
    let step = emitted(state, sequence, bytes);
    let more = drained(step.state);
    let result = more.preceded_by(step.pieces);
    lemma_ahead_comes_after(expected, sequence);
    lemma_place(sequence, expected);
    lemma_place(sequence, sequence);
    if behind >= bytes.len() {
        assert(sequence == expected ==> behind == 0);
        assert(step == unchanged(state));
        lemma_nothing_is_ready(state);
        assert(result.pieces =~= Seq::<PieceView>::empty());
        assert(result == unchanged(state));
    } else {
        let fresh = bytes.len() - behind;
        let base = place_at(expected, 1);
        lemma_emitted_from(state, sequence, bytes, sequence, behind);
        lemma_place_adds(sequence, behind, fresh);
        lemma_place_adds(expected, 1, fresh - 1);
        assert(step.state.next_sequence == Some(place_at(base, fresh - 1)));
        assert forall|index: int| 0 <= index < state.pending.len() implies place_of(
            base,
            (#[trigger] state.pending[index]).sequence,
        ) == place_of(expected, state.pending[index].sequence) - 1 && is_near(
            state.pending[index],
            base,
            no_bound(),
        ) by {
            lemma_total_holds_each(state.pending, index);
            lemma_place_moves(expected, 1, state.pending[index].sequence);
        }
        lemma_drained_loses_nothing(step.state, base, fresh - 1, no_bound());
        assert(step.state.next_offset == state.next_offset + fresh);
        let moved = result.state.next_offset - state.next_offset;
        let reached = result.state.next_sequence->0;
        assert(reached == place_at(base, moved - 1));
        assert forall|index: int| 0 <= index < result.state.pending.len() implies 0 < place_of(
            reached,
            (#[trigger] result.state.pending[index]).sequence,
        ) <= half() && moved + place_of(reached, result.state.pending[index].sequence) == 1
            + place_of(base, result.state.pending[index].sequence) && is_near(
            result.state.pending[index],
            base,
            no_bound(),
        ) by {
            lemma_place_moves(base, moved - 1, result.state.pending[index].sequence);
        }
        assert forall|ahead: int| 0 <= ahead < fresh implies #[trigger] delivered_at(
            result.pieces,
            state.next_offset + ahead,
        ) by {
            assert(brings(step.pieces[0], state.next_offset + ahead));
            lemma_delivered_first(step.pieces, more.pieces, state.next_offset + ahead);
        }
        assert forall|ahead: int| #[trigger]
            waits_at(state.pending, expected, ahead) implies delivered_at(
            result.pieces,
            state.next_offset + ahead,
        ) || waits_at(result.state.pending, reached, ahead - moved) by {
            let index = choose|index: int|
                0 <= index < state.pending.len() && holds_octet(
                    #[trigger] state.pending[index],
                    expected,
                    ahead,
                );
            assert(ahead >= 1);
            if ahead >= fresh {
                assert(holds_octet(step.state.pending[index], base, ahead - 1));
                assert(waits_at(step.state.pending, base, ahead - 1));
                if delivered_at(more.pieces, step.state.next_offset + (ahead - fresh)) {
                    lemma_delivered_second(step.pieces, more.pieces, state.next_offset + ahead);
                } else {
                    let kept = choose|kept: int|
                        0 <= kept < result.state.pending.len() && holds_octet(
                            #[trigger] result.state.pending[kept],
                            base,
                            ahead - 1,
                        );
                    assert(holds_octet(result.state.pending[kept], reached, ahead - moved));
                }
            }
        }
    }
}

/// Of two places ahead, the nearer one comes before.
proof fn lemma_nearer_comes_before(base: u32, first: u32, second: u32)
    requires
        0 < place_of(base, first) <= half(),
        0 < place_of(base, second) <= half(),
    ensures
        seq_before(first, second) <==> place_of(base, first) < place_of(base, second),
        place_of(base, first) < place_of(base, second) ==> seq_distance(first, second) == place_of(
            base,
            second,
        ) - place_of(base, first),
{
    reveal(place_of);
}

/// Whether all that waits lies before a place that is `limit` octets ahead.
spec fn lie_before(state: AssemblerView, limit: int) -> bool {
    forall|index: int|
        0 <= index < state.pending.len() ==> place_of(
            state.next_sequence->0,
            (#[trigger] state.pending[index]).sequence,
        ) + state.pending[index].bytes.len() <= limit
}

/// Delivering what waits before a limit, where all that waits does, delivers all of it.
proof fn lemma_forced_until_delivers_all(
    state: AssemblerView,
    limit: u32,
    reason: Seq<char>,
    ahead: int,
)
    requires
        state.next_sequence is Some,
        waits_ahead(state),
        ahead == place_of(state.next_sequence->0, limit),
        0 < ahead <= half(),
        lie_before(state, ahead),
        forced_until(state, limit, reason).state.next_offset < u64::MAX,
    ensures
        ({
            let result = forced_until(state, limit, reason);
            &&& result.state.pending.len() == 0
            &&& result.state.next_sequence == Some(limit)
            &&& result.state.next_offset == state.next_offset + ahead
            &&& loses_nothing(state, result)
        }),
    decreases state.pending.len(),
{
    let expected = state.next_sequence->0;
    let count = state.pending.len() as int;
    let result = forced_until(state, limit, reason);
    let nothing = Seq::<PieceView>::empty();
    lemma_nothing_is_ready(state);
    lemma_ahead_comes_after(expected, limit);
    lemma_place(expected, limit);
    lemma_soonest_lies_ahead(state.pending, expected, Some(limit), count);
    law_soonest_is_nearest(state.pending, expected, Some(limit), count);
    let index = soonest(state.pending, expected, Some(limit), count);
    assert forall|other: int| 0 <= other < count implies (
    #[trigger] state.pending[other]).lies_ahead(expected, Some(limit)) by {
        lemma_ahead_comes_after(expected, state.pending[other].sequence);
        lemma_nearer_comes_before(expected, state.pending[other].sequence, limit);
    }
    if index < 0 {
        if count > 0 {
            assert(state.pending[0].lies_ahead(expected, Some(limit)));
        }
        let gap = gapped(state, expected, limit, reason);
        assert(nothing + gap.pieces =~= gap.pieces);
        assert(result == gap);
    } else {
        let step = skipped_to(state, index, expected, reason);
        lemma_skipped_shrinks(state, expected, Some(limit), reason);
        let more = forced_until(step.state, limit, reason);
        assert(nothing + step.pieces =~= step.pieces);
        assert(result == more.preceded_by(step.pieces));
        assert forall|other: int| 0 <= other < count implies place_of(
            expected,
            state.pending[index].sequence,
        ) <= place_of(expected, (#[trigger] state.pending[other]).sequence) by {
            assert(state.pending[other].lies_ahead(expected, Some(limit)));
            lemma_place(expected, state.pending[other].sequence);
            lemma_place(expected, state.pending[index].sequence);
        }
        crate::libpcap::stream::laws::lemma_forced_until_delivers(
            step.state,
            limit,
            reason,
            anything(),
        );
        lemma_skipped_loses_nothing(state, index, reason, ahead);
        let moved = step.state.next_offset - state.next_offset;
        let reached = step.state.next_sequence->0;
        lemma_place_moves(expected, moved, limit);
        if moved == ahead {
            assert(reached == limit);
            lemma_nothing_is_ready(step.state);
            lemma_ahead_comes_after(limit, limit);
            lemma_place(limit, limit);
            assert(more == unchanged(step.state));
            if step.state.pending.len() > 0 {
                assert(step.state.pending[0].bytes.len() > 0);
            }
            assert(loses_nothing(step.state, more));
        } else {
            lemma_forced_until_delivers_all(step.state, limit, reason, ahead - moved);
        }
        lemma_nothing_lost_in_two_steps(state, step, more);
    }
}

/// What waits before the close is kept when the rest is cut off.
proof fn lemma_trimmed_keeps(pending: Seq<SegmentView>, expected: u32, close: u32)
    requires
        0 < place_of(expected, close) <= half(),
        forall|index: int|
            0 <= index < pending.len() ==> 0 < place_of(
                expected,
                (#[trigger] pending[index]).sequence,
            ) <= half(),
    ensures
        ({
            let limit = place_of(expected, close);
            let kept = trimmed(pending, close);
            &&& forall|index: int|
                0 <= index < kept.len() ==> kept[index].bytes.len() > 0 && 0 < place_of(
                    expected,
                    (#[trigger] kept[index]).sequence,
                ) <= half() && place_of(expected, kept[index].sequence) + kept[index].bytes.len()
                    <= limit
            &&& forall|ahead: int|
                ahead < limit && #[trigger] waits_at(pending, expected, ahead) ==> waits_at(
                    kept,
                    expected,
                    ahead,
                )
        }),
    decreases pending.len(),
{
    let limit = place_of(expected, close);
    let kept = trimmed(pending, close);
    if pending.len() > 0 {
        let shorter = pending.drop_last();
        let rest = trimmed(shorter, close);
        let last = pending.last();
        assert(last == pending[pending.len() - 1]);
        assert forall|index: int| 0 <= index < shorter.len() implies 0 < place_of(
            expected,
            (#[trigger] shorter[index]).sequence,
        ) <= half() by {
            assert(shorter[index] == pending[index]);
        }
        lemma_trimmed_keeps(shorter, expected, close);
        lemma_nearer_comes_before(expected, last.sequence, close);
        let start = place_of(expected, last.sequence);
        let allowed = allowed_length(Some(close), last.sequence, last.bytes.len());
        assert(allowed == 0 || allowed == last.bytes.len() || allowed == limit - start);
        assert(start + allowed <= limit || allowed == 0);
        assert forall|ahead: int|
            ahead < limit && #[trigger] waits_at(pending, expected, ahead) implies waits_at(
            kept,
            expected,
            ahead,
        ) by {
            let index = choose|index: int|
                0 <= index < pending.len() && holds_octet(
                    #[trigger] pending[index],
                    expected,
                    ahead,
                );
            if index < shorter.len() {
                assert(shorter[index] == pending[index]);
                assert(waits_at(shorter, expected, ahead));
                let place = choose|place: int|
                    0 <= place < rest.len() && holds_octet(
                        #[trigger] rest[place],
                        expected,
                        ahead,
                    );
                assert(kept[place] == rest[place]);
            } else {
                assert(pending[index] == last);
                assert(holds_octet(kept[kept.len() - 1], expected, ahead));
            }
        }
        assert forall|index: int| 0 <= index < kept.len() implies kept[index].bytes.len() > 0 && 0
            < place_of(expected, (#[trigger] kept[index]).sequence) <= half() && place_of(
            expected,
            kept[index].sequence,
        ) + kept[index].bytes.len() <= limit by {
            if index < rest.len() {
                assert(kept[index] == rest[index]);
            }
        }
    }
}

/// Closing a stream ahead of the expected position leads there: every octet that waits before the
/// close is delivered at its offset, none of them is reported as missing, and nothing waits any
/// more. The first close stands. This holds as long as offsets are not exhausted.
pub proof fn law_close_delivers_all_before_it(
    state: AssemblerView,
    sequence: u32,
    reason: Seq<char>,
)
    requires
        state.next_sequence is Some,
        waits_ahead(state),
        ({
            let close = match state.closed_at {
                Some(earlier) => earlier,
                None => sequence,
            };
            seq_after(close, state.next_sequence->0)
        }),
        closed(state, sequence, reason).state.next_offset < u64::MAX,
    ensures
        ({
            let close = match state.closed_at {
                Some(earlier) => earlier,
                None => sequence,
            };
            let result = closed(state, sequence, reason);
            let limit = seq_distance(state.next_sequence->0, close);
            &&& result.state.next_sequence == Some(close)
            &&& result.state.next_offset == state.next_offset + limit
            &&& result.state.pending.len() == 0
            &&& forall|ahead: int|
                ahead < limit && #[trigger] waits_at(state.pending, state.next_sequence->0, ahead)
                    ==> delivered_at(result.pieces, state.next_offset + ahead) && !missed_at(
                    result.pieces,
                    state.next_offset + ahead,
                )
        }),
{
    let close = match state.closed_at {
        Some(earlier) => earlier,
        None => sequence,
    };
    let expected = state.next_sequence->0;
    let start = AssemblerView {
        closed_at: Some(close),
        pending: trimmed(state.pending, close),
        ..state
    };
    let result = closed(state, sequence, reason);
    let limit = place_of(expected, close);
    lemma_place(expected, close);
    lemma_ahead_comes_after(expected, close);
    lemma_trimmed_keeps(state.pending, expected, close);
    lemma_trimmed_total(state.pending, close);
    assert(waits_ahead(start));
    assert(lie_before(start, limit));
    assert(result == forced_until(start, close, reason));
    lemma_forced_until_delivers_all(start, close, reason, limit);
    law_close_delivers(state, sequence, reason, anything());
    assert forall|ahead: int|
        ahead < limit && #[trigger] waits_at(state.pending, expected, ahead) implies delivered_at(
        result.pieces,
        state.next_offset + ahead,
    ) && !missed_at(result.pieces, state.next_offset + ahead) by {
        assert(waits_at(start.pending, expected, ahead));
        assert(is_kept(start, result, ahead));
        lemma_tiles_are_apart(
            result.pieces,
            state.next_offset as int,
            result.state.next_offset as int,
            state.next_offset + ahead,
        );
    }
}

/// Whether none of the pieces is a gap.
pub open spec fn no_gaps(pieces: Seq<PieceView>) -> bool {
    forall|index: int| 0 <= index < pieces.len() ==> (#[trigger] pieces[index]) is Bytes
}

proof fn lemma_drained_without_gaps(state: AssemblerView)
    ensures
        no_gaps(drained(state).pieces),
    decreases state.pending.len(),
{
    if let Some(expected) = state.next_sequence {
        let duplicate = first_duplicate(state.pending, expected);
        let reaching = first_reaching(state.pending, expected);
        if duplicate < state.pending.len() {
            lemma_drained_without_gaps(state.without(duplicate as int));
        } else if reaching < state.pending.len() {
            let segment = state.pending[reaching as int];
            let step = emitted(
                state.without(reaching as int),
                segment.sequence,
                segment.bytes,
            );
            lemma_drained_without_gaps(step.state);
        }
    }
}

/// Nothing is given up early: as long as no more than 64 segments and 262144 octets wait in a
/// stream, taking a segment in reports no gap, however much is missing.
pub proof fn law_no_gap_while_there_is_room(
    state: AssemblerView,
    sequence: u32,
    payload: Seq<u8>,
)
    requires
        state.pending.len() < 64,
        total_bytes(state.pending) + payload.len() <= 262_144,
    ensures
        no_gaps(ingested(state, sequence, payload).pieces),
{
    let allowed = allowed_length(state.closed_at, sequence, payload.len());
    let bytes = payload.take(allowed as int);
    if allowed > 0 && state.next_sequence is Some {
        let pending = with_pending(state.pending, sequence, bytes);
        let place = first_with_sequence(state.pending, sequence) as int;
        let same = |segment: SegmentView| segment.sequence == sequence;
        lemma_position_satisfies(state.pending, same);
        let added = SegmentView { sequence, bytes };
        if place < state.pending.len() {
            lemma_total_update(state.pending, place, added);
        } else {
            assert(pending.drop_last() =~= state.pending);
            assert(pending.last() == added);
        }
        let step = emitted(state, sequence, bytes);
        lemma_drained_without_gaps(step.state);
    }
}

/// A stream that has seen nothing yet has nothing waiting.
pub proof fn law_fresh_stream_waits_ahead(state: AssemblerView)
    requires
        state.pending.len() == 0,
    ensures
        waits_ahead(state),
{
}

} // verus!
