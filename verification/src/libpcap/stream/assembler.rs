//! Reassembly of one direction of a TCP connection.
use bytes::Bytes;
use vstd::prelude::*;

use crate::libpcap::stream::assembly::{
    allowed_length, closed, drained, emitted, exceeds_stream_limit, first_duplicate, first_reaching,
    flushed, forced, forced_until, gapped, ingested, lemma_drained_shrinks, lemma_skipped_shrinks,
    position, relieved, skipped_to, soonest, swap_removed, total_bytes, trimmed, with_pending,
    Assembled, AssemblerView, PieceView, SegmentView, BUFFER_LIMIT_GAP_REASON,
};
use crate::libpcap::stream::budget::{PendingCount, MAX_PENDING_BYTES, MAX_PENDING_SEGMENTS};
use crate::libpcap::tcp_seq::{advance, after, before, distance, distance_usize};
use crate::payload::{buffer_range, octets_of};

verus! {

/// A delivered stretch of the stream.
#[derive(Debug, PartialEq, Eq)]
pub enum StreamPiece {
    Bytes { stream_offset: u64, bytes: Bytes },
    Gap { expected_offset: u64, next_offset: Option<u64>, reason: &'static str },
}

impl View for StreamPiece {
    type V = PieceView;

    open spec fn view(&self) -> PieceView {
        match *self {
            StreamPiece::Bytes { stream_offset, bytes } => PieceView::Bytes {
                stream_offset,
                bytes: octets_of(bytes),
            },
            StreamPiece::Gap { expected_offset, next_offset, reason } => PieceView::Gap {
                expected_offset,
                next_offset,
                reason: reason@,
            },
        }
    }
}

/// The views of a sequence of pieces.
pub open spec fn piece_views(pieces: Seq<StreamPiece>) -> Seq<PieceView> {
    pieces.map_values(|piece: StreamPiece| piece@)
}

proof fn lemma_piece_views_push(pieces: Seq<StreamPiece>, piece: StreamPiece)
    ensures
        piece_views(pieces.push(piece)) == piece_views(pieces).push(piece@),
{
    assert(piece_views(pieces.push(piece)) =~= piece_views(pieces).push(piece@));
}

/// A segment that waits for octets before it.
#[derive(Debug)]
pub struct PendingSegment {
    pub sequence: u32,
    pub bytes: Bytes,
}

impl View for PendingSegment {
    type V = SegmentView;

    open spec fn view(&self) -> SegmentView {
        SegmentView { sequence: self.sequence, bytes: octets_of(self.bytes) }
    }
}

impl PendingSegment {
    fn end(&self) -> (end: u32)
        ensures
            end == self@.end(),
    {
        advance(self.sequence, self.bytes.len())
    }

    fn is_duplicate(&self, expected: u32) -> (duplicate: bool)
        ensures
            duplicate == self@.is_duplicate(expected),
    {
        !after(self.sequence, expected) && !after(self.end(), expected)
    }

    fn reaches_expected(&self, expected: u32) -> (reaches: bool)
        ensures
            reaches == self@.reaches(expected),
    {
        !after(self.sequence, expected) && after(self.end(), expected)
    }

    fn lies_ahead(&self, expected: u32, limit: Option<u32>) -> (ahead: bool)
        ensures
            ahead == self@.lies_ahead(expected, limit),
    {
        after(self.sequence, expected) && (match limit {
            Some(end) => before(self.sequence, end),
            None => true,
        })
    }
}

/// The views of a sequence of waiting segments.
pub open spec fn segment_views(segments: Seq<PendingSegment>) -> Seq<SegmentView> {
    segments.map_values(|segment: PendingSegment| segment@)
}

/// The first index that satisfies a condition is where the search for it ends.
proof fn lemma_position_found(
    pending: Seq<SegmentView>,
    wanted: spec_fn(SegmentView) -> bool,
    index: int,
)
    requires
        0 <= index <= pending.len(),
        forall|earlier: int| 0 <= earlier < index ==> !wanted(#[trigger] pending[earlier]),
        index < pending.len() ==> wanted(pending[index]),
    ensures
        position(pending, wanted) == index,
    decreases index,
{
    if index > 0 {
        assert(!wanted(pending[0]));
        let rest = pending.drop_first();
        assert forall|earlier: int| 0 <= earlier < index - 1 implies !wanted(
            #[trigger] rest[earlier],
        ) by {
            assert(rest[earlier] == pending[earlier + 1]);
        }
        lemma_position_found(rest, wanted, index - 1);
    }
}

/// The segments that wait, in the order in which they are looked at.
#[derive(Debug)]
pub struct PendingSegments {
    pub segments: Vec<PendingSegment>,
}

impl View for PendingSegments {
    type V = Seq<SegmentView>;

    open spec fn view(&self) -> Seq<SegmentView> {
        segment_views(self.segments@)
    }
}

/// `number`, held at the largest machine size.
pub open spec fn held(number: nat) -> usize {
    if number > usize::MAX {
        usize::MAX
    } else {
        number as usize
    }
}

/// How much waits, with the number of octets held at the largest machine size.
pub open spec fn pending_count_of(pending: Seq<SegmentView>) -> PendingCount {
    PendingCount { segments: pending.len() as usize, bytes: held(total_bytes(pending)) }
}

impl PendingSegments {
    fn new() -> (pending: PendingSegments)
        ensures
            pending@ == Seq::<SegmentView>::empty(),
    {
        let pending = PendingSegments { segments: Vec::new() };
        assert(pending@ =~= Seq::<SegmentView>::empty());
        pending
    }

    pub fn count(&self) -> (count: PendingCount)
        ensures
            count == pending_count_of(self@),
            count.segments == self@.len(),
    {
        let mut bytes: usize = 0;
        let mut index: usize = 0;
        while index < self.segments.len()
            invariant
                index <= self.segments.len(),
                bytes == held(total_bytes(self@.take(index as int))),
            decreases self.segments.len() - index,
        {
            let length: usize = self.segments[index].bytes.len();
            proof {
                let longer = self@.take(index + 1);
                assert(longer.drop_last() =~= self@.take(index as int));
                assert(longer.last() == self.segments@[index as int]@);
            }
            bytes = bytes.saturating_add(length);
            index = index + 1;
        }
        assert(self@.take(self.segments.len() as int) =~= self@);
        PendingCount { segments: self.segments.len(), bytes }
    }

    fn exceeds_stream_limit(&self) -> (exceeds: bool)
        ensures
            exceeds == exceeds_stream_limit(self@),
    {
        let count = self.count();
        count.segments > MAX_PENDING_SEGMENTS || count.bytes > MAX_PENDING_BYTES
    }

    fn insert(&mut self, sequence: u32, bytes: Bytes)
        ensures
            final(self)@ == with_pending(old(self)@, sequence, octets_of(bytes)),
    {
        let ghost wanted = |segment: SegmentView| segment.sequence == sequence;
        let mut index: usize = 0;
        while index < self.segments.len() && self.segments[index].sequence != sequence
            invariant
                index <= self.segments.len(),
                *self == *old(self),
                forall|earlier: int| 0 <= earlier < index ==> (#[trigger] self@[earlier]).sequence
                    != sequence,
            decreases self.segments.len() - index,
        {
            index = index + 1;
        }
        proof {
            lemma_position_found(self@, wanted, index as int);
        }
        let ghost previous = self@;
        let segment = PendingSegment { sequence, bytes };
        if index < self.segments.len() {
            if segment.bytes.len() > self.segments[index].bytes.len() {
                let ghost view = segment@;
                self.segments.set(index, segment);
                assert(self@ =~= previous.update(index as int, view));
            }
        } else {
            let ghost view = segment@;
            self.segments.push(segment);
            assert(self@ =~= previous.push(view));
        }
    }

    fn remove_index(&mut self, index: usize) -> (segment: PendingSegment)
        requires
            index < old(self)@.len(),
        ensures
            segment@ == old(self)@[index as int],
            final(self)@ == swap_removed(old(self)@, index as int),
    {
        let segment = self.segments.swap_remove(index);
        assert(self@ =~= swap_removed(old(self)@, index as int));
        segment
    }

    fn remove_duplicate(&mut self, expected: u32) -> (removed: Option<PendingSegment>)
        ensures
            ({
                let index = first_duplicate(old(self)@, expected);
                if index < old(self)@.len() {
                    removed is Some && removed->0@ == old(self)@[index as int] && final(self)@
                        == swap_removed(old(self)@, index as int)
                } else {
                    removed is None && final(self)@ == old(self)@
                }
            }),
    {
        let ghost wanted = |segment: SegmentView| segment.is_duplicate(expected);
        let mut index: usize = 0;
        while index < self.segments.len() && !self.segments[index].is_duplicate(expected)
            invariant
                index <= self.segments.len(),
                *self == *old(self),
                forall|earlier: int|
                    0 <= earlier < index ==> !(#[trigger] self@[earlier]).is_duplicate(expected),
            decreases self.segments.len() - index,
        {
            index = index + 1;
        }
        proof {
            lemma_position_found(self@, wanted, index as int);
        }
        if index < self.segments.len() {
            Some(self.remove_index(index))
        } else {
            None
        }
    }

    fn remove_reaching(&mut self, expected: u32) -> (removed: Option<PendingSegment>)
        ensures
            ({
                let index = first_reaching(old(self)@, expected);
                if index < old(self)@.len() {
                    removed is Some && removed->0@ == old(self)@[index as int] && final(self)@
                        == swap_removed(old(self)@, index as int)
                } else {
                    removed is None && final(self)@ == old(self)@
                }
            }),
    {
        let ghost wanted = |segment: SegmentView| segment.reaches(expected);
        let mut index: usize = 0;
        while index < self.segments.len() && !self.segments[index].reaches_expected(expected)
            invariant
                index <= self.segments.len(),
                *self == *old(self),
                forall|earlier: int|
                    0 <= earlier < index ==> !(#[trigger] self@[earlier]).reaches(expected),
            decreases self.segments.len() - index,
        {
            index = index + 1;
        }
        proof {
            lemma_position_found(self@, wanted, index as int);
        }
        if index < self.segments.len() {
            Some(self.remove_index(index))
        } else {
            None
        }
    }

    /// Takes out the segment ahead of `expected`, and before `limit` where there is one, that
    /// comes soonest.
    fn remove_ahead(&mut self, expected: u32, limit: Option<u32>) -> (removed: Option<
        PendingSegment,
    >)
        ensures
            ({
                let index = soonest(old(self)@, expected, limit, old(self)@.len() as int);
                if index >= 0 {
                    index < old(self)@.len() && removed is Some && removed->0@ == old(self)@[index]
                        && final(self)@ == swap_removed(old(self)@, index)
                } else {
                    removed is None && final(self)@ == old(self)@
                }
            }),
    {
        let mut best: Option<usize> = None;
        let mut index: usize = 0;
        while index < self.segments.len()
            invariant
                index <= self.segments.len(),
                *self == *old(self),
                match best {
                    Some(found) => found < index && found == soonest(
                        self@,
                        expected,
                        limit,
                        index as int,
                    ),
                    None => soonest(self@, expected, limit, index as int) < 0,
                },
            decreases self.segments.len() - index,
        {
            assert(self@[index as int] == self.segments@[index as int]@);
            if self.segments[index].lies_ahead(expected, limit) {
                let closer = match best {
                    Some(found) => {
                        assert(self@[found as int] == self.segments@[found as int]@);
                        distance(expected, self.segments[index].sequence) < distance(
                            expected,
                            self.segments[found].sequence,
                        )
                    },
                    None => true,
                };
                if closer {
                    best = Some(index);
                }
            }
            index = index + 1;
        }
        match best {
            Some(found) => Some(self.remove_index(found)),
            None => None,
        }
    }

    fn trim_to_close(&mut self, close: u32)
        ensures
            final(self)@ == trimmed(old(self)@, close),
    {
        let mut retained: Vec<PendingSegment> = Vec::new();
        let mut index: usize = 0;
        while index < self.segments.len()
            invariant
                index <= self.segments.len(),
                *self == *old(self),
                segment_views(retained@) == trimmed(self@.take(index as int), close),
            decreases self.segments.len() - index,
        {
            let sequence: u32 = self.segments[index].sequence;
            let length: usize = self.segments[index].bytes.len();
            let ghost before = retained@;
            proof {
                let longer = self@.take(index + 1);
                assert(longer.drop_last() =~= self@.take(index as int));
                assert(longer.last() == self.segments@[index as int]@);
            }
            let allowed: usize = allowed_prefix(Some(close), sequence, length);
            if allowed != 0 {
                let segment = PendingSegment {
                    sequence,
                    bytes: buffer_range(&self.segments[index].bytes, 0, allowed),
                };
                assert(segment@.bytes =~= self@[index as int].bytes.take(allowed as int));
                let ghost view = segment@;
                retained.push(segment);
                assert(segment_views(retained@) =~= segment_views(before).push(view));
            }
            index = index + 1;
        }
        assert(self@.take(self.segments.len() as int) =~= self@);
        self.segments = retained;
    }
}

/// How many of `length` octets from `sequence` on lie before the close of the stream.
fn allowed_prefix(closed_at: Option<u32>, sequence: u32, length: usize) -> (allowed: usize)
    ensures
        allowed == allowed_length(closed_at, sequence, length as nat),
        allowed <= length,
{
    match closed_at {
        None => length,
        Some(close) => {
            if !before(sequence, close) {
                return 0;
            }
            let room: usize = distance_usize(sequence, close);
            if length <= room {
                length
            } else {
                room
            }
        },
    }
}

/// One direction of a stream.
#[derive(Debug)]
pub struct DirectionStreamAssembler {
    pub next_sequence: Option<u32>,
    pub next_offset: u64,
    pub pending: PendingSegments,
    pub closed_at: Option<u32>,
}

impl View for DirectionStreamAssembler {
    type V = AssemblerView;

    open spec fn view(&self) -> AssemblerView {
        AssemblerView {
            next_sequence: self.next_sequence,
            next_offset: self.next_offset,
            pending: self.pending@,
            closed_at: self.closed_at,
        }
    }
}

/// The state of a stream of which nothing was seen yet.
pub open spec fn fresh_stream() -> AssemblerView {
    AssemblerView {
        next_sequence: None,
        next_offset: 0,
        pending: Seq::empty(),
        closed_at: None,
    }
}

impl Default for DirectionStreamAssembler {
    fn default() -> (stream: Self)
        ensures
            stream@ == fresh_stream(),
    {
        DirectionStreamAssembler {
            next_sequence: None,
            next_offset: 0,
            pending: PendingSegments::new(),
            closed_at: None,
        }
    }
}

impl DirectionStreamAssembler {
    /// Takes a segment in and returns what it lets the stream deliver.
    pub fn ingest(&mut self, sequence: u32, payload: &[u8]) -> (pieces: Vec<StreamPiece>)
        ensures
            (Assembled { state: final(self)@, pieces: piece_views(pieces@) }) == ingested(
                old(self)@,
                sequence,
                payload@,
            ),
    {
        let mut pieces: Vec<StreamPiece> = Vec::new();
        assert(piece_views(pieces@) =~= Seq::<PieceView>::empty());
        let allowed: usize = allowed_prefix(self.closed_at, sequence, payload.len());
        if allowed == 0 {
            return pieces;
        }
        let bytes = Bytes::copy_from_slice(vstd::slice::slice_subrange(payload, 0, allowed));
        assert(octets_of(bytes) =~= payload@.take(allowed as int));
        match self.next_sequence {
            None => {
                self.emit_available(sequence, bytes, &mut pieces);
            },
            Some(expected) => {
                if !after(sequence, expected) {
                    self.emit_available(sequence, bytes, &mut pieces);
                    self.drain_contiguous(&mut pieces);
                } else {
                    self.pending.insert(sequence, bytes);
                    self.flush_until_within_limits(&mut pieces);
                }
            },
        }
        proof {
            let result = ingested(old(self)@, sequence, payload@);
            assert(piece_views(pieces@) =~= result.pieces);
            assert(self@ =~= result.state);
        }
        pieces
    }

    /// Delivers everything that waits, with a gap wherever something is missing.
    pub fn flush_pending(&mut self, reason: &'static str) -> (pieces: Vec<StreamPiece>)
        ensures
            (Assembled { state: final(self)@, pieces: piece_views(pieces@) }) == flushed(
                old(self)@,
                reason@,
            ),
    {
        let mut pieces: Vec<StreamPiece> = Vec::new();
        let ghost mut state = self@;
        let ghost mut delivered: Seq<PieceView> = Seq::empty();
        assert(piece_views(pieces@) =~= delivered);
        assert(flushed(state, reason@).preceded_by(delivered) =~= flushed(state, reason@));
        loop
            invariant_except_break
                self@ == state,
                piece_views(pieces@) == delivered,
                flushed(state, reason@).preceded_by(delivered) == flushed(old(self)@, reason@),
            ensures
                (Assembled { state: self@, pieces: piece_views(pieces@) }) == flushed(
                    old(self)@,
                    reason@,
                ),
            decreases state.pending.len(),
        {
            let waiting_before: usize = self.pending.segments.len();
            self.force_gap_to_next_pending(reason, &mut pieces);
            let waiting_after: usize = self.pending.segments.len();
            let ghost step = forced(state, reason@);
            if waiting_after == 0 || waiting_after >= waiting_before {
                assert(flushed(state, reason@) == step);
                assert(piece_views(pieces@) =~= flushed(old(self)@, reason@).pieces);
                break;
            }
            proof {
                let rest = flushed(step.state, reason@);
                assert(rest.preceded_by(step.pieces).preceded_by(delivered) =~= rest.preceded_by(
                    delivered + step.pieces,
                ));
                state = step.state;
                delivered = delivered + step.pieces;
            }
        }
        pieces
    }

    /// Closes the stream at `sequence`, unless it is closed already, and delivers all before that.
    pub fn close_at(&mut self, sequence: u32, reason: &'static str) -> (pieces: Vec<StreamPiece>)
        ensures
            (Assembled { state: final(self)@, pieces: piece_views(pieces@) }) == closed(
                old(self)@,
                sequence,
                reason@,
            ),
    {
        let close: u32 = match self.closed_at {
            Some(earlier) => earlier,
            None => sequence,
        };
        self.closed_at = Some(close);
        self.pending.trim_to_close(close);
        let mut pieces: Vec<StreamPiece> = Vec::new();
        assert(piece_views(pieces@) =~= Seq::<PieceView>::empty());
        self.force_gap_until_sequence(close, reason, &mut pieces);
        proof {
            let result = closed(old(self)@, sequence, reason@);
            assert(piece_views(pieces@) =~= result.pieces);
        }
        pieces
    }

    /// Delivers what is ready and then skips to the segment that comes soonest, if one waits.
    pub fn force_gap_for_buffer_limit(&mut self, reason: &'static str) -> (pieces: Vec<StreamPiece>)
        ensures
            (Assembled { state: final(self)@, pieces: piece_views(pieces@) }) == forced(
                old(self)@,
                reason@,
            ),
    {
        let mut pieces: Vec<StreamPiece> = Vec::new();
        assert(piece_views(pieces@) =~= Seq::<PieceView>::empty());
        self.force_gap_to_next_pending(reason, &mut pieces);
        assert(piece_views(pieces@) =~= forced(old(self)@, reason@).pieces);
        pieces
    }

    /// How much waits.
    pub fn pending_count(&self) -> (count: PendingCount)
        ensures
            count == pending_count_of(self@.pending),
            count.segments == self@.pending.len(),
    {
        self.pending.count()
    }

    fn force_gap_until_sequence(
        &mut self,
        limit: u32,
        reason: &'static str,
        pieces: &mut Vec<StreamPiece>,
    )
        ensures
            (Assembled { state: final(self)@, pieces: piece_views(final(pieces)@) })
                == forced_until(old(self)@, limit, reason@).preceded_by(piece_views(old(pieces)@)),
    {
        let ghost initial = self@;
        let ghost mut state = self@;
        let ghost goal = forced_until(initial, limit, reason@).preceded_by(piece_views(pieces@));
        loop
            invariant_except_break
                self@ == state,
                forced_until(state, limit, reason@).preceded_by(piece_views(pieces@)) == goal,
            ensures
                (Assembled { state: self@, pieces: piece_views(pieces@) }) == goal,
            decreases state.pending.len(),
        {
            let ghost delivered = piece_views(pieces@);
            let ghost ready = drained(state);
            proof {
                lemma_drained_shrinks(state);
            }
            self.drain_contiguous(pieces);
            let expected: u32 = match self.next_sequence {
                Some(expected) => expected,
                None => {
                    break;
                },
            };
            if !after(limit, expected) {
                break;
            }
            match self.pending.remove_ahead(expected, Some(limit)) {
                None => {
                    self.force_gap_to_sequence(expected, limit, reason, pieces);
                    assert(piece_views(pieces@) =~= goal.pieces);
                    break;
                },
                Some(segment) => {
                    let ghost index = soonest(
                        ready.state.pending,
                        expected,
                        Some(limit),
                        ready.state.pending.len() as int,
                    );
                    self.force_gap_to_pending(segment, expected, reason, pieces);
                    proof {
                        lemma_skipped_shrinks(ready.state, expected, Some(limit), reason@);
                        let step = skipped_to(ready.state, index, expected, reason@);
                        assert(self@ =~= step.state);
                        assert(piece_views(pieces@) =~= delivered + (ready.pieces + step.pieces));
                        let rest = forced_until(step.state, limit, reason@);
                        assert(rest.preceded_by(piece_views(pieces@)) =~= goal);
                        state = step.state;
                    }
                },
            }
        }
    }

    fn force_gap_to_sequence(
        &mut self,
        expected: u32,
        sequence: u32,
        reason: &'static str,
        pieces: &mut Vec<StreamPiece>,
    )
        ensures
            (Assembled { state: final(self)@, pieces: piece_views(final(pieces)@) }) == gapped(
                old(self)@,
                expected,
                sequence,
                reason@,
            ).preceded_by(piece_views(old(pieces)@)),
    {
        let missing: u64 = distance(expected, sequence) as u64;
        let next_offset: u64 = self.next_offset.saturating_add(missing);
        let piece = StreamPiece::Gap {
            expected_offset: self.next_offset,
            next_offset: Some(next_offset),
            reason,
        };
        proof {
            lemma_piece_views_push(pieces@, piece);
        }
        pieces.push(piece);
        self.next_sequence = Some(sequence);
        self.next_offset = next_offset;
        assert(piece_views(pieces@) =~= gapped(
            old(self)@,
            expected,
            sequence,
            reason@,
        ).preceded_by(piece_views(old(pieces)@)).pieces);
    }

    fn flush_until_within_limits(&mut self, pieces: &mut Vec<StreamPiece>)
        ensures
            (Assembled { state: final(self)@, pieces: piece_views(final(pieces)@) }) == relieved(
                old(self)@,
            ).preceded_by(piece_views(old(pieces)@)),
    {
        let ghost goal = relieved(self@).preceded_by(piece_views(pieces@));
        let ghost mut state = self@;
        loop
            invariant_except_break
                self@ == state,
                relieved(state).preceded_by(piece_views(pieces@)) == goal,
            ensures
                (Assembled { state: self@, pieces: piece_views(pieces@) }) == goal,
            decreases state.pending.len(),
        {
            if !self.pending.exceeds_stream_limit() {
                assert(piece_views(pieces@) =~= goal.pieces);
                break;
            }
            let ghost delivered = piece_views(pieces@);
            let waiting_before: usize = self.pending.segments.len();
            self.force_gap_to_next_pending(BUFFER_LIMIT_GAP_REASON, pieces);
            let waiting_after: usize = self.pending.segments.len();
            let ghost step = forced(state, BUFFER_LIMIT_GAP_REASON@);
            if waiting_after >= waiting_before {
                break;
            }
            proof {
                let rest = relieved(step.state);
                assert(rest.preceded_by(step.pieces).preceded_by(delivered) =~= rest.preceded_by(
                    delivered + step.pieces,
                ));
                state = step.state;
            }
        }
    }

    fn drain_contiguous(&mut self, pieces: &mut Vec<StreamPiece>)
        ensures
            (Assembled { state: final(self)@, pieces: piece_views(final(pieces)@) }) == drained(
                old(self)@,
            ).preceded_by(piece_views(old(pieces)@)),
    {
        let ghost goal = drained(self@).preceded_by(piece_views(pieces@));
        let ghost mut state = self@;
        loop
            invariant_except_break
                self@ == state,
                drained(state).preceded_by(piece_views(pieces@)) == goal,
            ensures
                (Assembled { state: self@, pieces: piece_views(pieces@) }) == goal,
            decreases state.pending.len(),
        {
            let expected: u32 = match self.next_sequence {
                Some(expected) => expected,
                None => {
                    assert(piece_views(pieces@) =~= goal.pieces);
                    break;
                },
            };
            match self.pending.remove_duplicate(expected) {
                Some(_) => {
                    proof {
                        state = self@;
                    }
                },
                None => {
                    match self.pending.remove_reaching(expected) {
                        Some(segment) => {
                            let ghost view = segment@;
                            let ghost delivered = piece_views(pieces@);
                            let ghost emptied = self@;
                            self.emit_available(segment.sequence, segment.bytes, pieces);
                            proof {
                                let step = emitted(emptied, view.sequence, view.bytes);
                                let rest = drained(step.state);
                                assert(rest.preceded_by(step.pieces).preceded_by(delivered)
                                    =~= rest.preceded_by(delivered + step.pieces));
                                state = step.state;
                            }
                        },
                        None => {
                            assert(piece_views(pieces@) =~= goal.pieces);
                            break;
                        },
                    }
                },
            }
        }
    }

    fn force_gap_to_next_pending(&mut self, reason: &'static str, pieces: &mut Vec<StreamPiece>)
        ensures
            (Assembled { state: final(self)@, pieces: piece_views(final(pieces)@) }) == forced(
                old(self)@,
                reason@,
            ).preceded_by(piece_views(old(pieces)@)),
    {
        let ghost before = piece_views(pieces@);
        let ghost ready = drained(self@);
        self.drain_contiguous(pieces);
        let expected: u32 = match self.next_sequence {
            Some(expected) => expected,
            None => {
                return;
            },
        };
        match self.pending.remove_ahead(expected, None) {
            None => {},
            Some(segment) => {
                self.force_gap_to_pending(segment, expected, reason, pieces);
                assert(piece_views(pieces@) =~= forced(old(self)@, reason@).preceded_by(
                    before,
                ).pieces);
            },
        }
    }

    fn force_gap_to_pending(
        &mut self,
        segment: PendingSegment,
        expected: u32,
        reason: &'static str,
        pieces: &mut Vec<StreamPiece>,
    )
        ensures
            ({
                let gap = gapped(old(self)@, expected, segment@.sequence, reason@);
                let step = emitted(gap.state, segment@.sequence, segment@.bytes);
                (Assembled { state: final(self)@, pieces: piece_views(final(pieces)@) })
                    == drained(step.state).preceded_by(gap.pieces + step.pieces).preceded_by(
                    piece_views(old(pieces)@),
                )
            }),
    {
        let ghost before = piece_views(pieces@);
        let ghost gap = gapped(self@, expected, segment@.sequence, reason@);
        let ghost step = emitted(gap.state, segment@.sequence, segment@.bytes);
        self.force_gap_to_sequence(expected, segment.sequence, reason, pieces);
        self.emit_available(segment.sequence, segment.bytes, pieces);
        self.drain_contiguous(pieces);
        assert(piece_views(pieces@) =~= before + ((gap.pieces + step.pieces) + drained(
            step.state,
        ).pieces));
    }

    fn emit_available(&mut self, sequence: u32, bytes: Bytes, pieces: &mut Vec<StreamPiece>)
        ensures
            (Assembled { state: final(self)@, pieces: piece_views(final(pieces)@) }) == emitted(
                old(self)@,
                sequence,
                octets_of(bytes),
            ).preceded_by(piece_views(old(pieces)@)),
    {
        let expected: u32 = match self.next_sequence {
            Some(next) => next,
            None => sequence,
        };
        let skip: usize = if before(sequence, expected) {
            distance_usize(sequence, expected)
        } else {
            0
        };
        let length: usize = bytes.len();
        let ghost result = emitted(self@, sequence, octets_of(bytes)).preceded_by(
            piece_views(pieces@),
        );
        if skip >= length {
            self.next_sequence = Some(expected);
            assert(piece_views(pieces@) =~= result.pieces);
            return;
        }
        let fresh = buffer_range(&bytes, skip, length);
        assert(octets_of(fresh) =~= octets_of(bytes).skip(skip as int));
        let fresh_length: usize = fresh.len();
        let piece = StreamPiece::Bytes { stream_offset: self.next_offset, bytes: fresh };
        self.next_sequence = Some(advance(expected, fresh_length));
        self.next_offset = self.next_offset.saturating_add(fresh_length as u64);
        proof {
            lemma_piece_views_push(pieces@, piece);
        }
        pieces.push(piece);
        assert(piece_views(pieces@) =~= result.pieces);
    }
}

} // verus!
