//! What reassembling one direction of a TCP connection means.
//!
//! A stream is an expected sequence number, the offset that belongs to it, the segments that
//! wait because something before them is missing, and the sequence number at which the sender
//! closed. Every operation maps such a state to the next one and to the pieces that it delivers.
use vstd::prelude::*;

use crate::libpcap::stream::budget::{MAX_PENDING_BYTES, MAX_PENDING_SEGMENTS};
use crate::libpcap::tcp_seq::{seq_advance, seq_after, seq_before, seq_distance};

verus! {

/// Why a gap is reported when too much waits in one stream.
pub const BUFFER_LIMIT_GAP_REASON: &'static str =
    "libpcap TCP stream gap: out-of-order buffer limit reached before missing payload arrived";

/// A segment that waits for octets before it.
#[verifier::ext_equal]
pub struct SegmentView {
    pub sequence: u32,
    pub bytes: Seq<u8>,
}

impl SegmentView {
    /// The sequence number behind the last octet.
    pub open spec fn end(self) -> u32 {
        seq_advance(self.sequence, self.bytes.len())
    }

    /// Whether nothing of the segment lies at or behind `expected`.
    pub open spec fn is_duplicate(self, expected: u32) -> bool {
        !seq_after(self.sequence, expected) && !seq_after(self.end(), expected)
    }

    /// Whether the segment starts no later than `expected` and goes on behind it.
    pub open spec fn reaches(self, expected: u32) -> bool {
        !seq_after(self.sequence, expected) && seq_after(self.end(), expected)
    }

    /// Whether the segment starts ahead of `expected` and, where there is a limit, before it.
    pub open spec fn lies_ahead(self, expected: u32, limit: Option<u32>) -> bool {
        seq_after(self.sequence, expected) && (match limit {
            Some(end) => seq_before(self.sequence, end),
            None => true,
        })
    }
}

/// The state of one direction of a stream.
#[verifier::ext_equal]
pub struct AssemblerView {
    pub next_sequence: Option<u32>,
    pub next_offset: u64,
    pub pending: Seq<SegmentView>,
    pub closed_at: Option<u32>,
}

/// A delivered stretch of the stream.
#[verifier::ext_equal]
pub enum PieceView {
    Bytes { stream_offset: u64, bytes: Seq<u8> },
    Gap { expected_offset: u64, next_offset: Option<u64>, reason: Seq<char> },
}

/// A state together with the pieces that were delivered on the way to it.
#[verifier::ext_equal]
pub struct Assembled {
    pub state: AssemblerView,
    pub pieces: Seq<PieceView>,
}

impl Assembled {
    /// The pieces of `first` before those of this result.
    pub open spec fn preceded_by(self, first: Seq<PieceView>) -> Assembled {
        Assembled { state: self.state, pieces: first + self.pieces }
    }
}

/// A result without pieces.
pub open spec fn unchanged(state: AssemblerView) -> Assembled {
    Assembled { state, pieces: Seq::empty() }
}

/// `offset + count`, held at the largest offset.
pub open spec fn offset_sum(offset: u64, count: nat) -> u64 {
    if offset + count > u64::MAX {
        u64::MAX
    } else {
        (offset + count) as u64
    }
}

/// The index of the first segment that satisfies `wanted`; the length where none does.
pub open spec fn position(pending: Seq<SegmentView>, wanted: spec_fn(SegmentView) -> bool) -> nat
    decreases pending.len(),
{
    if pending.len() == 0 || wanted(pending[0]) {
        0
    } else {
        1 + position(pending.drop_first(), wanted)
    }
}

pub open spec fn first_duplicate(pending: Seq<SegmentView>, expected: u32) -> nat {
    position(pending, |segment: SegmentView| segment.is_duplicate(expected))
}

pub open spec fn first_reaching(pending: Seq<SegmentView>, expected: u32) -> nat {
    position(pending, |segment: SegmentView| segment.reaches(expected))
}

pub open spec fn first_with_sequence(pending: Seq<SegmentView>, sequence: u32) -> nat {
    position(pending, |segment: SegmentView| segment.sequence == sequence)
}

/// The segments without the one at `index`, whose place the last one takes.
pub open spec fn swap_removed(pending: Seq<SegmentView>, index: int) -> Seq<SegmentView> {
    pending.update(index, pending.last()).drop_last()
}

impl AssemblerView {
    pub open spec fn without(self, index: int) -> AssemblerView {
        AssemblerView { pending: swap_removed(self.pending, index), ..self }
    }
}

/// The index among the first `count` segments of the one ahead of `expected` that comes soonest;
/// of equals the first; `-1` where none lies ahead.
pub open spec fn soonest(
    pending: Seq<SegmentView>,
    expected: u32,
    limit: Option<u32>,
    count: int,
) -> int
    decreases count,
{
    if count <= 0 {
        -1
    } else {
        let best = soonest(pending, expected, limit, count - 1);
        let candidate = pending[count - 1];
        if candidate.lies_ahead(expected, limit) && (best < 0 || seq_distance(
            expected,
            candidate.sequence,
        ) < seq_distance(expected, pending[best].sequence)) {
            count - 1
        } else {
            best
        }
    }
}

/// Delivers what `bytes`, which start at `sequence`, add behind the expected position.
pub open spec fn emitted(state: AssemblerView, sequence: u32, bytes: Seq<u8>) -> Assembled {
    let expected = match state.next_sequence {
        Some(next) => next,
        None => sequence,
    };
    let skip = if seq_before(sequence, expected) {
        seq_distance(sequence, expected)
    } else {
        0
    };
    if skip >= bytes.len() {
        unchanged(AssemblerView { next_sequence: Some(expected), ..state })
    } else {
        let fresh = bytes.skip(skip as int);
        Assembled {
            state: AssemblerView {
                next_sequence: Some(seq_advance(expected, fresh.len())),
                next_offset: offset_sum(state.next_offset, fresh.len()),
                ..state
            },
            pieces: seq![PieceView::Bytes { stream_offset: state.next_offset, bytes: fresh }],
        }
    }
}

/// Drops waiting duplicates and delivers waiting segments as long as one reaches the expected
/// position.
pub open spec fn drained(state: AssemblerView) -> Assembled
    decreases state.pending.len(),
{
    match state.next_sequence {
        None => unchanged(state),
        Some(expected) => {
            let duplicate = first_duplicate(state.pending, expected);
            let reaching = first_reaching(state.pending, expected);
            if duplicate < state.pending.len() {
                drained(state.without(duplicate as int))
            } else if reaching < state.pending.len() {
                let segment = state.pending[reaching as int];
                let step = emitted(state.without(reaching as int), segment.sequence, segment.bytes);
                drained(step.state).preceded_by(step.pieces)
            } else {
                unchanged(state)
            }
        },
    }
}

/// Draining lets nothing new wait, and forgets neither the position nor the close.
pub proof fn lemma_drained_shrinks(state: AssemblerView)
    ensures
        drained(state).state.pending.len() <= state.pending.len(),
        drained(state).state.closed_at == state.closed_at,
        drained(state).state.next_sequence is Some == state.next_sequence is Some,
    decreases state.pending.len(),
{
    if let Some(expected) = state.next_sequence {
        let duplicate = first_duplicate(state.pending, expected);
        let reaching = first_reaching(state.pending, expected);
        if duplicate < state.pending.len() {
            lemma_drained_shrinks(state.without(duplicate as int));
        } else if reaching < state.pending.len() {
            let segment = state.pending[reaching as int];
            let step = emitted(
                state.without(reaching as int),
                segment.sequence,
                segment.bytes,
            );
            lemma_drained_shrinks(step.state);
        }
    }
}

/// Where a segment is found to come soonest, it is one of those looked at and lies ahead.
pub proof fn lemma_soonest_lies_ahead(
    pending: Seq<SegmentView>,
    expected: u32,
    limit: Option<u32>,
    count: int,
)
    requires
        count <= pending.len(),
    ensures
        -1 <= soonest(pending, expected, limit, count),
        soonest(pending, expected, limit, count) < pending.len(),
        soonest(pending, expected, limit, count) >= 0 ==> pending[soonest(
            pending,
            expected,
            limit,
            count,
        )].lies_ahead(expected, limit),
        forall|index: int|
            0 <= index < count && (#[trigger] pending[index]).lies_ahead(expected, limit)
                ==> soonest(pending, expected, limit, count) >= 0,
    decreases count,
{
    if count > 0 {
        lemma_soonest_lies_ahead(pending, expected, limit, count - 1);
    }
}

/// Reports everything from `expected` up to `sequence` as missing.
pub open spec fn gapped(
    state: AssemblerView,
    expected: u32,
    sequence: u32,
    reason: Seq<char>,
) -> Assembled {
    let next_offset = offset_sum(state.next_offset, seq_distance(expected, sequence));
    Assembled {
        state: AssemblerView { next_sequence: Some(sequence), next_offset, ..state },
        pieces: seq![
            PieceView::Gap {
                expected_offset: state.next_offset,
                next_offset: Some(next_offset),
                reason,
            },
        ],
    }
}

/// Takes the waiting segment at `index` out, reports what is missing before it, delivers it and
/// what then follows.
pub open spec fn skipped_to(
    state: AssemblerView,
    index: int,
    expected: u32,
    reason: Seq<char>,
) -> Assembled {
    let segment = state.pending[index];
    let gap = gapped(state.without(index), expected, segment.sequence, reason);
    let step = emitted(gap.state, segment.sequence, segment.bytes);
    drained(step.state).preceded_by(gap.pieces + step.pieces)
}

/// Skipping to the segment that comes soonest takes at least that one out.
pub proof fn lemma_skipped_shrinks(
    state: AssemblerView,
    expected: u32,
    limit: Option<u32>,
    reason: Seq<char>,
)
    ensures
        ({
            let index = soonest(state.pending, expected, limit, state.pending.len() as int);
            let step = skipped_to(state, index, expected, reason);
            index >= 0 ==> {
                &&& step.state.pending.len() < state.pending.len()
                &&& step.state.closed_at == state.closed_at
                &&& step.state.next_sequence is Some
            }
        }),
{
    let count = state.pending.len() as int;
    lemma_soonest_lies_ahead(state.pending, expected, limit, count);
    let index = soonest(state.pending, expected, limit, count);
    if index >= 0 {
        let segment = state.pending[index];
        let gap = gapped(state.without(index), expected, segment.sequence, reason);
        let step = emitted(gap.state, segment.sequence, segment.bytes);
        lemma_drained_shrinks(step.state);
    }
}

/// Delivers what is ready and then skips to the segment that comes soonest, if one waits.
pub open spec fn forced(state: AssemblerView, reason: Seq<char>) -> Assembled {
    let ready = drained(state);
    match ready.state.next_sequence {
        None => ready,
        Some(expected) => {
            let index = soonest(
                ready.state.pending,
                expected,
                None,
                ready.state.pending.len() as int,
            );
            if index < 0 {
                ready
            } else {
                skipped_to(ready.state, index, expected, reason).preceded_by(ready.pieces)
            }
        },
    }
}

/// Delivers everything that waits, with a gap wherever something is missing.
pub open spec fn flushed(state: AssemblerView, reason: Seq<char>) -> Assembled
    decreases state.pending.len(),
{
    let step = forced(state, reason);
    if step.state.pending.len() == 0 || step.state.pending.len() >= state.pending.len() {
        step
    } else {
        flushed(step.state, reason).preceded_by(step.pieces)
    }
}

/// The number of octets that wait.
pub open spec fn total_bytes(pending: Seq<SegmentView>) -> nat
    decreases pending.len(),
{
    if pending.len() == 0 {
        0
    } else {
        total_bytes(pending.drop_last()) + pending.last().bytes.len()
    }
}

/// Whether more waits than one stream may hold.
pub open spec fn exceeds_stream_limit(pending: Seq<SegmentView>) -> bool {
    pending.len() > MAX_PENDING_SEGMENTS || total_bytes(pending) > MAX_PENDING_BYTES
}

/// Skips ahead until no more waits than one stream may hold.
pub open spec fn relieved(state: AssemblerView) -> Assembled
    decreases state.pending.len(),
{
    if !exceeds_stream_limit(state.pending) {
        unchanged(state)
    } else {
        let step = forced(state, BUFFER_LIMIT_GAP_REASON@);
        if step.state.pending.len() >= state.pending.len() {
            step
        } else {
            relieved(step.state).preceded_by(step.pieces)
        }
    }
}

/// The waiting segments with another one: of two with the same start the longer stays, and the
/// older where they are equally long.
pub open spec fn with_pending(
    pending: Seq<SegmentView>,
    sequence: u32,
    bytes: Seq<u8>,
) -> Seq<SegmentView> {
    let index = first_with_sequence(pending, sequence);
    if index < pending.len() {
        if bytes.len() > pending[index as int].bytes.len() {
            pending.update(index as int, SegmentView { sequence, bytes })
        } else {
            pending
        }
    } else {
        pending.push(SegmentView { sequence, bytes })
    }
}

/// How many of `length` octets from `sequence` on lie before the close of the stream.
pub open spec fn allowed_length(closed_at: Option<u32>, sequence: u32, length: nat) -> nat {
    match closed_at {
        None => length,
        Some(close) => if !seq_before(sequence, close) {
            0
        } else if length <= seq_distance(sequence, close) {
            length
        } else {
            seq_distance(sequence, close)
        },
    }
}

/// Takes a segment in.
pub open spec fn ingested(state: AssemblerView, sequence: u32, payload: Seq<u8>) -> Assembled {
    let allowed = allowed_length(state.closed_at, sequence, payload.len());
    let bytes = payload.take(allowed as int);
    if allowed == 0 {
        unchanged(state)
    } else {
        match state.next_sequence {
            None => emitted(state, sequence, bytes),
            Some(expected) => if !seq_after(sequence, expected) {
                let step = emitted(state, sequence, bytes);
                drained(step.state).preceded_by(step.pieces)
            } else {
                relieved(
                    AssemblerView {
                        pending: with_pending(state.pending, sequence, bytes),
                        ..state
                    },
                )
            },
        }
    }
}

/// The waiting segments cut at the close of the stream.
pub open spec fn trimmed(pending: Seq<SegmentView>, close: u32) -> Seq<SegmentView>
    decreases pending.len(),
{
    if pending.len() == 0 {
        Seq::empty()
    } else {
        let rest = trimmed(pending.drop_last(), close);
        let last = pending.last();
        let allowed = allowed_length(Some(close), last.sequence, last.bytes.len());
        if allowed == 0 {
            rest
        } else {
            rest.push(
                SegmentView { sequence: last.sequence, bytes: last.bytes.take(allowed as int) },
            )
        }
    }
}

/// Delivers what waits before `limit`, with gaps, and reports the rest up to `limit` as missing.
pub open spec fn forced_until(state: AssemblerView, limit: u32, reason: Seq<char>) -> Assembled
    decreases state.pending.len(),
{
    let ready = drained(state);
    match ready.state.next_sequence {
        None => ready,
        Some(expected) => if !seq_after(limit, expected) {
            ready
        } else {
            let index = soonest(
                ready.state.pending,
                expected,
                Some(limit),
                ready.state.pending.len() as int,
            );
            if index < 0 {
                gapped(ready.state, expected, limit, reason).preceded_by(ready.pieces)
            } else {
                let step = skipped_to(ready.state, index, expected, reason);
                proof {
                    lemma_drained_shrinks(state);
                    lemma_skipped_shrinks(ready.state, expected, Some(limit), reason);
                }
                forced_until(step.state, limit, reason).preceded_by(ready.pieces + step.pieces)
            }
        },
    }
}

/// Closes the stream at `sequence`, unless it is closed already, and delivers all before that.
pub open spec fn closed(state: AssemblerView, sequence: u32, reason: Seq<char>) -> Assembled {
    let close = match state.closed_at {
        Some(earlier) => earlier,
        None => sequence,
    };
    forced_until(
        AssemblerView {
            closed_at: Some(close),
            pending: trimmed(state.pending, close),
            ..state
        },
        close,
        reason,
    )
}

} // verus!
