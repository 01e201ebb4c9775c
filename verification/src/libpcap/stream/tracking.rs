//! What tracking the streams of all flows means.
use vstd::prelude::*;

use crate::event::{
    CaptureEventView, CapturedBytesView, CapturedGapView, EnforcementEvidencePropagation,
};
use crate::keyed::{holds, index_of, lemma_index_of, value_of, with_value, without_key};
use crate::libpcap::flow::model::{FlowCloseSequence, FlowClosureView, FlowPayloadView};
use crate::libpcap::stream::assembler::{fresh_stream, pending_count_of};
use crate::libpcap::stream::assembly::{
    closed, flushed, forced, ingested, Assembled, AssemblerView, PieceView,
};
use crate::libpcap::stream::budget::{
    by_age, entry_keys, PendingIndexView, StreamKeyView,
};
use crate::model::{
    libpcap_origin, Direction, EnforcementEvidenceView, FlowContextView, GapView, Timestamp,
};

verus! {

/// Why a gap is reported when too much waits in all streams together.
pub const GLOBAL_BUFFER_LIMIT_GAP_REASON: &'static str =
    "libpcap TCP stream gap: global out-of-order buffer limit reached before missing payload arrived";

/// Why a gap is reported when missing payload did not arrive in time.
pub const REORDER_TIMEOUT_GAP_REASON: &'static str =
    "libpcap TCP stream gap: read timeout expired before missing payload arrived";

/// Why a gap is reported when the flow was closed.
pub const FLOW_CLOSE_GAP_REASON: &'static str =
    "libpcap TCP stream gap: flow closed with unresolved out-of-order payload";

/// Why a gap is reported when another generation of the runtime takes over.
pub const HANDOFF_GAP_REASON: &'static str =
    "libpcap TCP stream gap: runtime generation handoff before missing payload arrived";

/// What every payload from libpcap suffers from.
pub const DEGRADATION_BASE: &'static str =
    "libpcap fallback uses best-effort TCP stream assembly with best-effort attribution";

/// Why payload is degraded, with the failure to attribute it where there was one.
pub open spec fn degradation_text(attribution_failure: Option<Seq<char>>) -> Seq<char> {
    match attribution_failure {
        Some(failure) => DEGRADATION_BASE@ + "; process attribution failed: "@ + failure,
        None => DEGRADATION_BASE@,
    }
}

/// One direction of a flow, with what its events carry.
#[verifier::ext_equal]
pub struct StreamEntryView {
    pub flow: FlowContextView,
    pub direction: Direction,
    pub attribution_confidence: u8,
    pub degradation_reason: Seq<char>,
    pub stream: AssemblerView,
    pub last_activity_monotonic_ns: u64,
}

/// All streams, and what waits in them.
#[verifier::ext_equal]
pub struct StreamTrackerView {
    pub streams: Seq<(StreamKeyView, StreamEntryView)>,
    pub pending: PendingIndexView,
}

/// A state of all streams together with the events on the way to it.
#[verifier::ext_equal]
pub struct Delivered {
    pub state: StreamTrackerView,
    pub events: Seq<CaptureEventView>,
}

impl Delivered {
    /// The events of `first` before those of this result.
    pub open spec fn preceded_by(self, first: Seq<CaptureEventView>) -> Delivered {
        Delivered { state: self.state, events: first + self.events }
    }
}

/// The key of one direction of a flow.
pub open spec fn stream_key(flow: FlowContextView, direction: Direction) -> StreamKeyView {
    StreamKeyView { flow_id: flow.id, direction }
}

/// The event for a delivered piece.
pub open spec fn piece_event(
    timestamp: Timestamp,
    entry: StreamEntryView,
    piece: PieceView,
) -> CaptureEventView {
    match piece {
        PieceView::Bytes { stream_offset, bytes } => CaptureEventView::Bytes(
            CapturedBytesView {
                timestamp,
                flow: entry.flow,
                origin: libpcap_origin(),
                direction: entry.direction,
                stream_offset,
                bytes,
                attribution_confidence: entry.attribution_confidence,
                degraded: true,
                degradation_reason: Some(entry.degradation_reason),
                enforcement_evidence: EnforcementEvidenceView::Unrestricted,
                enforcement_evidence_propagation: EnforcementEvidencePropagation::Event,
            },
        ),
        PieceView::Gap { expected_offset, next_offset, reason } => CaptureEventView::Gap(
            CapturedGapView {
                timestamp,
                flow: entry.flow,
                origin: libpcap_origin(),
                enforcement_evidence: EnforcementEvidenceView::Unrestricted,
                enforcement_evidence_propagation: EnforcementEvidencePropagation::Event,
                gap: GapView {
                    direction: entry.direction,
                    expected_offset,
                    next_offset,
                    reason,
                },
            },
        ),
    }
}

/// The events for delivered pieces, in their order.
pub open spec fn piece_events(
    timestamp: Timestamp,
    entry: StreamEntryView,
    pieces: Seq<PieceView>,
) -> Seq<CaptureEventView> {
    pieces.map_values(|piece: PieceView| piece_event(timestamp, entry, piece))
}

/// A stream as it is first seen with payload, or seen again.
pub open spec fn refreshed(
    stream: AssemblerView,
    timestamp: Timestamp,
    payload: FlowPayloadView,
    degradation_reason: Seq<char>,
) -> StreamEntryView {
    StreamEntryView {
        flow: payload.flow,
        direction: payload.direction,
        attribution_confidence: payload.attribution_confidence,
        degradation_reason,
        stream,
        last_activity_monotonic_ns: timestamp.monotonic_ns,
    }
}

/// A stream that is first seen as it closes.
pub open spec fn first_seen_closing(
    timestamp: Timestamp,
    flow: FlowContextView,
    direction: Direction,
) -> StreamEntryView {
    StreamEntryView {
        flow,
        direction,
        attribution_confidence: flow.attribution_confidence,
        degradation_reason: degradation_text(None),
        stream: fresh_stream(),
        last_activity_monotonic_ns: timestamp.monotonic_ns,
    }
}

/// The number of segments that wait in all streams.
pub open spec fn waiting_segments(streams: Seq<(StreamKeyView, StreamEntryView)>) -> nat
    decreases streams.len(),
{
    if streams.len() == 0 {
        0
    } else {
        waiting_segments(streams.drop_last()) + streams.last().1.stream.pending.len()
    }
}

/// Replacing the value under a held key changes the total by the difference.
pub proof fn lemma_waiting_with_value(
    streams: Seq<(StreamKeyView, StreamEntryView)>,
    key: StreamKeyView,
    entry: StreamEntryView,
)
    requires
        holds(streams, key),
    ensures
        waiting_segments(with_value(streams, key, entry)) == waiting_segments(streams) - value_of(
            streams,
            key,
        ).stream.pending.len() + entry.stream.pending.len(),
{
    lemma_index_of(streams, key);
    lemma_waiting_update(streams, index_of(streams, key) as int, (key, entry));
}

proof fn lemma_waiting_update(
    streams: Seq<(StreamKeyView, StreamEntryView)>,
    index: int,
    entry: (StreamKeyView, StreamEntryView),
)
    requires
        0 <= index < streams.len(),
    ensures
        waiting_segments(streams.update(index, entry)) == waiting_segments(streams)
            - streams[index].1.stream.pending.len() + entry.1.stream.pending.len(),
    decreases streams.len(),
{
    let updated = streams.update(index, entry);
    if index == streams.len() - 1 {
        assert(updated.drop_last() =~= streams.drop_last());
    } else {
        lemma_waiting_update(streams.drop_last(), index, entry);
        assert(updated.drop_last() =~= streams.drop_last().update(index, entry));
        assert(updated.last() == streams.last());
    }
}

impl StreamTrackerView {
    pub open spec fn empty() -> StreamTrackerView {
        StreamTrackerView { streams: Seq::empty(), pending: PendingIndexView::empty() }
    }

    /// The state once the stream under `key`, described by `entry`, went through `step`.
    pub open spec fn recorded(
        self,
        timestamp: Timestamp,
        key: StreamKeyView,
        entry: StreamEntryView,
        step: Assembled,
    ) -> Delivered {
        let after = StreamEntryView { stream: step.state, ..entry };
        Delivered {
            state: StreamTrackerView {
                streams: with_value(self.streams, key, after),
                pending: self.pending.updated(
                    key,
                    after.last_activity_monotonic_ns,
                    pending_count_of(step.state.pending),
                ),
            },
            events: piece_events(timestamp, after, step.pieces),
        }
    }

    /// The state once too much of what waits was skipped to, the longest inactive stream first.
    pub open spec fn within_budget(self, timestamp: Timestamp) -> Delivered
        decreases waiting_segments(self.streams), self.pending.queue.len(),
    {
        if !self.pending.over_limit() {
            Delivered { state: self, events: Seq::empty() }
        } else {
            let popped = StreamTrackerView { pending: self.pending.without_oldest(), ..self };
            match self.pending.oldest() {
                None => Delivered { state: popped, events: Seq::empty() },
                Some(key) => if !holds(self.streams, key) {
                    let cleared = StreamTrackerView {
                        pending: popped.pending.removed(key),
                        ..self
                    };
                    cleared.within_budget(timestamp)
                } else {
                    let entry = value_of(self.streams, key);
                    let step = forced(entry.stream, GLOBAL_BUFFER_LIMIT_GAP_REASON@);
                    let mutation = popped.recorded(timestamp, key, entry, step);
                    proof {
                        lemma_waiting_with_value(
                            self.streams,
                            key,
                            StreamEntryView { stream: step.state, ..entry },
                        );
                    }
                    if step.state.pending.len() >= entry.stream.pending.len() {
                        mutation
                    } else {
                        mutation.state.within_budget(timestamp).preceded_by(mutation.events)
                    }
                },
            }
        }
    }

    /// The state once a segment of `payload` was taken in.
    pub open spec fn ingested(
        self,
        timestamp: Timestamp,
        sequence: u32,
        bytes: Seq<u8>,
        payload: FlowPayloadView,
        degradation_reason: Seq<char>,
    ) -> Delivered {
        let key = stream_key(payload.flow, payload.direction);
        let stream = if holds(self.streams, key) {
            value_of(self.streams, key).stream
        } else {
            fresh_stream()
        };
        let entry = refreshed(stream, timestamp, payload, degradation_reason);
        let step = self.recorded(timestamp, key, entry, ingested(stream, sequence, bytes));
        step.state.within_budget(timestamp).preceded_by(step.events)
    }

    /// The state once everything that waits in the streams under `keys` was delivered.
    pub open spec fn flushed_keys(
        self,
        timestamp: Timestamp,
        keys: Seq<StreamKeyView>,
        reason: Seq<char>,
    ) -> Delivered
        decreases keys.len(),
    {
        if keys.len() == 0 {
            Delivered { state: self, events: Seq::empty() }
        } else {
            let key = keys[0];
            if !holds(self.streams, key) {
                let cleared = StreamTrackerView { pending: self.pending.removed(key), ..self };
                cleared.flushed_keys(timestamp, keys.drop_first(), reason)
            } else {
                let entry = value_of(self.streams, key);
                let step = self.recorded(timestamp, key, entry, flushed(entry.stream, reason));
                step.state.flushed_keys(timestamp, keys.drop_first(), reason).preceded_by(
                    step.events,
                )
            }
        }
    }

    /// The state once everything that waits was delivered, the longest inactive stream first.
    pub open spec fn flushed_all(self, timestamp: Timestamp, reason: Seq<char>) -> Delivered {
        self.flushed_keys(timestamp, entry_keys(by_age(self.pending.entries)), reason)
    }

    /// The state once one direction of a flow was closed.
    pub open spec fn finalized(
        self,
        timestamp: Timestamp,
        flow: FlowContextView,
        close_sequence: FlowCloseSequence,
    ) -> Delivered {
        let key = stream_key(flow, close_sequence.direction);
        let entry = if holds(self.streams, key) {
            value_of(self.streams, key)
        } else {
            first_seen_closing(timestamp, flow, close_sequence.direction)
        };
        self.recorded(
            timestamp,
            key,
            entry,
            closed(entry.stream, close_sequence.sequence, FLOW_CLOSE_GAP_REASON@),
        )
    }

    /// The state once the given directions of a flow were closed, in order.
    pub open spec fn finalized_each(
        self,
        timestamp: Timestamp,
        flow: FlowContextView,
        close_sequences: Seq<FlowCloseSequence>,
    ) -> Delivered
        decreases close_sequences.len(),
    {
        if close_sequences.len() == 0 {
            Delivered { state: self, events: Seq::empty() }
        } else {
            let step = self.finalized(timestamp, flow, close_sequences[0]);
            step.state.finalized_each(timestamp, flow, close_sequences.drop_first()).preceded_by(
                step.events,
            )
        }
    }

    /// The state once one direction of a flow was flushed and forgotten.
    pub open spec fn forgotten(
        self,
        timestamp: Timestamp,
        flow: FlowContextView,
        direction: Direction,
    ) -> Delivered {
        let key = stream_key(flow, direction);
        let state = StreamTrackerView {
            streams: without_key(self.streams, key),
            pending: self.pending.removed(key),
        };
        if !holds(self.streams, key) {
            Delivered { state, events: Seq::empty() }
        } else {
            let entry = value_of(self.streams, key);
            let step = flushed(entry.stream, FLOW_CLOSE_GAP_REASON@);
            Delivered {
                state,
                events: piece_events(
                    timestamp,
                    StreamEntryView { stream: step.state, ..entry },
                    step.pieces,
                ),
            }
        }
    }

    /// The state once a flow was closed: its closed directions first, then what still waits,
    /// inbound before outbound.
    pub open spec fn flow_closed(self, timestamp: Timestamp, closure: FlowClosureView) -> Delivered {
        let ends = self.finalized_each(timestamp, closure.flow, closure.finalizations);
        let inbound = ends.state.forgotten(timestamp, closure.flow, Direction::Inbound);
        let outbound = inbound.state.forgotten(timestamp, closure.flow, Direction::Outbound);
        outbound.preceded_by(inbound.events).preceded_by(ends.events)
    }
}

} // verus!
