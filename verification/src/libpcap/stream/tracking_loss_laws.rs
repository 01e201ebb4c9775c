//! No captured octet is lost in any stream: it is told in an event, or it waits.
use vstd::prelude::*;

use crate::event::CaptureEventView;
use crate::keyed::{distinct_keys, holds, lemma_with_value, lemma_without_key, value_of, with_value};
use crate::libpcap::flow::model::{FlowCloseSequence, FlowClosureView, FlowPayloadView};
use crate::libpcap::stream::assembler::fresh_stream;
use crate::libpcap::stream::assembly::{
    closed, drained, flushed, forced, ingested, total_bytes, Assembled, AssemblerView, PieceView,
};
use crate::libpcap::stream::budget::{by_age, entry_keys, StreamKeyView};
use crate::libpcap::stream::laws::{law_flush_delivers, law_forced_delivers};
use crate::libpcap::stream::loss_laws::{
    ahead_of, brings, delivered_at, half, is_kept, law_close_delivers_all_before_it,
    law_flush_misses_nothing_that_waits, law_forced_loses_nothing, law_ingest_loses_nothing,
    lemma_flush_keeps_octets, lies_before_close, loses_nothing, waits_ahead, waits_at,
};
use crate::libpcap::stream::tracking::{
    lemma_waiting_with_value, piece_event, piece_events, refreshed, stream_key, waiting_segments,
    Delivered, StreamEntryView, StreamTrackerView, FLOW_CLOSE_GAP_REASON,
    GLOBAL_BUFFER_LIMIT_GAP_REASON,
};
use crate::libpcap::stream::tracking_laws::{consistent, law_flush_all_leaves_nothing_waiting};
use crate::libpcap::tcp_seq::{seq_after, seq_distance};
use crate::model::{Direction, FlowContextView, Timestamp};

verus! {

/// Whether an event tells the octet at an offset of a direction of a flow.
pub open spec fn tells(event: CaptureEventView, key: StreamKeyView, offset: int) -> bool {
    event matches CaptureEventView::Bytes(bytes) && stream_key(bytes.flow, bytes.direction) == key
        && bytes.stream_offset <= offset < bytes.stream_offset + bytes.bytes.len()
}

/// Whether some events tell the octet at an offset of a direction of a flow.
pub open spec fn tells_octet(
    events: Seq<CaptureEventView>,
    key: StreamKeyView,
    offset: int,
) -> bool {
    exists|index: int| 0 <= index < events.len() && tells(#[trigger] events[index], key, offset)
}

/// Whether the octet at an offset waits in a stream.
pub open spec fn waits_in(stream: AssemblerView, offset: int) -> bool {
    stream.next_sequence is Some && waits_at(
        stream.pending,
        stream.next_sequence->0,
        offset - stream.next_offset,
    )
}

/// Whether the octet at an offset of a direction of a flow waits.
pub open spec fn octet_waits(tracker: StreamTrackerView, key: StreamKeyView, offset: int) -> bool {
    holds(tracker.streams, key) && waits_in(value_of(tracker.streams, key).stream, offset)
}

/// Whether the stream under a key is that of the flow and the direction that the key tells.
pub open spec fn well_keyed(tracker: StreamTrackerView, key: StreamKeyView) -> bool {
    holds(tracker.streams, key) ==> stream_key(
        value_of(tracker.streams, key).flow,
        value_of(tracker.streams, key).direction,
    ) == key
}

/// Whether a step of a stream loses no octet that waited, unless offsets are exhausted.
spec fn step_loses_nothing(before: AssemblerView, step: Assembled) -> bool {
    &&& step.state.next_offset >= before.next_offset
    &&& waits_ahead(before) && step.state.next_offset < u64::MAX ==> waits_ahead(step.state)
        && forall|offset: int| #[trigger]
        waits_in(before, offset) ==> delivered_at(step.pieces, offset) || waits_in(
            step.state,
            offset,
        )
}

/// Whether nothing that waited under a key is lost, unless offsets are exhausted.
spec fn carried(before: StreamTrackerView, result: Delivered, key: StreamKeyView) -> bool {
    let earlier = value_of(before.streams, key).stream;
    let later = value_of(result.state.streams, key).stream;
    &&& distinct_keys(result.state.streams)
    &&& holds(result.state.streams, key)
    &&& well_keyed(result.state, key)
    &&& later.next_offset >= earlier.next_offset
    &&& waits_ahead(earlier) && later.next_offset < u64::MAX ==> waits_ahead(later) && forall|
        offset: int,
    | #[trigger]
        waits_in(earlier, offset) ==> tells_octet(result.events, key, offset) || waits_in(
            later,
            offset,
        )
}

proof fn lemma_told_first(
    first: Seq<CaptureEventView>,
    second: Seq<CaptureEventView>,
    key: StreamKeyView,
    offset: int,
)
    requires
        tells_octet(first, key, offset),
    ensures
        tells_octet(first + second, key, offset),
{
    let index = choose|index: int|
        0 <= index < first.len() && tells(#[trigger] first[index], key, offset);
    assert((first + second)[index] == first[index]);
}

proof fn lemma_told_second(
    first: Seq<CaptureEventView>,
    second: Seq<CaptureEventView>,
    key: StreamKeyView,
    offset: int,
)
    requires
        tells_octet(second, key, offset),
    ensures
        tells_octet(first + second, key, offset),
{
    let index = choose|index: int|
        0 <= index < second.len() && tells(#[trigger] second[index], key, offset);
    assert((first + second)[first.len() + index] == second[index]);
}

proof fn lemma_carried_twice(
    before: StreamTrackerView,
    first: Delivered,
    second: Delivered,
    key: StreamKeyView,
)
    requires
        carried(before, first, key),
        carried(first.state, second, key),
    ensures
        carried(before, second.preceded_by(first.events), key),
{
    let earlier = value_of(before.streams, key).stream;
    let middle = value_of(first.state.streams, key).stream;
    let later = value_of(second.state.streams, key).stream;
    let result = second.preceded_by(first.events);
    if waits_ahead(earlier) && later.next_offset < u64::MAX {
        assert forall|offset: int| #[trigger] waits_in(earlier, offset) implies tells_octet(
            result.events,
            key,
            offset,
        ) || waits_in(later, offset) by {
            if tells_octet(first.events, key, offset) {
                lemma_told_first(first.events, second.events, key, offset);
            } else {
                assert(waits_in(middle, offset));
                if tells_octet(second.events, key, offset) {
                    lemma_told_second(first.events, second.events, key, offset);
                }
            }
        }
    }
}

proof fn lemma_pieces_are_told(
    timestamp: Timestamp,
    entry: StreamEntryView,
    pieces: Seq<PieceView>,
    offset: int,
)
    requires
        delivered_at(pieces, offset),
    ensures
        tells_octet(
            piece_events(timestamp, entry, pieces),
            stream_key(entry.flow, entry.direction),
            offset,
        ),
{
    let index = choose|index: int|
        0 <= index < pieces.len() && brings(#[trigger] pieces[index], offset);
    let events = piece_events(timestamp, entry, pieces);
    assert(events[index] == piece_event(timestamp, entry, pieces[index]));
    assert(tells(events[index], stream_key(entry.flow, entry.direction), offset));
}

/// A step of one stream carries what waits in it and in all others.
proof fn lemma_step_carries(
    tracker: StreamTrackerView,
    timestamp: Timestamp,
    stepped: StreamKeyView,
    entry: StreamEntryView,
    step: Assembled,
    key: StreamKeyView,
)
    requires
        distinct_keys(tracker.streams),
        holds(tracker.streams, key),
        well_keyed(tracker, key),
        stream_key(entry.flow, entry.direction) == stepped,
        stepped == key ==> entry.stream == value_of(tracker.streams, key).stream
            && step_loses_nothing(entry.stream, step),
    ensures
        carried(tracker, tracker.recorded(timestamp, stepped, entry, step), key),
{
    let after = StreamEntryView { stream: step.state, ..entry };
    let result = tracker.recorded(timestamp, stepped, entry, step);
    lemma_with_value(tracker.streams, stepped, after);
    let earlier = value_of(tracker.streams, key).stream;
    if stepped == key {
        assert(value_of(result.state.streams, key) == after);
        if waits_ahead(earlier) && step.state.next_offset < u64::MAX {
            assert forall|offset: int| #[trigger] waits_in(earlier, offset) implies tells_octet(
                result.events,
                key,
                offset,
            ) || waits_in(step.state, offset) by {
                if delivered_at(step.pieces, offset) {
                    lemma_pieces_are_told(timestamp, after, step.pieces, offset);
                }
            }
        }
    } else {
        assert(value_of(with_value(tracker.streams, stepped, after), key) == value_of(
            tracker.streams,
            key,
        ));
    }
}

spec fn anything() -> spec_fn(u32, u8) -> bool {
    |sequence: u32, octet: u8| true
}

proof fn lemma_lost_or_not(before: AssemblerView, result: Assembled)
    requires
        before.next_sequence is Some,
        result.state.next_sequence is Some,
        loses_nothing(before, result),
    ensures
        forall|offset: int| #[trigger]
            waits_in(before, offset) ==> delivered_at(result.pieces, offset) || waits_in(
                result.state,
                offset,
            ),
{
    assert forall|offset: int| #[trigger] waits_in(before, offset) implies delivered_at(
        result.pieces,
        offset,
    ) || waits_in(result.state, offset) by {
        let ahead = offset - before.next_offset;
        assert(waits_at(before.pending, before.next_sequence->0, ahead));
        assert(is_kept(before, result, ahead));
    }
}

proof fn lemma_forced_step(stream: AssemblerView, reason: Seq<char>)
    ensures
        step_loses_nothing(stream, forced(stream, reason)),
{
    let result = forced(stream, reason);
    if stream.next_sequence is Some {
        law_forced_delivers(stream, reason, anything());
        if waits_ahead(stream) && result.state.next_offset < u64::MAX {
            law_forced_loses_nothing(stream, reason);
            lemma_lost_or_not(stream, result);
        }
    } else {
        assert(drained(stream).state == stream);
    }
}

proof fn lemma_flushed_step(stream: AssemblerView, reason: Seq<char>)
    requires
        stream.next_sequence is None ==> stream.pending.len() == 0,
    ensures
        step_loses_nothing(stream, flushed(stream, reason)),
{
    let result = flushed(stream, reason);
    if stream.next_sequence is Some {
        law_flush_delivers(stream, reason, anything());
        if waits_ahead(stream) && result.state.next_offset < u64::MAX {
            lemma_flush_keeps_octets(stream, reason);
            lemma_lost_or_not(stream, result);
        }
    } else {
        assert(forced(stream, reason) == drained(stream));
        assert(drained(stream).state == stream);
    }
}

/// Skipping ahead in streams, because too much waits in all of them together, loses nothing.
proof fn lemma_within_budget_carries(
    tracker: StreamTrackerView,
    timestamp: Timestamp,
    key: StreamKeyView,
)
    requires
        distinct_keys(tracker.streams),
        holds(tracker.streams, key),
        forall|other: StreamKeyView| #[trigger]
            holds(tracker.streams, other) ==> well_keyed(tracker, other),
    ensures
        carried(tracker, tracker.within_budget(timestamp), key),
    decreases waiting_segments(tracker.streams), tracker.pending.queue.len(),
{
    let result = tracker.within_budget(timestamp);
    if tracker.pending.over_limit() {
        let popped = StreamTrackerView { pending: tracker.pending.without_oldest(), ..tracker };
        if let Some(oldest) = tracker.pending.oldest() {
            if !holds(tracker.streams, oldest) {
                let cleared = StreamTrackerView {
                    pending: popped.pending.removed(oldest),
                    ..tracker
                };
                assert forall|other: StreamKeyView| #[trigger]
                    holds(cleared.streams, other) implies well_keyed(cleared, other) by {
                    assert(well_keyed(tracker, other));
                }
                lemma_within_budget_carries(cleared, timestamp, key);
            } else {
                let entry = value_of(tracker.streams, oldest);
                let step = forced(entry.stream, GLOBAL_BUFFER_LIMIT_GAP_REASON@);
                let mutation = popped.recorded(timestamp, oldest, entry, step);
                let after = StreamEntryView { stream: step.state, ..entry };
                assert(well_keyed(tracker, oldest) && well_keyed(tracker, key));
                lemma_forced_step(entry.stream, GLOBAL_BUFFER_LIMIT_GAP_REASON@);
                lemma_step_carries(popped, timestamp, oldest, entry, step, key);
                lemma_waiting_with_value(tracker.streams, oldest, after);
                assert(carried(tracker, mutation, key));
                if step.state.pending.len() < entry.stream.pending.len() {
                    lemma_with_value(tracker.streams, oldest, after);
                    assert forall|other: StreamKeyView| #[trigger]
                        holds(mutation.state.streams, other) implies well_keyed(
                        mutation.state,
                        other,
                    ) by {
                        if other != oldest {
                            assert(holds(tracker.streams, other));
                            assert(well_keyed(tracker, other));
                            assert(value_of(
                                with_value(tracker.streams, oldest, after),
                                other,
                            ) == value_of(tracker.streams, other));
                        }
                    }
                    lemma_within_budget_carries(mutation.state, timestamp, key);
                    lemma_carried_twice(
                        tracker,
                        mutation,
                        mutation.state.within_budget(timestamp),
                        key,
                    );
                }
            }
        }
    }
}

/// Whether every stream is that of the flow and the direction that its key tells.
pub open spec fn all_well_keyed(tracker: StreamTrackerView) -> bool {
    forall|key: StreamKeyView| #[trigger] holds(tracker.streams, key) ==> well_keyed(tracker, key)
}

/// The stream under a key, or a fresh one.
pub open spec fn stream_under(tracker: StreamTrackerView, key: StreamKeyView) -> AssemblerView {
    if holds(tracker.streams, key) {
        value_of(tracker.streams, key).stream
    } else {
        fresh_stream()
    }
}

/// Every octet of a captured segment that lies before the close and not behind the expected
/// position is told in an event of its flow and direction, at its offset, or waits there. So does
/// every octet that waited before, in that stream or in another one. This holds as long as offsets
/// are not exhausted.
pub proof fn law_captured_octet_is_told_or_waits(
    tracker: StreamTrackerView,
    timestamp: Timestamp,
    sequence: u32,
    bytes: Seq<u8>,
    payload: FlowPayloadView,
    degradation_reason: Seq<char>,
)
    requires
        distinct_keys(tracker.streams),
        all_well_keyed(tracker),
        waits_ahead(stream_under(tracker, stream_key(payload.flow, payload.direction))),
        total_bytes(
            stream_under(tracker, stream_key(payload.flow, payload.direction)).pending,
        ) + bytes.len() < half(),
        value_of(
            tracker.ingested(
                timestamp,
                sequence,
                bytes,
                payload,
                degradation_reason,
            ).state.streams,
            stream_key(payload.flow, payload.direction),
        ).stream.next_offset < u64::MAX,
    ensures
        ({
            let key = stream_key(payload.flow, payload.direction);
            let stream = stream_under(tracker, key);
            let result = tracker.ingested(
                timestamp,
                sequence,
                bytes,
                payload,
                degradation_reason,
            );
            &&& waits_ahead(stream_under(result.state, key))
            &&& forall|index: int|
                #![trigger ahead_of(stream, sequence, index)]
                0 <= index < bytes.len() && lies_before_close(stream, sequence, index) && ahead_of(
                    stream,
                    sequence,
                    index,
                ) >= 0 ==> {
                    let offset = stream.next_offset + ahead_of(stream, sequence, index);
                    tells_octet(result.events, key, offset) || octet_waits(
                        result.state,
                        key,
                        offset,
                    )
                }
            &&& forall|offset: int| #[trigger]
                octet_waits(tracker, key, offset) ==> tells_octet(result.events, key, offset)
                    || octet_waits(result.state, key, offset)
        }),
{
    let key = stream_key(payload.flow, payload.direction);
    let stream = stream_under(tracker, key);
    lemma_ingested_is_carried(tracker, timestamp, sequence, bytes, payload, degradation_reason);
    lemma_ingested_takes(stream, sequence, bytes);
    let result = tracker.ingested(timestamp, sequence, bytes, payload, degradation_reason);
    assert forall|offset: int| #[trigger] octet_waits(tracker, key, offset) implies tells_octet(
        result.events,
        key,
        offset,
    ) || octet_waits(result.state, key, offset) by {
        assert(waits_in(stream, offset));
    }
}

proof fn lemma_ingested_takes(stream: AssemblerView, sequence: u32, bytes: Seq<u8>)
    requires
        waits_ahead(stream),
        total_bytes(stream.pending) + bytes.len() < half(),
        ingested(stream, sequence, bytes).state.next_offset < u64::MAX,
    ensures
        ({
            let step = ingested(stream, sequence, bytes);
            &&& waits_ahead(step.state)
            &&& forall|index: int|
                #![trigger ahead_of(stream, sequence, index)]
                0 <= index < bytes.len() && lies_before_close(stream, sequence, index) && ahead_of(
                    stream,
                    sequence,
                    index,
                ) >= 0 ==> is_taken(step, stream.next_offset + ahead_of(stream, sequence, index))
            &&& forall|offset: int| #[trigger] waits_in(stream, offset) ==> is_taken(step, offset)
        }),
{
    let step = ingested(stream, sequence, bytes);
    law_ingest_loses_nothing(stream, sequence, bytes);
    lemma_ingested_has_position(stream, sequence, bytes);
    assert forall|ahead: int| #[trigger] is_kept(stream, step, ahead) implies is_taken(
        step,
        stream.next_offset + ahead,
    ) by {
        let moved = step.state.next_offset - stream.next_offset;
        if !delivered_at(step.pieces, stream.next_offset + ahead) {
            assert(waits_at(step.state.pending, step.state.next_sequence->0, ahead - moved));
            assert(step.state.pending.len() > 0);
            assert(ahead - moved == stream.next_offset + ahead - step.state.next_offset);
        }
    }
    assert forall|offset: int| #[trigger] waits_in(stream, offset) implies is_taken(
        step,
        offset,
    ) by {
        let ahead = offset - stream.next_offset;
        assert(waits_at(stream.pending, stream.next_sequence->0, ahead));
        assert(is_kept(stream, step, ahead));
    }
    assert forall|index: int|
        #![trigger ahead_of(stream, sequence, index)]
        0 <= index < bytes.len() && lies_before_close(stream, sequence, index) && ahead_of(
            stream,
            sequence,
            index,
        ) >= 0 implies is_taken(
        step,
        stream.next_offset + ahead_of(stream, sequence, index),
    ) by {
        assert(is_kept(stream, step, ahead_of(stream, sequence, index)));
    }
}

/// Whether a step delivers the octet at an offset or lets it wait.
spec fn is_taken(step: Assembled, offset: int) -> bool {
    delivered_at(step.pieces, offset) || waits_in(step.state, offset)
}

proof fn lemma_ingested_is_carried(
    tracker: StreamTrackerView,
    timestamp: Timestamp,
    sequence: u32,
    bytes: Seq<u8>,
    payload: FlowPayloadView,
    degradation_reason: Seq<char>,
)
    requires
        distinct_keys(tracker.streams),
        all_well_keyed(tracker),
        value_of(
            tracker.ingested(
                timestamp,
                sequence,
                bytes,
                payload,
                degradation_reason,
            ).state.streams,
            stream_key(payload.flow, payload.direction),
        ).stream.next_offset < u64::MAX,
    ensures
        ({
            let key = stream_key(payload.flow, payload.direction);
            let step = ingested(stream_under(tracker, key), sequence, bytes);
            let result = tracker.ingested(
                timestamp,
                sequence,
                bytes,
                payload,
                degradation_reason,
            );
            &&& holds(result.state.streams, key)
            &&& step.state.next_offset < u64::MAX
            &&& waits_ahead(step.state) ==> waits_ahead(stream_under(result.state, key))
                && forall|offset: int| #[trigger]
                is_taken(step, offset) ==> tells_octet(result.events, key, offset) || octet_waits(
                    result.state,
                    key,
                    offset,
                )
        }),
{
    let key = stream_key(payload.flow, payload.direction);
    let stream = stream_under(tracker, key);
    let entry = refreshed(stream, timestamp, payload, degradation_reason);
    let step = ingested(stream, sequence, bytes);
    let first = tracker.recorded(timestamp, key, entry, step);
    let after = StreamEntryView { stream: step.state, ..entry };
    lemma_with_value(tracker.streams, key, after);
    assert forall|other: StreamKeyView| #[trigger] holds(first.state.streams, other) implies well_keyed(
        first.state,
        other,
    ) by {
        if other != key {
            assert(holds(tracker.streams, other));
            assert(well_keyed(tracker, other));
            assert(value_of(with_value(tracker.streams, key, after), other) == value_of(
                tracker.streams,
                other,
            ));
        }
    }
    lemma_within_budget_carries(first.state, timestamp, key);
    let second = first.state.within_budget(timestamp);
    let result = tracker.ingested(timestamp, sequence, bytes, payload, degradation_reason);
    assert(result == second.preceded_by(first.events));
    assert(value_of(first.state.streams, key).stream == step.state);
    if waits_ahead(step.state) {
        assert forall|offset: int| #[trigger] is_taken(step, offset) implies tells_octet(
            result.events,
            key,
            offset,
        ) || octet_waits(result.state, key, offset) by {
            if delivered_at(step.pieces, offset) {
                lemma_pieces_are_told(timestamp, after, step.pieces, offset);
                lemma_told_first(first.events, second.events, key, offset);
            } else if tells_octet(second.events, key, offset) {
                lemma_told_second(first.events, second.events, key, offset);
            }
        }
    }
}

proof fn lemma_ingested_has_position(stream: AssemblerView, sequence: u32, bytes: Seq<u8>)
    requires
        waits_ahead(stream),
    ensures
        ({
            let result = ingested(stream, sequence, bytes);
            result.state.next_sequence is Some || (result.pieces.len() == 0
                && result.state.pending.len() == 0)
        }),
{
    let allowed = crate::libpcap::stream::assembly::allowed_length(
        stream.closed_at,
        sequence,
        bytes.len(),
    );
    if allowed > 0 {
        crate::libpcap::stream::laws::law_ingest_delivers(stream, sequence, bytes, anything());
    }
}

proof fn lemma_flushed_keys_carries(
    tracker: StreamTrackerView,
    timestamp: Timestamp,
    keys: Seq<StreamKeyView>,
    reason: Seq<char>,
    key: StreamKeyView,
)
    requires
        distinct_keys(tracker.streams),
        holds(tracker.streams, key),
        all_well_keyed(tracker),
        forall|other: StreamKeyView| #[trigger]
            holds(tracker.streams, other) && value_of(tracker.streams, other).stream.next_sequence
                is None ==> value_of(tracker.streams, other).stream.pending.len() == 0,
    ensures
        carried(tracker, tracker.flushed_keys(timestamp, keys, reason), key),
    decreases keys.len(),
{
    if keys.len() > 0 {
        let next = keys[0];
        let rest = keys.drop_first();
        if !holds(tracker.streams, next) {
            let cleared = StreamTrackerView { pending: tracker.pending.removed(next), ..tracker };
            assert forall|other: StreamKeyView| #[trigger]
                holds(cleared.streams, other) implies well_keyed(cleared, other) by {
                assert(well_keyed(tracker, other));
            }
            lemma_flushed_keys_carries(cleared, timestamp, rest, reason, key);
        } else {
            let entry = value_of(tracker.streams, next);
            let flush = flushed(entry.stream, reason);
            let step = tracker.recorded(timestamp, next, entry, flush);
            let after = StreamEntryView { stream: flush.state, ..entry };
            assert(well_keyed(tracker, next) && well_keyed(tracker, key));
            lemma_flushed_step(entry.stream, reason);
            lemma_step_carries(tracker, timestamp, next, entry, flush, key);
            lemma_with_value(tracker.streams, next, after);
            crate::libpcap::stream::laws::law_flush_leaves_nothing_waiting(entry.stream, reason);
            assert forall|other: StreamKeyView| #[trigger]
                holds(step.state.streams, other) implies well_keyed(step.state, other) && (value_of(
                step.state.streams,
                other,
            ).stream.next_sequence is None ==> value_of(
                step.state.streams,
                other,
            ).stream.pending.len() == 0) by {
                if other != next {
                    assert(holds(tracker.streams, other));
                    assert(well_keyed(tracker, other));
                    assert(value_of(with_value(tracker.streams, next, after), other) == value_of(
                        tracker.streams,
                        other,
                    ));
                }
            }
            lemma_flushed_keys_carries(step.state, timestamp, rest, reason, key);
            lemma_carried_twice(
                tracker,
                step,
                step.state.flushed_keys(timestamp, rest, reason),
                key,
            );
        }
    }
}

/// When waiting payload is delivered because it waited for too long, every octet that waits in any
/// stream is told in an event of its flow and direction, at its offset. This holds as long as
/// offsets are not exhausted.
pub proof fn law_flush_all_tells_all_that_waits(
    tracker: StreamTrackerView,
    timestamp: Timestamp,
    reason: Seq<char>,
    key: StreamKeyView,
    offset: int,
)
    requires
        consistent(tracker),
        !tracker.pending.over_limit(),
        all_well_keyed(tracker),
        octet_waits(tracker, key, offset),
        waits_ahead(value_of(tracker.streams, key).stream),
        value_of(
            tracker.flushed_all(timestamp, reason).state.streams,
            key,
        ).stream.next_offset < u64::MAX,
    ensures
        tells_octet(tracker.flushed_all(timestamp, reason).events, key, offset),
{
    let keys = entry_keys(by_age(tracker.pending.entries));
    assert forall|other: StreamKeyView| #[trigger]
        holds(tracker.streams, other) && value_of(tracker.streams, other).stream.next_sequence
            is None implies value_of(tracker.streams, other).stream.pending.len() == 0 by {
        crate::keyed::lemma_index_of(tracker.streams, other);
        let place = crate::keyed::index_of(tracker.streams, other) as int;
        assert(crate::libpcap::stream::laws::well_kept(tracker.streams[place].1.stream));
    }
    lemma_flushed_keys_carries(tracker, timestamp, keys, reason, key);
    law_flush_all_leaves_nothing_waiting(tracker, timestamp, reason);
    let result = tracker.flushed_all(timestamp, reason);
    let stream = value_of(tracker.streams, key).stream;
    let later = value_of(result.state.streams, key).stream;
    assert(waits_in(stream, offset));
    assert(later.pending.len() == 0) by {
        if later.pending.len() > 0 {
            assert(holds(result.state.streams, key));
            assert(holds(result.state.pending.entries, key));
        }
    }
}

/// When one direction of a flow is closed ahead of the expected position, every octet that waits in
/// it before the close is told in an event of its flow and direction, at its offset. This holds as
/// long as offsets are not exhausted.
pub proof fn law_close_tells_all_that_waits_before_it(
    tracker: StreamTrackerView,
    timestamp: Timestamp,
    flow: FlowContextView,
    close: FlowCloseSequence,
    ahead: int,
)
    requires
        holds(tracker.streams, stream_key(flow, close.direction)),
        well_keyed(tracker, stream_key(flow, close.direction)),
        ({
            let stream = value_of(tracker.streams, stream_key(flow, close.direction)).stream;
            &&& stream.next_sequence is Some
            &&& stream.closed_at is None
            &&& waits_ahead(stream)
            &&& seq_after(close.sequence, stream.next_sequence->0)
            &&& ahead < seq_distance(stream.next_sequence->0, close.sequence)
            &&& waits_at(stream.pending, stream.next_sequence->0, ahead)
            &&& closed(
                stream,
                close.sequence,
                FLOW_CLOSE_GAP_REASON@,
            ).state.next_offset < u64::MAX
        }),
    ensures
        tells_octet(
            tracker.finalized(timestamp, flow, close).events,
            stream_key(flow, close.direction),
            value_of(tracker.streams, stream_key(flow, close.direction)).stream.next_offset + ahead,
        ),
{
    let key = stream_key(flow, close.direction);
    let entry = value_of(tracker.streams, key);
    let step = closed(entry.stream, close.sequence, FLOW_CLOSE_GAP_REASON@);
    law_close_delivers_all_before_it(entry.stream, close.sequence, FLOW_CLOSE_GAP_REASON@);
    let after = StreamEntryView { stream: step.state, ..entry };
    lemma_pieces_are_told(timestamp, after, step.pieces, entry.stream.next_offset + ahead);
}

/// When a flow is over of which neither direction was closed, every octet that waits in either of
/// them is told in an event of its flow and direction, at its offset. This holds as long as offsets
/// are not exhausted.
pub proof fn law_end_tells_all_that_waits(
    tracker: StreamTrackerView,
    timestamp: Timestamp,
    closure: FlowClosureView,
    direction: Direction,
    offset: int,
)
    requires
        distinct_keys(tracker.streams),
        closure.finalizations.len() == 0,
        octet_waits(tracker, stream_key(closure.flow, direction), offset),
        well_keyed(tracker, stream_key(closure.flow, direction)),
        ({
            let stream = value_of(tracker.streams, stream_key(closure.flow, direction)).stream;
            &&& waits_ahead(stream)
            &&& flushed(stream, FLOW_CLOSE_GAP_REASON@).state.next_offset < u64::MAX
        }),
    ensures
        tells_octet(
            tracker.flow_closed(timestamp, closure).events,
            stream_key(closure.flow, direction),
            offset,
        ),
{
    let key = stream_key(closure.flow, direction);
    let entry = value_of(tracker.streams, key);
    let step = flushed(entry.stream, FLOW_CLOSE_GAP_REASON@);
    law_flush_misses_nothing_that_waits(
        entry.stream,
        FLOW_CLOSE_GAP_REASON@,
        offset - entry.stream.next_offset,
    );
    let after = StreamEntryView { stream: step.state, ..entry };
    lemma_pieces_are_told(timestamp, after, step.pieces, offset);
    let ends = tracker.finalized_each(timestamp, closure.flow, closure.finalizations);
    assert(ends.state == tracker);
    let inbound = tracker.forgotten(timestamp, closure.flow, Direction::Inbound);
    let outbound = inbound.state.forgotten(timestamp, closure.flow, Direction::Outbound);
    let result = tracker.flow_closed(timestamp, closure);
    assert(result.events == ends.events + (inbound.events + outbound.events));
    match direction {
        Direction::Inbound => {
            lemma_told_first(inbound.events, outbound.events, key, offset);
        },
        Direction::Outbound => {
            let other = stream_key(closure.flow, Direction::Inbound);
            assert(other != key);
            lemma_without_key(tracker.streams, other);
            assert(value_of(crate::keyed::without_key(tracker.streams, other), key) == entry);
            assert(holds(crate::keyed::without_key(tracker.streams, other), key));
            lemma_told_second(inbound.events, outbound.events, key, offset);
        },
    }
    lemma_told_second(ends.events, inbound.events + outbound.events, key, offset);
}

} // verus!
