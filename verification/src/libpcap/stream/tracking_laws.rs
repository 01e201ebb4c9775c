//! What holds of the streams of all flows, whatever arrives.
use vstd::prelude::*;

use crate::keyed::{
    distinct_keys, holds, index_of, lemma_held_at, lemma_index_of, lemma_with_value,
    lemma_without_key, value_of,
};
use crate::libpcap::flow::model::{FlowCloseSequence, FlowClosureView, FlowPayloadView};
use crate::libpcap::stream::assembler::{fresh_stream, pending_count_of};
use crate::libpcap::stream::assembly::{
    closed, flushed, forced, ingested, total_bytes, Assembled, AssemblerView,
};
use crate::libpcap::stream::budget::{
    by_age, compacted, current_victims, entry_keys, first_current, is_current, no_younger,
    rank_among, PendingCount, PendingEntry, PendingIndexView, PendingVictimView, StreamKeyView,
    MAX_PENDING_BYTES, MAX_PENDING_SEGMENTS,
};
use crate::libpcap::stream::laws::{
    law_close_stays_well_kept, law_flush_leaves_nothing_waiting, law_forced_stays_well_kept,
    law_ingest_stays_well_kept, lemma_forced_shrinks, well_kept,
};
use crate::libpcap::stream::tracking::{
    first_seen_closing, lemma_waiting_with_value, refreshed, stream_key, waiting_segments,
    StreamEntryView, StreamTrackerView, FLOW_CLOSE_GAP_REASON, GLOBAL_BUFFER_LIMIT_GAP_REASON,
};
use crate::model::{Direction, FlowContextView, Timestamp};

verus! {

/// The number of segments on record.
pub open spec fn recorded_segments(entries: Seq<(StreamKeyView, PendingEntry)>) -> nat
    decreases entries.len(),
{
    if entries.len() == 0 {
        0
    } else {
        recorded_segments(entries.drop_last()) + entries.last().1.count.segments as nat
    }
}

/// The number of octets on record.
pub open spec fn recorded_bytes(entries: Seq<(StreamKeyView, PendingEntry)>) -> nat
    decreases entries.len(),
{
    if entries.len() == 0 {
        0
    } else {
        recorded_bytes(entries.drop_last()) + entries.last().1.count.bytes as nat
    }
}

/// Whether the stream at `index` of the record stands in the queue with its last activity.
pub open spec fn queued(pending: PendingIndexView, index: int) -> bool {
    exists|place: int|
        0 <= place < pending.queue.len() && #[trigger] pending.queue[place] == (PendingVictimView {
            key: pending.entries[index].0,
            activity_monotonic_ns: pending.entries[index].1.activity_monotonic_ns,
        })
}

/// Whether the totals are the sums over the record.
pub open spec fn totals_add_up(pending: PendingIndexView) -> bool {
    pending.totals.segments == recorded_segments(pending.entries) && pending.totals.bytes
        == recorded_bytes(pending.entries)
}

/// Whether the record says of every stream what waits in it, and nothing of other streams.
pub open spec fn record_matches(tracker: StreamTrackerView) -> bool {
    &&& forall|key: StreamKeyView| #[trigger]
        holds(tracker.pending.entries, key) ==> holds(tracker.streams, key) && value_of(
            tracker.pending.entries,
            key,
        ).count == pending_count_of(value_of(tracker.streams, key).stream.pending) && value_of(
            tracker.streams,
            key,
        ).stream.pending.len() > 0
    &&& forall|key: StreamKeyView| #[trigger]
        holds(tracker.streams, key) && value_of(tracker.streams, key).stream.pending.len() > 0
            ==> holds(tracker.pending.entries, key)
}

/// Whether every stream is well kept.
pub open spec fn streams_well_kept(streams: Seq<(StreamKeyView, StreamEntryView)>) -> bool {
    forall|index: int| 0 <= index < streams.len() ==> well_kept((#[trigger] streams[index]).1.stream)
}

/// What holds of the streams at all times, but for the place of `open` in the queue.
pub open spec fn consistent_but_for(tracker: StreamTrackerView, open: Option<StreamKeyView>) -> bool {
    &&& distinct_keys(tracker.streams)
    &&& distinct_keys(tracker.pending.entries)
    &&& streams_well_kept(tracker.streams)
    &&& record_matches(tracker)
    &&& totals_add_up(tracker.pending)
    &&& forall|index: int|
        #![trigger tracker.pending.entries[index]]
        0 <= index < tracker.pending.entries.len() && Some(tracker.pending.entries[index].0) != open
            ==> queued(tracker.pending, index)
}

/// What holds of the streams at all times: every stream is well kept, the record says exactly
/// what waits in each, the totals are its sums, and every stream in it can be found in the queue.
pub open spec fn consistent(tracker: StreamTrackerView) -> bool {
    consistent_but_for(tracker, None)
}

proof fn lemma_recorded_update(
    entries: Seq<(StreamKeyView, PendingEntry)>,
    index: int,
    entry: (StreamKeyView, PendingEntry),
)
    requires
        0 <= index < entries.len(),
    ensures
        recorded_segments(entries.update(index, entry)) == recorded_segments(entries)
            - entries[index].1.count.segments + entry.1.count.segments,
        recorded_bytes(entries.update(index, entry)) == recorded_bytes(entries)
            - entries[index].1.count.bytes + entry.1.count.bytes,
    decreases entries.len(),
{
    let updated = entries.update(index, entry);
    if index == entries.len() - 1 {
        assert(updated.drop_last() =~= entries.drop_last());
    } else {
        lemma_recorded_update(entries.drop_last(), index, entry);
        assert(updated.drop_last() =~= entries.drop_last().update(index, entry));
        assert(updated.last() == entries.last());
    }
}

proof fn lemma_recorded_remove(entries: Seq<(StreamKeyView, PendingEntry)>, index: int)
    requires
        0 <= index < entries.len(),
    ensures
        recorded_segments(entries.remove(index)) == recorded_segments(entries)
            - entries[index].1.count.segments,
        recorded_bytes(entries.remove(index)) == recorded_bytes(entries)
            - entries[index].1.count.bytes,
    decreases entries.len(),
{
    let shorter = entries.remove(index);
    if index == entries.len() - 1 {
        assert(shorter =~= entries.drop_last());
    } else {
        lemma_recorded_remove(entries.drop_last(), index);
        assert(shorter.drop_last() =~= entries.drop_last().remove(index));
        assert(shorter.last() == entries.last());
    }
}

proof fn lemma_recorded_parts(entries: Seq<(StreamKeyView, PendingEntry)>, index: int)
    requires
        0 <= index < entries.len(),
    ensures
        entries[index].1.count.segments <= recorded_segments(entries),
        entries[index].1.count.bytes <= recorded_bytes(entries),
{
    lemma_recorded_remove(entries, index);
}

proof fn lemma_current_victims_keep(
    queue: Seq<PendingVictimView>,
    entries: Seq<(StreamKeyView, PendingEntry)>,
    place: int,
)
    requires
        0 <= place < queue.len(),
        is_current(entries, queue[place]),
    ensures
        exists|kept: int|
            0 <= kept < current_victims(queue, entries).len() && #[trigger] current_victims(
                queue,
                entries,
            )[kept] == queue[place],
    decreases queue.len(),
{
    let rest = current_victims(queue.drop_last(), entries);
    let all = current_victims(queue, entries);
    if place == queue.len() - 1 {
        assert(all[all.len() - 1] == queue[place]);
    } else {
        lemma_current_victims_keep(queue.drop_last(), entries, place);
        let kept = choose|kept: int|
            0 <= kept < rest.len() && #[trigger] rest[kept] == queue.drop_last()[place];
        assert(all[kept] == rest[kept]);
    }
}

/// A stream that stands in the queue with its last activity still does so once stale victims
/// were dropped.
proof fn lemma_compacted_keeps(
    queue: Seq<PendingVictimView>,
    entries: Seq<(StreamKeyView, PendingEntry)>,
    place: int,
    index: int,
)
    requires
        distinct_keys(entries),
        0 <= index < entries.len(),
        0 <= place < queue.len(),
        queue[place] == (PendingVictimView {
            key: entries[index].0,
            activity_monotonic_ns: entries[index].1.activity_monotonic_ns,
        }),
    ensures
        exists|kept: int|
            0 <= kept < compacted(queue, entries).len() && #[trigger] compacted(
                queue,
                entries,
            )[kept] == queue[place],
{
    lemma_held_at(entries, index);
    if queue.len() <= crate::libpcap::stream::budget::queue_limit(entries.len()) {
        assert(compacted(queue, entries)[place] == queue[place]);
    } else {
        lemma_current_victims_keep(queue, entries, place);
        let all = current_victims(queue, entries);
        let kept = choose|kept: int| 0 <= kept < all.len() && #[trigger] all[kept] == queue[place];
        assert(compacted(queue, entries)[kept] == queue[place]);
    }
}

/// The room above what is on record that one more stream can take.
spec fn has_room(pending: PendingIndexView) -> bool {
    pending.totals.segments + MAX_PENDING_SEGMENTS <= usize::MAX && pending.totals.bytes
        + MAX_PENDING_BYTES <= usize::MAX
}

/// What is on record for a stream is what waits in it.
pub proof fn lemma_on_record(tracker: StreamTrackerView, key: StreamKeyView)
    requires
        record_matches(tracker),
    ensures
        tracker.pending.recorded(key) == (if holds(tracker.streams, key) {
            pending_count_of(value_of(tracker.streams, key).stream.pending)
        } else {
            PendingCount::nothing()
        }),
{
    if holds(tracker.pending.entries, key) {
    } else if holds(tracker.streams, key) {
        assert(value_of(tracker.streams, key).stream.pending.len() == 0);
    }
}

proof fn lemma_well_kept_lookup(
    streams: Seq<(StreamKeyView, StreamEntryView)>,
    key: StreamKeyView,
)
    requires
        streams_well_kept(streams),
        holds(streams, key),
    ensures
        well_kept(value_of(streams, key).stream),
{
    lemma_index_of(streams, key);
    assert(well_kept(streams[index_of(streams, key) as int].1.stream));
}

/// Recording what one stream went through keeps everything consistent and puts the stream in its
/// place in the queue.
proof fn lemma_recorded_consistent(
    tracker: StreamTrackerView,
    timestamp: Timestamp,
    key: StreamKeyView,
    entry: StreamEntryView,
    step: Assembled,
)
    requires
        consistent_but_for(tracker, Some(key)),
        has_room(tracker.pending),
        well_kept(step.state),
    ensures
        consistent(tracker.recorded(timestamp, key, entry, step).state),
        ({
            let before = tracker.pending.recorded(key);
            let after = pending_count_of(step.state.pending);
            let totals = tracker.recorded(timestamp, key, entry, step).state.pending.totals;
            &&& totals.segments == tracker.pending.totals.segments - before.segments
                + after.segments
            &&& totals.bytes == tracker.pending.totals.bytes - before.bytes + after.bytes
        }),
{
    let after_entry = StreamEntryView { stream: step.state, ..entry };
    let after = pending_count_of(step.state.pending);
    let result = tracker.recorded(timestamp, key, entry, step).state;
    let entries = tracker.pending.entries;
    let before = tracker.pending.recorded(key);
    lemma_with_value(tracker.streams, key, after_entry);
    lemma_index_of(entries, key);
    lemma_index_of(tracker.streams, key);
    let place = index_of(entries, key) as int;
    if holds(entries, key) {
        lemma_recorded_parts(entries, place);
    }
    assert(streams_well_kept(result.streams)) by {
        assert forall|index: int| 0 <= index < result.streams.len() implies well_kept(
            (#[trigger] result.streams[index]).1.stream,
        ) by {
            if index != index_of(tracker.streams, key) {
                assert(result.streams[index] == tracker.streams[index]);
            }
        }
    }
    if after.some_pending() {
        let record = PendingEntry {
            count: after,
            activity_monotonic_ns: after_entry.last_activity_monotonic_ns,
        };
        lemma_with_value(entries, key, record);
        if holds(entries, key) {
            lemma_recorded_update(entries, place, (key, record));
        } else {
            assert(entries.push((key, record)).drop_last() =~= entries);
        }
        let longer = tracker.pending.queue.push(
            PendingVictimView {
                key,
                activity_monotonic_ns: after_entry.last_activity_monotonic_ns,
            },
        );
        let new_entries = result.pending.entries;
        assert forall|index: int|
            #![trigger new_entries[index]]
            0 <= index < new_entries.len() implies queued(result.pending, index) by {
            if index == place {
                assert(new_entries[index] == (key, record));
                lemma_compacted_keeps(longer, new_entries, longer.len() - 1, index);
            } else {
                assert(new_entries[index] == entries[index]);
                assert(entries[index].0 != key) by {
                    lemma_held_at(new_entries, index);
                    lemma_held_at(new_entries, place);
                }
                assert(queued(tracker.pending, index));
                let old_place = choose|old_place: int|
                    0 <= old_place < tracker.pending.queue.len()
                        && #[trigger] tracker.pending.queue[old_place] == (PendingVictimView {
                        key: entries[index].0,
                        activity_monotonic_ns: entries[index].1.activity_monotonic_ns,
                    });
                assert(longer[old_place] == tracker.pending.queue[old_place]);
                lemma_compacted_keeps(longer, new_entries, old_place, index);
            }
        }
    } else {
        assert(step.state.pending.len() == 0);
        lemma_without_key(entries, key);
        if holds(entries, key) {
            lemma_recorded_remove(entries, place);
        }
        let new_entries = result.pending.entries;
        assert forall|index: int|
            #![trigger new_entries[index]]
            0 <= index < new_entries.len() implies queued(result.pending, index) by {
            let origin = if holds(entries, key) && index >= place {
                index + 1
            } else {
                index
            };
            assert(new_entries[index] == entries[origin]);
            assert(entries[origin].0 != key);
            assert(queued(tracker.pending, origin));
            let old_place = choose|old_place: int|
                0 <= old_place < tracker.pending.queue.len()
                    && #[trigger] tracker.pending.queue[old_place] == (PendingVictimView {
                    key: entries[origin].0,
                    activity_monotonic_ns: entries[origin].1.activity_monotonic_ns,
                });
            assert(result.pending.queue[old_place] == tracker.pending.queue[old_place]);
        }
    }
    assert(record_matches(result));
}

/// What one stream may hold fits on record without being cut.
proof fn lemma_count_of_well_kept(state: AssemblerView)
    requires
        well_kept(state),
    ensures
        pending_count_of(state.pending).segments == state.pending.len(),
        pending_count_of(state.pending).segments <= MAX_PENDING_SEGMENTS,
        pending_count_of(state.pending).bytes == total_bytes(state.pending),
        pending_count_of(state.pending).bytes <= MAX_PENDING_BYTES,
{
}

proof fn lemma_first_current(
    queue: Seq<PendingVictimView>,
    entries: Seq<(StreamKeyView, PendingEntry)>,
)
    ensures
        first_current(queue, entries) <= queue.len(),
        first_current(queue, entries) < queue.len() ==> is_current(
            entries,
            queue[first_current(queue, entries) as int],
        ),
        forall|earlier: int|
            0 <= earlier < first_current(queue, entries) ==> !is_current(
                entries,
                #[trigger] queue[earlier],
            ),
    decreases queue.len(),
{
    if queue.len() > 0 && !is_current(entries, queue[0]) {
        let rest = queue.drop_first();
        lemma_first_current(rest, entries);
        assert forall|earlier: int| 0 <= earlier < first_current(queue, entries) implies
            !is_current(entries, #[trigger] queue[earlier]) by {
            if earlier > 0 {
                assert(queue[earlier] == rest[earlier - 1]);
            }
        }
    }
}

/// Taking the oldest stream from the queue leaves every other one in it.
proof fn lemma_popped_consistent(tracker: StreamTrackerView)
    requires
        consistent(tracker),
        tracker.pending.entries.len() > 0,
    ensures
        tracker.pending.oldest() is Some,
        holds(tracker.pending.entries, tracker.pending.oldest()->0),
        consistent_but_for(
            StreamTrackerView { pending: tracker.pending.without_oldest(), ..tracker },
            tracker.pending.oldest(),
        ),
{
    let queue = tracker.pending.queue;
    let entries = tracker.pending.entries;
    lemma_first_current(queue, entries);
    let first = first_current(queue, entries) as int;
    assert(first < queue.len()) by {
        assert(queued(tracker.pending, 0)) by {
            assert(entries[0].0 == entries[0].0);
        }
        let place = choose|place: int|
            0 <= place < queue.len() && #[trigger] queue[place] == (PendingVictimView {
                key: entries[0].0,
                activity_monotonic_ns: entries[0].1.activity_monotonic_ns,
            });
        lemma_held_at(entries, 0);
        assert(is_current(entries, queue[place]));
    }
    let popped = StreamTrackerView { pending: tracker.pending.without_oldest(), ..tracker };
    let key = tracker.pending.oldest()->0;
    assert forall|index: int|
        #![trigger popped.pending.entries[index]]
        0 <= index < popped.pending.entries.len() && Some(popped.pending.entries[index].0) != Some(
            key,
        ) implies queued(popped.pending, index) by {
        assert(queued(tracker.pending, index)) by {
            assert(tracker.pending.entries[index].0 == entries[index].0);
        }
        let place = choose|place: int|
            0 <= place < queue.len() && #[trigger] queue[place] == (PendingVictimView {
                key: entries[index].0,
                activity_monotonic_ns: entries[index].1.activity_monotonic_ns,
            });
        lemma_held_at(entries, index);
        assert(is_current(entries, queue[place]));
        assert(place > first);
        assert(popped.pending.queue[place - first - 1] == queue[place]);
    }
    assert(record_matches(popped));
}

/// Skipping ahead in the longest inactive streams brings what waits within the common limit and
/// keeps everything consistent.
proof fn lemma_within_budget(tracker: StreamTrackerView, timestamp: Timestamp)
    requires
        consistent(tracker),
        has_room(tracker.pending),
    ensures
        consistent(tracker.within_budget(timestamp).state),
        !tracker.within_budget(timestamp).state.pending.over_limit(),
    decreases waiting_segments(tracker.streams), tracker.pending.queue.len(),
{
    if tracker.pending.over_limit() {
        assert(tracker.pending.entries.len() > 0);
        lemma_popped_consistent(tracker);
        let popped = StreamTrackerView { pending: tracker.pending.without_oldest(), ..tracker };
        let key = tracker.pending.oldest()->0;
        let entry = value_of(tracker.streams, key);
        let reason = GLOBAL_BUFFER_LIMIT_GAP_REASON@;
        let step = forced(entry.stream, reason);
        lemma_well_kept_lookup(tracker.streams, key);
        law_forced_stays_well_kept(entry.stream, reason);
        lemma_forced_shrinks(entry.stream, reason);
        lemma_forced_total_for_budget(entry.stream, reason);
        lemma_count_of_well_kept(entry.stream);
        lemma_count_of_well_kept(step.state);
        lemma_recorded_consistent(popped, timestamp, key, entry, step);
        lemma_on_record(popped, key);
        lemma_waiting_with_value(
            tracker.streams,
            key,
            StreamEntryView { stream: step.state, ..entry },
        );
        let mutation = popped.recorded(timestamp, key, entry, step);
        lemma_within_budget(mutation.state, timestamp);
    }
}

proof fn lemma_forced_total_for_budget(state: AssemblerView, reason: Seq<char>)
    requires
        well_kept(state),
    ensures
        total_bytes(forced(state, reason).state.pending) <= total_bytes(state.pending),
{
    crate::libpcap::stream::laws::lemma_forced_total(state, reason);
}

/// Nothing waits in a tracker that has seen nothing, and all is consistent.
pub proof fn law_empty_is_consistent()
    ensures
        consistent(StreamTrackerView::empty()),
        !StreamTrackerView::empty().pending.over_limit(),
{
}

/// However segments arrive, taking one in keeps the streams consistent, and never leaves more
/// waiting than all streams together may hold.
pub proof fn law_ingest_respects_budget(
    tracker: StreamTrackerView,
    timestamp: Timestamp,
    sequence: u32,
    bytes: Seq<u8>,
    payload: FlowPayloadView,
    degradation_reason: Seq<char>,
)
    requires
        consistent(tracker),
        !tracker.pending.over_limit(),
    ensures
        consistent(
            tracker.ingested(timestamp, sequence, bytes, payload, degradation_reason).state,
        ),
        !tracker.ingested(
            timestamp,
            sequence,
            bytes,
            payload,
            degradation_reason,
        ).state.pending.over_limit(),
{
    let key = stream_key(payload.flow, payload.direction);
    let stream = if holds(tracker.streams, key) {
        value_of(tracker.streams, key).stream
    } else {
        fresh_stream()
    };
    if holds(tracker.streams, key) {
        lemma_well_kept_lookup(tracker.streams, key);
    }
    let entry = refreshed(stream, timestamp, payload, degradation_reason);
    let step = ingested(stream, sequence, bytes);
    law_ingest_stays_well_kept(stream, sequence, bytes);
    lemma_count_of_well_kept(step.state);
    lemma_recorded_consistent(tracker, timestamp, key, entry, step);
    lemma_on_record(tracker, key);
    let recorded = tracker.recorded(timestamp, key, entry, step);
    lemma_within_budget(recorded.state, timestamp);
}

/// Closing one direction of a flow keeps the streams consistent and lets nothing more wait.
pub proof fn law_finalize_respects_budget(
    tracker: StreamTrackerView,
    timestamp: Timestamp,
    flow: FlowContextView,
    close_sequence: FlowCloseSequence,
)
    requires
        consistent(tracker),
        !tracker.pending.over_limit(),
    ensures
        consistent(tracker.finalized(timestamp, flow, close_sequence).state),
        !tracker.finalized(timestamp, flow, close_sequence).state.pending.over_limit(),
{
    let key = stream_key(flow, close_sequence.direction);
    let entry = if holds(tracker.streams, key) {
        value_of(tracker.streams, key)
    } else {
        first_seen_closing(timestamp, flow, close_sequence.direction)
    };
    if holds(tracker.streams, key) {
        lemma_well_kept_lookup(tracker.streams, key);
    }
    let reason = FLOW_CLOSE_GAP_REASON@;
    let step = closed(entry.stream, close_sequence.sequence, reason);
    law_close_stays_well_kept(entry.stream, close_sequence.sequence, reason);
    crate::libpcap::stream::laws::lemma_close_shrinks(
        entry.stream,
        close_sequence.sequence,
        reason,
    );
    lemma_count_of_well_kept(entry.stream);
    lemma_count_of_well_kept(step.state);
    lemma_recorded_consistent(tracker, timestamp, key, entry, step);
    lemma_on_record(tracker, key);
}

/// Forgetting one direction of a flow keeps the streams consistent; nothing of it waits any more.
proof fn lemma_forget_consistent(
    tracker: StreamTrackerView,
    timestamp: Timestamp,
    flow: FlowContextView,
    direction: Direction,
)
    requires
        consistent(tracker),
        !tracker.pending.over_limit(),
    ensures
        consistent(tracker.forgotten(timestamp, flow, direction).state),
        !tracker.forgotten(timestamp, flow, direction).state.pending.over_limit(),
        !holds(
            tracker.forgotten(timestamp, flow, direction).state.streams,
            stream_key(flow, direction),
        ),
        forall|other: StreamKeyView|
            other != stream_key(flow, direction) ==> #[trigger] holds(
                tracker.forgotten(timestamp, flow, direction).state.streams,
                other,
            ) == holds(tracker.streams, other),
{
    let key = stream_key(flow, direction);
    let result = tracker.forgotten(timestamp, flow, direction).state;
    let entries = tracker.pending.entries;
    lemma_without_key(tracker.streams, key);
    lemma_without_key(entries, key);
    lemma_index_of(entries, key);
    lemma_index_of(tracker.streams, key);
    let place = index_of(entries, key) as int;
    if holds(entries, key) {
        lemma_recorded_parts(entries, place);
        lemma_recorded_remove(entries, place);
    }
    assert(streams_well_kept(result.streams)) by {
        let gone = index_of(tracker.streams, key) as int;
        assert forall|index: int| 0 <= index < result.streams.len() implies well_kept(
            (#[trigger] result.streams[index]).1.stream,
        ) by {
            let origin = if holds(tracker.streams, key) && index >= gone {
                index + 1
            } else {
                index
            };
            assert(result.streams[index] == tracker.streams[origin]);
        }
    }
    let new_entries = result.pending.entries;
    assert forall|index: int|
        #![trigger new_entries[index]]
        0 <= index < new_entries.len() implies queued(result.pending, index) by {
        let origin = if holds(entries, key) && index >= place {
            index + 1
        } else {
            index
        };
        assert(new_entries[index] == entries[origin]);
        assert(queued(tracker.pending, origin));
        let old_place = choose|old_place: int|
            0 <= old_place < tracker.pending.queue.len()
                && #[trigger] tracker.pending.queue[old_place] == (PendingVictimView {
                key: entries[origin].0,
                activity_monotonic_ns: entries[origin].1.activity_monotonic_ns,
            });
        assert(result.pending.queue[old_place] == tracker.pending.queue[old_place]);
    }
    assert(record_matches(result));
}

proof fn lemma_finalized_each_consistent(
    tracker: StreamTrackerView,
    timestamp: Timestamp,
    flow: FlowContextView,
    close_sequences: Seq<FlowCloseSequence>,
)
    requires
        consistent(tracker),
        !tracker.pending.over_limit(),
    ensures
        consistent(tracker.finalized_each(timestamp, flow, close_sequences).state),
        !tracker.finalized_each(timestamp, flow, close_sequences).state.pending.over_limit(),
    decreases close_sequences.len(),
{
    if close_sequences.len() > 0 {
        let step = tracker.finalized(timestamp, flow, close_sequences[0]);
        law_finalize_respects_budget(tracker, timestamp, flow, close_sequences[0]);
        lemma_finalized_each_consistent(
            step.state,
            timestamp,
            flow,
            close_sequences.drop_first(),
        );
    }
}

/// Closing a flow keeps the streams consistent and forgets both of its directions.
pub proof fn law_close_forgets_flow(
    tracker: StreamTrackerView,
    timestamp: Timestamp,
    closure: FlowClosureView,
)
    requires
        consistent(tracker),
        !tracker.pending.over_limit(),
    ensures
        consistent(tracker.flow_closed(timestamp, closure).state),
        !tracker.flow_closed(timestamp, closure).state.pending.over_limit(),
        forall|direction: Direction|
            !#[trigger] holds(
                tracker.flow_closed(timestamp, closure).state.streams,
                stream_key(closure.flow, direction),
            ),
{
    let ends = tracker.finalized_each(timestamp, closure.flow, closure.finalizations);
    lemma_finalized_each_consistent(tracker, timestamp, closure.flow, closure.finalizations);
    let inbound = ends.state.forgotten(timestamp, closure.flow, Direction::Inbound);
    lemma_forget_consistent(ends.state, timestamp, closure.flow, Direction::Inbound);
    lemma_forget_consistent(inbound.state, timestamp, closure.flow, Direction::Outbound);
    let result = tracker.flow_closed(timestamp, closure).state;
    assert forall|direction: Direction| !#[trigger] holds(
        result.streams,
        stream_key(closure.flow, direction),
    ) by {
        match direction {
            Direction::Inbound => {
                assert(stream_key(closure.flow, Direction::Inbound) != stream_key(
                    closure.flow,
                    Direction::Outbound,
                ));
            },
            Direction::Outbound => {},
        }
    }
}

proof fn lemma_rank_among(
    entries: Seq<(StreamKeyView, PendingEntry)>,
    entry: (StreamKeyView, PendingEntry),
)
    ensures
        rank_among(entries, entry) <= entries.len(),
        forall|earlier: int|
            0 <= earlier < rank_among(entries, entry) ==> no_younger(
                #[trigger] entries[earlier],
                entry,
            ),
        rank_among(entries, entry) < entries.len() ==> !no_younger(
            entries[rank_among(entries, entry) as int],
            entry,
        ),
    decreases entries.len(),
{
    if entries.len() > 0 && no_younger(entries[0], entry) {
        let rest = entries.drop_first();
        lemma_rank_among(rest, entry);
        assert forall|earlier: int| 0 <= earlier < rank_among(entries, entry) implies no_younger(
            #[trigger] entries[earlier],
            entry,
        ) by {
            if earlier > 0 {
                assert(entries[earlier] == rest[earlier - 1]);
            }
        }
    }
}

/// Ordering streams by age loses none, and puts the longest inactive first.
pub proof fn law_by_age_is_ordered(entries: Seq<(StreamKeyView, PendingEntry)>)
    ensures
        by_age(entries).len() == entries.len(),
        forall|index: int|
            0 <= index < entries.len() ==> by_age(entries).contains(#[trigger] entries[index]),
        forall|first: int, second: int|
            0 <= first <= second < entries.len() ==> (#[trigger] by_age(
                entries,
            )[first]).1.activity_monotonic_ns <= (#[trigger] by_age(
                entries,
            )[second]).1.activity_monotonic_ns,
    decreases entries.len(),
{
    if entries.len() > 0 {
        let shorter = entries.drop_last();
        let rest = by_age(shorter);
        let last = entries.last();
        let all = by_age(entries);
        law_by_age_is_ordered(shorter);
        lemma_rank_among(rest, last);
        let rank = rank_among(rest, last) as int;
        assert forall|index: int| 0 <= index < entries.len() implies all.contains(
            #[trigger] entries[index],
        ) by {
            if index == entries.len() - 1 {
                assert(all[rank] == last);
            } else {
                assert(rest.contains(shorter[index]));
                let place = choose|place: int| 0 <= place < rest.len() && rest[place]
                    == shorter[index];
                if place < rank {
                    assert(all[place] == rest[place]);
                } else {
                    assert(all[place + 1] == rest[place]);
                }
            }
        }
        assert forall|first: int, second: int| 0 <= first <= second < entries.len() implies (
        #[trigger] all[first]).1.activity_monotonic_ns <= (
        #[trigger] all[second]).1.activity_monotonic_ns by {
            if first < rank {
                assert(all[first] == rest[first]);
            } else if first > rank {
                assert(all[first] == rest[first - 1]);
            }
            if second < rank {
                assert(all[second] == rest[second]);
            } else if second > rank {
                assert(all[second] == rest[second - 1]);
            }
            if first == rank && second > rank {
                assert(rest[rank].1.activity_monotonic_ns <= rest[second
                    - 1].1.activity_monotonic_ns);
            }
        }
    }
}

proof fn lemma_flushed_keys(
    tracker: StreamTrackerView,
    timestamp: Timestamp,
    keys: Seq<StreamKeyView>,
    reason: Seq<char>,
)
    requires
        consistent(tracker),
        !tracker.pending.over_limit(),
        forall|key: StreamKeyView| #[trigger]
            holds(tracker.pending.entries, key) ==> keys.contains(key),
    ensures
        consistent(tracker.flushed_keys(timestamp, keys, reason).state),
        tracker.flushed_keys(timestamp, keys, reason).state.pending.entries.len() == 0,
    decreases keys.len(),
{
    if keys.len() == 0 {
        if tracker.pending.entries.len() > 0 {
            lemma_held_at(tracker.pending.entries, 0);
            assert(keys.contains(tracker.pending.entries[0].0));
        }
    } else {
        let key = keys[0];
        let rest = keys.drop_first();
        let next = if !holds(tracker.streams, key) {
            StreamTrackerView { pending: tracker.pending.removed(key), ..tracker }
        } else {
            let entry = value_of(tracker.streams, key);
            tracker.recorded(timestamp, key, entry, flushed(entry.stream, reason)).state
        };
        lemma_on_record(tracker, key);
        lemma_without_key(tracker.pending.entries, key);
        if !holds(tracker.streams, key) {
            assert(next.pending =~= tracker.pending);
        } else {
            let entry = value_of(tracker.streams, key);
            let step = flushed(entry.stream, reason);
            lemma_well_kept_lookup(tracker.streams, key);
            law_flush_leaves_nothing_waiting(entry.stream, reason);
            assert(step.state.pending =~= Seq::empty());
            assert(well_kept(step.state));
            lemma_recorded_consistent(tracker, timestamp, key, entry, step);
        }
        assert forall|other: StreamKeyView| #[trigger]
            holds(next.pending.entries, other) implies rest.contains(other) by {
            assert(holds(tracker.pending.entries, other));
            assert(keys.contains(other));
            let place = choose|place: int| 0 <= place < keys.len() && keys[place] == other;
            assert(other != key);
            assert(rest[place - 1] == other);
        }
        lemma_flushed_keys(next, timestamp, rest, reason);
    }
}

/// Flushing all streams leaves nothing waiting anywhere.
pub proof fn law_flush_all_leaves_nothing_waiting(
    tracker: StreamTrackerView,
    timestamp: Timestamp,
    reason: Seq<char>,
)
    requires
        consistent(tracker),
        !tracker.pending.over_limit(),
    ensures
        consistent(tracker.flushed_all(timestamp, reason).state),
        !tracker.flushed_all(timestamp, reason).state.pending.totals.some_pending(),
        tracker.flushed_all(timestamp, reason).state.pending.entries.len() == 0,
{
    let entries = tracker.pending.entries;
    let ordered = by_age(entries);
    let keys = entry_keys(ordered);
    law_by_age_is_ordered(entries);
    assert forall|key: StreamKeyView| #[trigger] holds(entries, key) implies keys.contains(
        key,
    ) by {
        lemma_index_of(entries, key);
        let index = index_of(entries, key) as int;
        assert(ordered.contains(entries[index]));
        let place = choose|place: int| 0 <= place < ordered.len() && ordered[place]
            == entries[index];
        assert(keys[place] == key);
    }
    lemma_flushed_keys(tracker, timestamp, keys, reason);
}

} // verus!
