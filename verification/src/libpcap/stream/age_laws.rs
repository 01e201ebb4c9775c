//! Which stream is skipped ahead in first when too much waits.
use vstd::prelude::*;

use crate::keyed::{holds, index_of, lemma_index_of, value_of};
use crate::libpcap::stream::budget::{
    compacted, current_victims, first_current, is_current, PendingCount, PendingEntry,
    PendingIndexView, PendingVictimView, StreamKeyView,
};
use crate::libpcap::stream::tracking::StreamTrackerView;
use crate::libpcap::stream::tracking_laws::{consistent, queued};
use crate::model::Timestamp;

verus! {

/// Whether a queue goes from the longest inactive stream to the one that was active last.
pub open spec fn goes_by_age(queue: Seq<PendingVictimView>) -> bool {
    forall|earlier: int, later: int|
        0 <= earlier <= later < queue.len() ==> (#[trigger] queue[earlier]).activity_monotonic_ns
            <= (#[trigger] queue[later]).activity_monotonic_ns
}

/// Whether nothing in a queue is later than a time.
pub open spec fn nothing_later(queue: Seq<PendingVictimView>, time_ns: u64) -> bool {
    forall|index: int|
        0 <= index < queue.len() ==> (#[trigger] queue[index]).activity_monotonic_ns <= time_ns
}

proof fn lemma_first_is_first(
    queue: Seq<PendingVictimView>,
    entries: Seq<(StreamKeyView, PendingEntry)>,
    place: int,
)
    requires
        0 <= place < queue.len(),
        is_current(entries, queue[place]),
    ensures
        first_current(queue, entries) <= place,
        is_current(entries, queue[first_current(queue, entries) as int]),
    decreases queue.len(),
{
    if !is_current(entries, queue[0]) {
        let rest = queue.drop_first();
        assert(rest[place - 1] == queue[place]);
        lemma_first_is_first(rest, entries, place - 1);
        assert(rest[first_current(rest, entries) as int] == queue[first_current(
            queue,
            entries,
        ) as int]);
    }
}

/// When too much waits, it is a stream in which something waits that is skipped ahead in next, and
/// as long as the queue goes by age, no stream with waiting payload was inactive for longer.
pub proof fn law_longest_inactive_stream_goes_first(tracker: StreamTrackerView, key: StreamKeyView)
    requires
        consistent(tracker),
        goes_by_age(tracker.pending.queue),
        holds(tracker.pending.entries, key),
    ensures
        ({
            let entries = tracker.pending.entries;
            tracker.pending.oldest() matches Some(oldest) && holds(entries, oldest) && value_of(
                entries,
                oldest,
            ).activity_monotonic_ns <= value_of(entries, key).activity_monotonic_ns
        }),
{
    let entries = tracker.pending.entries;
    let queue = tracker.pending.queue;
    lemma_index_of(entries, key);
    let index = index_of(entries, key) as int;
    assert(entries[index].0 == key);
    assert(queued(tracker.pending, index));
    let place = choose|place: int|
        0 <= place < queue.len() && (#[trigger] queue[place]).key == entries[index].0
            && queue[place].activity_monotonic_ns == entries[index].1.activity_monotonic_ns;
    assert(is_current(entries, queue[place]));
    lemma_first_is_first(queue, entries, place);
}

proof fn lemma_current_victims_are_queued(
    queue: Seq<PendingVictimView>,
    entries: Seq<(StreamKeyView, PendingEntry)>,
    time_ns: u64,
)
    requires
        goes_by_age(queue),
        nothing_later(queue, time_ns),
    ensures
        goes_by_age(current_victims(queue, entries)),
        nothing_later(current_victims(queue, entries), time_ns),
    decreases queue.len(),
{
    if queue.len() > 0 {
        let fewer = queue.drop_last();
        let last = queue.last();
        assert(last == queue[queue.len() - 1]);
        assert forall|earlier: int, later: int| 0 <= earlier <= later < fewer.len() implies (
        #[trigger] fewer[earlier]).activity_monotonic_ns <= (
        #[trigger] fewer[later]).activity_monotonic_ns by {
            assert(fewer[earlier] == queue[earlier] && fewer[later] == queue[later]);
        }
        assert forall|index: int| 0 <= index < fewer.len() implies (
        #[trigger] fewer[index]).activity_monotonic_ns <= last.activity_monotonic_ns by {
            assert(fewer[index] == queue[index]);
        }
        lemma_current_victims_are_queued(fewer, entries, last.activity_monotonic_ns);
        assert(last.activity_monotonic_ns <= time_ns);
    }
}

/// The queue goes on to go by age as long as what happens later is recorded with a later time.
pub proof fn law_later_activity_keeps_the_age(
    pending: PendingIndexView,
    key: StreamKeyView,
    time_ns: u64,
    after: PendingCount,
)
    requires
        goes_by_age(pending.queue),
        nothing_later(pending.queue, time_ns),
    ensures
        goes_by_age(pending.updated(key, time_ns, after).queue),
        nothing_later(pending.updated(key, time_ns, after).queue, time_ns),
        goes_by_age(pending.without_oldest().queue),
{
    let victim = PendingVictimView { key, activity_monotonic_ns: time_ns };
    let queue = pending.queue.push(victim);
    assert(goes_by_age(queue));
    assert(nothing_later(queue, time_ns));
    let entries = pending.updated(key, time_ns, after).entries;
    lemma_current_victims_are_queued(queue, entries, time_ns);
    if after.some_pending() {
        assert(pending.updated(key, time_ns, after).queue == compacted(queue, entries));
    }
}

/// All streams together may hold 4096 segments and 16 MiB: as long as no more waits, nothing is
/// skipped to, and once more waits than that, it is.
pub proof fn law_streams_share_their_limits(tracker: StreamTrackerView, timestamp: Timestamp)
    ensures
        tracker.pending.over_limit() <==> tracker.pending.totals.segments > 4_096
            || tracker.pending.totals.bytes > 16_777_216,
        tracker.pending.totals.segments <= 4_096 && tracker.pending.totals.bytes <= 16_777_216
            ==> tracker.within_budget(timestamp).state == tracker && tracker.within_budget(
            timestamp,
        ).events.len() == 0,
{
}

} // verus!
