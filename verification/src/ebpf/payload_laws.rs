//! What holds of sampled payload over several system calls.
use vstd::prelude::*;

use crate::event::CaptureEventView;
use crate::model::{Direction, Timestamp};

use super::payload_bridge::{after_sample, sample_events, PayloadSampleView, SampleTexts};
use super::tracked_flow::TrackedFlowView;

verus! {

/// Whether events of one direction go from `start` to `end` without a hole or an overlap: each
/// begins where the one before it ended.
pub open spec fn covers(
    events: Seq<CaptureEventView>,
    direction: Direction,
    start: int,
    end: int,
) -> bool
    decreases events.len(),
{
    if events.len() == 0 {
        start == end
    } else {
        match events[0] {
            CaptureEventView::Bytes(bytes) => bytes.direction == direction && bytes.stream_offset
                == start && covers(
                events.drop_first(),
                direction,
                start + bytes.bytes.len(),
                end,
            ),
            CaptureEventView::Gap(gap) => gap.gap.direction == direction && gap.gap.expected_offset
                == start && gap.gap.next_offset is Some && covers(
                events.drop_first(),
                direction,
                gap.gap.next_offset->0 as int,
                end,
            ),
            _ => false,
        }
    }
}

/// Whether a sample tells the truth about its length: it holds all that the system call moved,
/// or it is marked as truncated, or it holds nothing at all.
pub open spec fn sample_is_honest(sample: PayloadSampleView) -> bool {
    &&& sample.buffer.len() <= sample.original_len
    &&& sample.truncated || sample.read_failed || sample.buffer.len() == 0 || sample.buffer.len()
        == sample.original_len
}

/// Every octet that a system call moved is told of once: as captured or as part of a gap. The
/// direction is then followed exactly to the end of the system call.
pub proof fn law_sample_is_told_in_full(
    watched: TrackedFlowView,
    sample: PayloadSampleView,
    texts: SampleTexts,
    timestamp: Timestamp,
)
    requires
        sample_is_honest(sample),
        watched.offset(sample.direction) + sample.original_len <= u64::MAX,
    ensures
        covers(
            sample_events(watched, sample, texts, timestamp),
            sample.direction,
            watched.offset(sample.direction) as int,
            watched.offset(sample.direction) + sample.original_len,
        ),
        after_sample(watched, sample).offset(sample.direction) == watched.offset(sample.direction)
            + sample.original_len,
{
    reveal_with_fuel(covers, 3);
    let events = sample_events(watched, sample, texts, timestamp);
    let start = watched.offset(sample.direction) as int;
    if events.len() == 2 {
        let rest = events.drop_first();
        assert(rest[0] == events[1]);
        assert(rest.drop_first().len() == 0);
    } else {
        assert(events.len() == 1);
        assert(events.drop_first().len() == 0);
    }
}

/// A sample moves its own direction and no other, and leaves the flow as it is.
pub proof fn law_directions_are_followed_apart(watched: TrackedFlowView, sample: PayloadSampleView)
    ensures
        after_sample(watched, sample).offset(sample.direction.opposite_of()) == watched.offset(
            sample.direction.opposite_of(),
        ),
        after_sample(watched, sample).flow == watched.flow,
        after_sample(watched, sample).payload_directions == watched.payload_directions,
{
}

/// The flow after a run of samples.
pub open spec fn after_samples(watched: TrackedFlowView, samples: Seq<PayloadSampleView>) -> TrackedFlowView
    decreases samples.len(),
{
    if samples.len() == 0 {
        watched
    } else {
        after_sample(after_samples(watched, samples.drop_last()), samples.last())
    }
}

/// The events of a run of samples.
pub open spec fn events_of_samples(
    watched: TrackedFlowView,
    samples: Seq<PayloadSampleView>,
    texts: SampleTexts,
    timestamp: Timestamp,
) -> Seq<CaptureEventView>
    decreases samples.len(),
{
    if samples.len() == 0 {
        Seq::empty()
    } else {
        events_of_samples(watched, samples.drop_last(), texts, timestamp) + sample_events(
            after_samples(watched, samples.drop_last()),
            samples.last(),
            texts,
            timestamp,
        )
    }
}

/// How many octets a run of samples tells of.
pub open spec fn total_length(samples: Seq<PayloadSampleView>) -> int
    decreases samples.len(),
{
    if samples.len() == 0 {
        0
    } else {
        total_length(samples.drop_last()) + samples.last().original_len
    }
}

proof fn lemma_covers_concat(
    first: Seq<CaptureEventView>,
    second: Seq<CaptureEventView>,
    direction: Direction,
    start: int,
    middle: int,
    end: int,
)
    requires
        covers(first, direction, start, middle),
        covers(second, direction, middle, end),
    ensures
        covers(first + second, direction, start, end),
    decreases first.len(),
{
    if first.len() == 0 {
        assert(first + second =~= second);
    } else {
        let whole = first + second;
        assert(whole[0] == first[0]);
        assert(whole.drop_first() =~= first.drop_first() + second);
        let next = match first[0] {
            CaptureEventView::Bytes(bytes) => start + bytes.bytes.len(),
            CaptureEventView::Gap(gap) => gap.gap.next_offset->0 as int,
            _ => start,
        };
        lemma_covers_concat(first.drop_first(), second, direction, next, middle, end);
    }
}

/// The system calls of one direction of a flow make one stream: their events follow each other
/// without a hole or an overlap, from where the direction was followed to.
pub proof fn law_samples_make_one_stream(
    watched: TrackedFlowView,
    samples: Seq<PayloadSampleView>,
    direction: Direction,
    texts: SampleTexts,
    timestamp: Timestamp,
)
    requires
        forall|index: int|
            0 <= index < samples.len() ==> sample_is_honest(#[trigger] samples[index])
                && samples[index].direction == direction,
        watched.offset(direction) + total_length(samples) <= u64::MAX,
    ensures
        covers(
            events_of_samples(watched, samples, texts, timestamp),
            direction,
            watched.offset(direction) as int,
            watched.offset(direction) + total_length(samples),
        ),
        after_samples(watched, samples).offset(direction) == watched.offset(direction)
            + total_length(samples),
    decreases samples.len(),
{
    if samples.len() > 0 {
        let earlier = samples.drop_last();
        assert forall|index: int| 0 <= index < earlier.len() implies sample_is_honest(
            #[trigger] earlier[index],
        ) && earlier[index].direction == direction by {
            assert(earlier[index] == samples[index]);
        }
        assert(sample_is_honest(samples[samples.len() - 1]));
        law_samples_make_one_stream(watched, earlier, direction, texts, timestamp);
        let before = after_samples(watched, earlier);
        law_sample_is_told_in_full(before, samples.last(), texts, timestamp);
        lemma_covers_concat(
            events_of_samples(watched, earlier, texts, timestamp),
            sample_events(before, samples.last(), texts, timestamp),
            direction,
            watched.offset(direction) as int,
            watched.offset(direction) + total_length(earlier),
            watched.offset(direction) + total_length(samples),
        );
    }
}

} // verus!
