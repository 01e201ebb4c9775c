//! The streams of all flows.
use vstd::prelude::*;
use vstd::string::StringExecFns;

use crate::event::{
    event_views, lemma_event_views_concat, lemma_event_views_push, CaptureEvent, CaptureEventView,
    CapturedBytes, CapturedGap, EnforcementEvidencePropagation,
};
use crate::keyed::{
    holds, index_of, lemma_index_of, lemma_index_of_mapped, value_of, with_value, without_key,
    KeyedList,
};
use crate::libpcap::decoder::DecodedTcpSegment;
use crate::libpcap::flow::model::{
    FlowCloseSequence, FlowClosure, FlowFinalization, FlowPayload,
};
use crate::libpcap::stream::assembler::{
    fresh_stream, piece_views, DirectionStreamAssembler, StreamPiece,
};
use crate::libpcap::stream::assembly::{closed, flushed, forced, ingested, Assembled};
use crate::libpcap::stream::budget::{key_views, PendingIndex, StreamKey, StreamKeyView};
use crate::libpcap::stream::tracking::{
    degradation_text, first_seen_closing, lemma_waiting_with_value, piece_event, piece_events,
    refreshed, waiting_segments, Delivered, StreamEntryView, StreamTrackerView, DEGRADATION_BASE,
    FLOW_CLOSE_GAP_REASON, GLOBAL_BUFFER_LIMIT_GAP_REASON, HANDOFF_GAP_REASON,
    REORDER_TIMEOUT_GAP_REASON,
};
use crate::model::{
    CaptureOrigin, CaptureSource, Direction, EnforcementEvidence, FlowContext, Gap, Timestamp,
};
use crate::text::joined;

verus! {

broadcast use {lemma_event_views_push, lemma_event_views_concat};

/// Why payload is degraded, with the failure to attribute it where there was one.
pub fn degradation_reason(attribution_failure: Option<&str>) -> (reason: String)
    ensures
        reason@ == degradation_text(
            match attribution_failure {
                Some(failure) => Some(failure@),
                None => None,
            },
        ),
{
    match attribution_failure {
        Some(failure) => {
            let mut text = joined(DEGRADATION_BASE, "; process attribution failed: ");
            text.append(failure);
            text
        },
        None => DEGRADATION_BASE.to_owned(),
    }
}

/// One direction of a flow, with what its events carry.
#[derive(Debug)]
pub struct StreamEntry {
    pub flow: FlowContext,
    pub direction: Direction,
    pub attribution_confidence: u8,
    pub degradation_reason: String,
    pub stream: DirectionStreamAssembler,
    pub last_activity_monotonic_ns: u64,
}

impl View for StreamEntry {
    type V = StreamEntryView;

    open spec fn view(&self) -> StreamEntryView {
        StreamEntryView {
            flow: self.flow@,
            direction: self.direction,
            attribution_confidence: self.attribution_confidence,
            degradation_reason: self.degradation_reason@,
            stream: self.stream@,
            last_activity_monotonic_ns: self.last_activity_monotonic_ns,
        }
    }
}

impl StreamEntry {
    fn new(timestamp: Timestamp, payload: &FlowPayload, degradation_reason: String) -> (entry:
        StreamEntry)
        ensures
            entry@ == refreshed(fresh_stream(), timestamp, payload@, degradation_reason@),
    {
        StreamEntry {
            flow: payload.flow.clone(),
            direction: payload.direction,
            attribution_confidence: payload.attribution_confidence,
            degradation_reason,
            stream: DirectionStreamAssembler::default(),
            last_activity_monotonic_ns: timestamp.monotonic_ns,
        }
    }

    fn from_close(timestamp: Timestamp, flow: FlowContext, direction: Direction) -> (entry:
        StreamEntry)
        ensures
            entry@ == first_seen_closing(timestamp, flow@, direction),
    {
        StreamEntry {
            direction,
            attribution_confidence: flow.attribution_confidence,
            degradation_reason: degradation_reason(None),
            flow,
            stream: DirectionStreamAssembler::default(),
            last_activity_monotonic_ns: timestamp.monotonic_ns,
        }
    }

    fn refresh(&mut self, timestamp: Timestamp, payload: &FlowPayload, degradation_reason: String)
        ensures
            final(self)@ == refreshed(
                old(self)@.stream,
                timestamp,
                payload@,
                degradation_reason@,
            ),
    {
        self.flow = payload.flow.clone();
        self.direction = payload.direction;
        self.attribution_confidence = payload.attribution_confidence;
        self.degradation_reason = degradation_reason;
        self.last_activity_monotonic_ns = timestamp.monotonic_ns;
    }
}

fn stream_piece_event(timestamp: Timestamp, entry: &StreamEntry, piece: StreamPiece) -> (event:
    CaptureEvent)
    ensures
        event@ == piece_event(timestamp, entry@, piece@),
{
    match piece {
        StreamPiece::Bytes { stream_offset, bytes } => CaptureEvent::Bytes(
            CapturedBytes {
                timestamp,
                flow: entry.flow.clone(),
                origin: CaptureOrigin::from_source(CaptureSource::Libpcap),
                direction: entry.direction,
                stream_offset,
                bytes,
                attribution_confidence: entry.attribution_confidence,
                degraded: true,
                degradation_reason: Some(entry.degradation_reason.clone()),
                enforcement_evidence: EnforcementEvidence::default(),
                enforcement_evidence_propagation: EnforcementEvidencePropagation::Event,
            },
        ),
        StreamPiece::Gap { expected_offset, next_offset, reason } => CaptureEvent::Gap(
            CapturedGap {
                timestamp,
                flow: entry.flow.clone(),
                origin: CaptureOrigin::from_source(CaptureSource::Libpcap),
                enforcement_evidence: EnforcementEvidence::default(),
                enforcement_evidence_propagation: EnforcementEvidencePropagation::Event,
                gap: Gap {
                    direction: entry.direction,
                    expected_offset,
                    next_offset,
                    reason: reason.to_owned(),
                },
            },
        ),
    }
}

fn stream_piece_events(timestamp: Timestamp, entry: &StreamEntry, pieces: Vec<StreamPiece>) -> (
events: Vec<CaptureEvent>)
    ensures
        event_views(events@) == piece_events(timestamp, entry@, piece_views(pieces@)),
{
    let ghost all = pieces@;
    let ghost mut done: int = 0;
    let mut rest = pieces;
    let mut events: Vec<CaptureEvent> = Vec::new();
    assert(rest@ =~= all.skip(0));
    assert(event_views(events@) =~= piece_events(timestamp, entry@, piece_views(all.take(0))));
    while rest.len() > 0
        invariant
            0 <= done <= all.len(),
            rest@ == all.skip(done),
            event_views(events@) == piece_events(timestamp, entry@, piece_views(all.take(done))),
        decreases rest.len(),
    {
        let piece = rest.remove(0);
        assert(piece == all[done]);
        assert(rest@ =~= all.skip(done + 1));
        let ghost before = event_views(events@);
        let event = stream_piece_event(timestamp, entry, piece);
        events.push(event);
        assert(event_views(events@) =~= piece_events(
            timestamp,
            entry@,
            piece_views(all.take(done + 1)),
        ));
        proof {
            done = done + 1;
        }
    }
    assert(all.take(done) =~= all);
    events
}

/// The view of a list of streams.
pub open spec fn stream_views(streams: Seq<(StreamKeyView, StreamEntry)>) -> Seq<
    (StreamKeyView, StreamEntryView),
> {
    streams.map_values(|entry: (StreamKeyView, StreamEntry)| (entry.0, entry.1@))
}

proof fn lemma_stream_lookup(streams: Seq<(StreamKeyView, StreamEntry)>, key: StreamKeyView)
    ensures
        index_of(stream_views(streams), key) == index_of(streams, key),
        holds(stream_views(streams), key) == holds(streams, key),
        holds(streams, key) ==> value_of(stream_views(streams), key) == value_of(streams, key)@,
        holds(streams, key) ==> streams[index_of(streams, key) as int].0 == key,
{
    lemma_index_of_mapped(streams, stream_views(streams), key);
    lemma_index_of(streams, key);
}

/// The streams of all flows.
pub struct StreamTracker {
    pub streams: KeyedList<StreamKey, StreamEntry>,
    pub pending: PendingIndex,
}

impl View for StreamTracker {
    type V = StreamTrackerView;

    open spec fn view(&self) -> StreamTrackerView {
        StreamTrackerView { streams: stream_views(self.streams@), pending: self.pending@ }
    }
}

impl Default for StreamTracker {
    fn default() -> (tracker: Self)
        ensures
            tracker@ == StreamTrackerView::empty(),
    {
        let tracker = StreamTracker {
            streams: KeyedList::new(),
            pending: PendingIndex::default(),
        };
        assert(tracker@ =~= StreamTrackerView::empty());
        tracker
    }
}

impl StreamTracker {
    /// Takes the payload of a segment in and returns the events that it leads to.
    pub fn ingest_segment(
        &mut self,
        timestamp: Timestamp,
        decoded: &DecodedTcpSegment<'_>,
        payload: &FlowPayload,
        degradation_reason: String,
    ) -> (events: Vec<CaptureEvent>)
        ensures
            (Delivered { state: final(self)@, events: event_views(events@) }) == old(
                self,
            )@.ingested(
                timestamp,
                decoded@.first_sequence(),
                decoded@.payload,
                payload@,
                degradation_reason@,
            ),
    {
        let key = StreamKey::new(payload.flow.id.clone(), payload.direction);
        let ghost initial = self@;
        let ghost reason = degradation_reason@;
        proof {
            lemma_stream_lookup(self.streams@, key@);
        }
        let index: usize = match self.streams.find(&key) {
            Some(index) => {
                let entry = self.streams.value_mut(index);
                entry.refresh(timestamp, payload, degradation_reason);
                index
            },
            None => {
                let index: usize = self.streams.len();
                self.streams.push(
                    key.clone(),
                    StreamEntry::new(timestamp, payload, degradation_reason),
                );
                index
            },
        };
        let ghost base = if holds(initial.streams, key@) {
            value_of(initial.streams, key@).stream
        } else {
            fresh_stream()
        };
        let ghost entry_view = refreshed(base, timestamp, payload@, reason);
        let sequence: u32 = decoded.payload_sequence();
        let entry = self.streams.value_mut(index);
        assert(entry@ == entry_view);
        let pieces = entry.stream.ingest(sequence, decoded.payload);
        let ghost step = ingested(base, sequence, decoded@.payload);
        let mut events = self.finish_mutation(
            timestamp,
            &key,
            index,
            pieces,
            Ghost(initial),
            Ghost(entry_view),
            Ghost(step),
        );
        let mut budget_events = self.enforce_global_budget(timestamp);
        events.append(&mut budget_events);
        events
    }

    /// Whether anything waits in any stream.
    pub fn has_pending(&self) -> (pending: bool)
        ensures
            pending == self@.pending.totals.some_pending(),
    {
        self.pending.has_pending()
    }

    /// Delivers everything that waits because missing payload did not arrive in time.
    pub fn flush_pending(&mut self, timestamp: Timestamp) -> (events: Vec<CaptureEvent>)
        ensures
            (Delivered { state: final(self)@, events: event_views(events@) }) == old(
                self,
            )@.flushed_all(timestamp, REORDER_TIMEOUT_GAP_REASON@),
    {
        self.flush_pending_with_reason(timestamp, REORDER_TIMEOUT_GAP_REASON)
    }

    /// Delivers everything that waits because another generation of the runtime takes over.
    pub fn flush_pending_for_handoff(&mut self, timestamp: Timestamp) -> (events: Vec<CaptureEvent>)
        ensures
            (Delivered { state: final(self)@, events: event_views(events@) }) == old(
                self,
            )@.flushed_all(timestamp, HANDOFF_GAP_REASON@),
    {
        self.flush_pending_with_reason(timestamp, HANDOFF_GAP_REASON)
    }

    fn flush_pending_with_reason(&mut self, timestamp: Timestamp, reason: &'static str) -> (events:
        Vec<CaptureEvent>)
        ensures
            (Delivered { state: final(self)@, events: event_views(events@) }) == old(
                self,
            )@.flushed_all(timestamp, reason@),
    {
        let keys = self.pending.keys();
        let ghost all = key_views(keys@);
        let ghost goal = self@.flushed_keys(timestamp, all, reason@);
        let mut events: Vec<CaptureEvent> = Vec::new();
        let mut index: usize = 0;
        assert(all.skip(0) =~= all);
        assert(event_views(events@) =~= Seq::<CaptureEventView>::empty());
        assert(goal.preceded_by(event_views(events@)) =~= goal);
        while index < keys.len()
            invariant
                index <= keys.len(),
                all == key_views(keys@),
                self@.flushed_keys(timestamp, all.skip(index as int), reason@).preceded_by(
                    event_views(events@),
                ) == goal,
            decreases keys.len() - index,
        {
            let key = &keys[index];
            let ghost state = self@;
            let ghost delivered = event_views(events@);
            proof {
                lemma_stream_lookup(self.streams@, key@);
                assert(all.skip(index as int)[0] == key@);
                assert(all.skip(index as int).drop_first() =~= all.skip(index + 1));
            }
            match self.streams.find(key) {
                None => {
                    self.pending.clear(key);
                },
                Some(place) => {
                    let ghost entry_view = value_of(state.streams, key@);
                    let ghost step = flushed(entry_view.stream, reason@);
                    let entry = self.streams.value_mut(place);
                    let pieces = entry.stream.flush_pending(reason);
                    let mut more = self.finish_mutation(
                        timestamp,
                        key,
                        place,
                        pieces,
                        Ghost(state),
                        Ghost(entry_view),
                        Ghost(step),
                    );
                    let ghost fresh = event_views(more@);
                    events.append(&mut more);
                    proof {
                        let rest = self@.flushed_keys(timestamp, all.skip(index + 1), reason@);
                        assert(rest.preceded_by(fresh).preceded_by(delivered)
                            =~= rest.preceded_by(delivered + fresh));
                    }
                },
            }
            index = index + 1;
        }
        proof {
            assert(all.skip(index as int).len() == 0);
            assert(event_views(events@) =~= goal.events);
        }
        events
    }

    /// Closes a flow and forgets its streams.
    pub fn close_flow(&mut self, timestamp: Timestamp, closure: &FlowClosure) -> (events: Vec<
        CaptureEvent,
    >)
        ensures
            (Delivered { state: final(self)@, events: event_views(events@) }) == old(
                self,
            )@.flow_closed(timestamp, closure@),
    {
        let ghost initial = self@;
        let ghost all = closure.finalizations@;
        let ghost goal = initial.finalized_each(timestamp, closure@.flow, all);
        let mut events: Vec<CaptureEvent> = Vec::new();
        let mut index: usize = 0;
        assert(all.skip(0) =~= all);
        assert(event_views(events@) =~= Seq::<CaptureEventView>::empty());
        assert(goal.preceded_by(event_views(events@)) =~= goal);
        while index < closure.finalizations.len()
            invariant
                index <= closure.finalizations.len(),
                all == closure.finalizations@,
                self@.finalized_each(
                    timestamp,
                    closure@.flow,
                    all.skip(index as int),
                ).preceded_by(event_views(events@)) == goal,
            decreases closure.finalizations.len() - index,
        {
            let ghost state = self@;
            let ghost delivered = event_views(events@);
            let close_sequence = closure.finalizations[index];
            proof {
                assert(all.skip(index as int)[0] == close_sequence);
                assert(all.skip(index as int).drop_first() =~= all.skip(index + 1));
            }
            let mut more = self.finalize_close_sequence(timestamp, &closure.flow, close_sequence);
            let ghost fresh = event_views(more@);
            events.append(&mut more);
            proof {
                let rest = self@.finalized_each(timestamp, closure@.flow, all.skip(index + 1));
                assert(rest.preceded_by(fresh).preceded_by(delivered) =~= rest.preceded_by(
                    delivered + fresh,
                ));
            }
            index = index + 1;
        }
        proof {
            assert(all.skip(index as int).len() == 0);
            assert(event_views(events@) =~= goal.events);
        }
        let mut inbound = self.forget_direction(timestamp, &closure.flow, Direction::Inbound);
        let ghost inbound_events = event_views(inbound@);
        let mut outbound = self.forget_direction(timestamp, &closure.flow, Direction::Outbound);
        let ghost outbound_events = event_views(outbound@);
        events.append(&mut inbound);
        events.append(&mut outbound);
        assert(event_views(events@) =~= goal.events + (inbound_events + outbound_events));
        events
    }

    /// Closes one direction of a flow.
    pub fn finalize_direction(&mut self, timestamp: Timestamp, finalization: &FlowFinalization) -> (
    events: Vec<CaptureEvent>)
        ensures
            (Delivered { state: final(self)@, events: event_views(events@) }) == old(
                self,
            )@.finalized(timestamp, finalization@.flow, finalization@.close_sequence),
    {
        self.finalize_close_sequence(timestamp, &finalization.flow, finalization.close_sequence)
    }

    fn forget_direction(
        &mut self,
        timestamp: Timestamp,
        flow: &FlowContext,
        direction: Direction,
    ) -> (events: Vec<CaptureEvent>)
        ensures
            (Delivered { state: final(self)@, events: event_views(events@) }) == old(
                self,
            )@.forgotten(timestamp, flow@, direction),
    {
        let key = StreamKey::new(flow.id.clone(), direction);
        let ghost initial = self@;
        proof {
            lemma_stream_lookup(self.streams@, key@);
        }
        let ghost was = self.streams@;
        let removed = self.streams.remove(&key);
        assert(stream_views(self.streams@) =~= without_key(initial.streams, key@));
        match removed {
            None => {
                self.pending.clear(&key);
                let events: Vec<CaptureEvent> = Vec::new();
                assert(event_views(events@) =~= Seq::<CaptureEventView>::empty());
                events
            },
            Some(mut entry) => {
                let pieces = entry.stream.flush_pending(FLOW_CLOSE_GAP_REASON);
                let events = stream_piece_events(timestamp, &entry, pieces);
                self.pending.remove(&key);
                events
            },
        }
    }

    fn enforce_global_budget(&mut self, timestamp: Timestamp) -> (events: Vec<CaptureEvent>)
        ensures
            (Delivered { state: final(self)@, events: event_views(events@) }) == old(
                self,
            )@.within_budget(timestamp),
    {
        let ghost goal = self@.within_budget(timestamp);
        let mut events: Vec<CaptureEvent> = Vec::new();
        assert(event_views(events@) =~= Seq::<CaptureEventView>::empty());
        assert(goal.preceded_by(event_views(events@)) =~= goal);
        loop
            invariant_except_break
                self@.within_budget(timestamp).preceded_by(event_views(events@)) == goal,
            ensures
                (Delivered { state: self@, events: event_views(events@) }) == goal,
            decreases waiting_segments(self@.streams), self@.pending.queue.len(),
        {
            let ghost state = self@;
            let ghost delivered = event_views(events@);
            if !self.pending.exceeds_limit() {
                assert(event_views(events@) =~= goal.events);
                break;
            }
            let oldest = self.pending.pop_oldest();
            let ghost popped = self@;
            match oldest {
                None => {
                    assert(event_views(events@) =~= goal.events);
                    break;
                },
                Some(key) => {
                    proof {
                        lemma_stream_lookup(self.streams@, key@);
                    }
                    match self.streams.find(&key) {
                        None => {
                            self.pending.clear(&key);
                        },
                        Some(place) => {
                            let ghost entry_view = value_of(state.streams, key@);
                            let ghost step = forced(
                                entry_view.stream,
                                GLOBAL_BUFFER_LIMIT_GAP_REASON@,
                            );
                            let entry = self.streams.value_mut(place);
                            let waiting_before: usize = entry.stream.pending.segments.len();
                            let pieces = entry.stream.force_gap_for_buffer_limit(
                                GLOBAL_BUFFER_LIMIT_GAP_REASON,
                            );
                            let waiting_after: usize = entry.stream.pending.segments.len();
                            let mut more = self.finish_mutation(
                                timestamp,
                                &key,
                                place,
                                pieces,
                                Ghost(popped),
                                Ghost(entry_view),
                                Ghost(step),
                            );
                            let ghost fresh = event_views(more@);
                            events.append(&mut more);
                            proof {
                                lemma_waiting_with_value(
                                    state.streams,
                                    key@,
                                    StreamEntryView { stream: step.state, ..entry_view },
                                );
                            }
                            if waiting_after >= waiting_before {
                                assert(event_views(events@) =~= goal.events);
                                break;
                            }
                            proof {
                                let rest = self@.within_budget(timestamp);
                                assert(rest.preceded_by(fresh).preceded_by(delivered)
                                    =~= rest.preceded_by(delivered + fresh));
                            }
                        },
                    }
                },
            }
        }
        events
    }

    fn finalize_close_sequence(
        &mut self,
        timestamp: Timestamp,
        flow: &FlowContext,
        close_sequence: FlowCloseSequence,
    ) -> (events: Vec<CaptureEvent>)
        ensures
            (Delivered { state: final(self)@, events: event_views(events@) }) == old(
                self,
            )@.finalized(timestamp, flow@, close_sequence),
    {
        let key = StreamKey::new(flow.id.clone(), close_sequence.direction);
        let ghost initial = self@;
        proof {
            lemma_stream_lookup(self.streams@, key@);
        }
        let index: usize = match self.streams.find(&key) {
            Some(index) => index,
            None => {
                let index: usize = self.streams.len();
                self.streams.push(
                    key.clone(),
                    StreamEntry::from_close(timestamp, flow.clone(), close_sequence.direction),
                );
                index
            },
        };
        let ghost entry_view = if holds(initial.streams, key@) {
            value_of(initial.streams, key@)
        } else {
            first_seen_closing(timestamp, flow@, close_sequence.direction)
        };
        let ghost step = closed(
            entry_view.stream,
            close_sequence.sequence,
            FLOW_CLOSE_GAP_REASON@,
        );
        let entry = self.streams.value_mut(index);
        assert(entry@ == entry_view);
        let pieces = entry.stream.close_at(close_sequence.sequence, FLOW_CLOSE_GAP_REASON);
        self.finish_mutation(
            timestamp,
            &key,
            index,
            pieces,
            Ghost(initial),
            Ghost(entry_view),
            Ghost(step),
        )
    }

    /// Records what waits in the stream at `index` after it delivered `pieces`, and turns those
    /// into events.
    fn finish_mutation(
        &mut self,
        timestamp: Timestamp,
        key: &StreamKey,
        index: usize,
        pieces: Vec<StreamPiece>,
        Ghost(before): Ghost<StreamTrackerView>,
        Ghost(entry_view): Ghost<StreamEntryView>,
        Ghost(step): Ghost<Assembled>,
    ) -> (events: Vec<CaptureEvent>)
        requires
            index < old(self).streams@.len(),
            stream_views(old(self).streams@) =~= with_value(
                before.streams,
                key@,
                StreamEntryView { stream: step.state, ..entry_view },
            ),
            old(self).streams@[index as int].1@ == (StreamEntryView {
                stream: step.state,
                ..entry_view
            }),
            old(self)@.pending == before.pending,
            piece_views(pieces@) == step.pieces,
        ensures
            (Delivered { state: final(self)@, events: event_views(events@) }) == before.recorded(
                timestamp,
                key@,
                entry_view,
                step,
            ),
    {
        let entry = &self.streams.entries[index].1;
        assert(*entry == self.streams@[index as int].1);
        let after = entry.stream.pending_count();
        let events = stream_piece_events(timestamp, entry, pieces);
        let activity: u64 = entry.last_activity_monotonic_ns;
        self.pending.update(key, activity, after);
        events
    }
}

} // verus!
