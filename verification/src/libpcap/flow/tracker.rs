//! The connections that are open, and what each segment does to them.
use vstd::prelude::*;

use crate::keyed::{
    holds, index_of, lemma_index_of, lemma_index_of_mapped, value_of, with_value, without_key,
    KeyedList,
};
use crate::libpcap::decoder::DecodedTcpSegment;
use crate::libpcap::flow::candidate::{
    complete_replies, flow_from_decoded, infer_initial_direction, select_flow_candidate,
    FlowCandidate, ResolverReplyView, SelectedFlowCandidate, MAX_QUESTIONS,
};
use crate::libpcap::flow::ledger::{questions, ProcessExchange, ProcessLedger};
use crate::libpcap::flow::model::{
    closure_views, flow_end_view, FlowClosure, FlowClosureView, FlowEnd, FlowFinalization,
    FlowLifecycleObservation, FlowPayload, FlowPayloadObservation,
};
use crate::libpcap::flow::record::{connection_of, ConnectionKey, FlowRecord, FlowRecordView};
use crate::libpcap::flow::tracking::{
    close_seen, closures_of, end_of, lifecycle_exchanged, lifecycle_seen, opened_record,
    payload_exchanged, payload_seen, prepared, prepared_for_syn, primary_reading, removed,
    secondary_reading, seen_known, seen_new, selected_for, settled, surplus, swept,
    syn_is_known, touched, with_room, Flows, LifecycleSeen, PayloadSeen, Swept,
    FLOW_IDLE_TIMEOUT_UNIX_NS, MAX_FLOW_TRACKER_CONNECTIONS,
};
use crate::model::{Direction, Timestamp};

verus! {

/// The view of a list of connections.
pub open spec fn flow_views(flows: Seq<(ConnectionKey, FlowRecord)>) -> Flows {
    flows.map_values(|entry: (ConnectionKey, FlowRecord)| (entry.0, entry.1@))
}

proof fn lemma_flow_lookup(flows: Seq<(ConnectionKey, FlowRecord)>, key: ConnectionKey)
    ensures
        index_of(flow_views(flows), key) == index_of(flows, key),
        holds(flow_views(flows), key) == holds(flows, key),
        holds(flows, key) ==> value_of(flow_views(flows), key) == value_of(flows, key)@,
        holds(flows, key) ==> flows[index_of(flows, key) as int].0 == key,
{
    lemma_index_of_mapped(flows, flow_views(flows), key);
    lemma_index_of(flows, key);
}

proof fn lemma_closure_views_push(closures: Seq<FlowClosure>, closure: FlowClosure)
    ensures
        closure_views(closures.push(closure)) == closure_views(closures).push(closure@),
{
    assert(closure_views(closures.push(closure)) =~= closure_views(closures).push(closure@));
}

/// What a resolver is told if it has to forget what it remembers.
pub open spec fn forgetting(has_resolver: bool, invalidated: bool) -> Seq<ProcessExchange> {
    if has_resolver && invalidated {
        seq![ProcessExchange::Invalidate]
    } else {
        Seq::empty()
    }
}

/// Asks a resolver to forget what it remembers, once.
fn invalidate_process_resolution(process_resolver: &mut ProcessLedger, invalidated: &mut bool)
    ensures
        *final(invalidated),
        final(process_resolver).has_resolver() == old(process_resolver).has_resolver(),
        final(process_resolver).record() == (if *old(invalidated) {
            old(process_resolver).record()
        } else {
            old(process_resolver).record() + forgetting(
                old(process_resolver).has_resolver(),
                true,
            )
        }),
{
    let ghost before = process_resolver.record();
    if !*invalidated {
        process_resolver.invalidate_cached_resolution();
        *invalidated = true;
        assert(process_resolver.record() =~= before + forgetting(
            process_resolver.has_resolver(),
            true,
        ));
    }
}

/// The reading of a first segment that a resolver's replies lead to.
fn select_reading(
    decoded: &DecodedTcpSegment<'_>,
    process_resolver: &mut ProcessLedger,
) -> (selected: SelectedFlowCandidate)
    ensures
        final(process_resolver).has_resolver() == old(process_resolver).has_resolver(),
        exists|replies: Seq<ResolverReplyView>| #[trigger]
            complete_replies(old(process_resolver).has_resolver(), replies) && selected@
                == selected_for(decoded@, replies) && final(process_resolver).record()
                == old(process_resolver).record() + questions(
                primary_reading(decoded@),
                secondary_reading(decoded@),
                replies,
            ),
{
    let direction = infer_initial_direction(decoded);
    let primary = FlowCandidate::from_decoded(decoded, direction);
    let secondary = FlowCandidate::from_decoded(decoded, direction.opposite());
    select_flow_candidate(primary, secondary, process_resolver)
}

/// Replies of a resolver that knows nothing.
pub open spec fn silent_replies(has_resolver: bool) -> Seq<ResolverReplyView> {
    Seq::new(
        if has_resolver {
            MAX_QUESTIONS as nat
        } else {
            0
        },
        |index: int| ResolverReplyView::Unknown,
    )
}

/// A connection as its first segment shows it, read as `selected`.
pub fn open_flow_record(
    decoded: &DecodedTcpSegment<'_>,
    timestamp: Timestamp,
    selected: SelectedFlowCandidate,
) -> (record: FlowRecord)
    ensures
        record@ == opened_record(decoded@, timestamp, selected@),
{
    let flow = flow_from_decoded(
        decoded,
        selected.direction,
        selected.process,
        selected.confidence,
        timestamp.monotonic_ns,
    );
    let mut record = FlowRecord::new(
        selected.local_endpoint,
        selected.confidence,
        flow,
        timestamp.wall_time_unix_ns,
    );
    record.observe_lifecycle(decoded);
    record
}

/// How far a connection is over, seen from a segment in `direction`, where it is not closed.
fn half_closed_end(record: &FlowRecord, direction: Direction) -> (end: Option<FlowEnd>)
    requires
        !record@.is_closed(),
    ensures
        flow_end_view(end) == end_of(record@, direction),
{
    match record.close_sequence_for(direction) {
        Some(close_sequence) => Some(
            FlowEnd::finalize(FlowFinalization::new(record.flow.clone(), close_sequence)),
        ),
        None => None,
    }
}

/// The connections that are open, in the order in which they were opened.
pub struct FlowTracker {
    pub flows: KeyedList<ConnectionKey, FlowRecord>,
}

impl View for FlowTracker {
    type V = Flows;

    open spec fn view(&self) -> Flows {
        flow_views(self.flows@)
    }
}

impl Default for FlowTracker {
    fn default() -> (tracker: Self)
        ensures
            tracker@ == Flows::empty(),
    {
        let tracker = FlowTracker { flows: KeyedList::new() };
        assert(tracker@ =~= Flows::empty());
        tracker
    }
}

impl FlowTracker {
    /// What a segment with payload means, where a resolver tells which process an unknown
    /// connection belongs to. The resolver is asked only where the connection is not tracked yet,
    /// and forgets what it remembers first whenever a connection begins or ends.
    pub fn observe(
        &mut self,
        decoded: &DecodedTcpSegment<'_>,
        timestamp: Timestamp,
        process_resolver: &mut ProcessLedger,
    ) -> (observation: FlowPayloadObservation)
        ensures
            final(process_resolver).has_resolver() == old(process_resolver).has_resolver(),
            exists|replies: Seq<ResolverReplyView>| #[trigger]
                complete_replies(old(process_resolver).has_resolver(), replies) && (PayloadSeen {
                    flows: final(self)@,
                    observation: observation@,
                }) == payload_seen(
                    old(self)@,
                    decoded@,
                    timestamp,
                    selected_for(decoded@, replies),
                ) && final(process_resolver).record() == old(process_resolver).record()
                    + payload_exchanged(
                    old(process_resolver).has_resolver(),
                    old(self)@,
                    decoded@,
                    timestamp,
                    replies,
                ),
    {
        let ghost flows = self@;
        let ghost before = process_resolver.record();
        let ghost has_resolver = process_resolver.has_resolver();
        let mut invalidated = false;
        if decoded.has_lifecycle_signal() {
            invalidate_process_resolution(process_resolver, &mut invalidated);
        }
        let closed_before = self.prepare(decoded, timestamp);
        assert(closure_views(closed_before@).len() == closed_before@.len());
        if closed_before.len() > 0 {
            invalidate_process_resolution(process_resolver, &mut invalidated);
        }
        let key = ConnectionKey::from_decoded(decoded);
        proof {
            lemma_flow_lookup(self.flows@, key);
        }
        if self.flows.find(&key).is_some() {
            let ghost replies = silent_replies(has_resolver);
            assert(complete_replies(has_resolver, replies));
            assert(process_resolver.record() =~= before + payload_exchanged(
                has_resolver,
                flows,
                decoded@,
                timestamp,
                replies,
            ));
            return self.observe_known(decoded, timestamp, closed_before);
        }
        if self.flows.len() >= MAX_FLOW_TRACKER_CONNECTIONS {
            invalidate_process_resolution(process_resolver, &mut invalidated);
        }
        let ghost told = process_resolver.record();
        assert(told =~= before + forgetting(has_resolver, invalidated));
        let selected = select_reading(decoded, process_resolver);
        let ghost replies = choose|replies: Seq<ResolverReplyView>| #[trigger]
            complete_replies(has_resolver, replies) && selected@ == selected_for(decoded@, replies)
                && process_resolver.record() == told + questions(
                primary_reading(decoded@),
                secondary_reading(decoded@),
                replies,
            );
        assert(process_resolver.record() =~= before + payload_exchanged(
            has_resolver,
            flows,
            decoded@,
            timestamp,
            replies,
        ));
        self.observe_new(decoded, timestamp, closed_before, selected)
    }

    /// What a segment without payload means, where a resolver tells which process an unknown
    /// connection belongs to.
    pub fn observe_lifecycle(
        &mut self,
        decoded: &DecodedTcpSegment<'_>,
        timestamp: Timestamp,
        process_resolver: &mut ProcessLedger,
    ) -> (observation: FlowLifecycleObservation)
        ensures
            final(process_resolver).has_resolver() == old(process_resolver).has_resolver(),
            exists|replies: Seq<ResolverReplyView>| #[trigger]
                complete_replies(old(process_resolver).has_resolver(), replies) && (LifecycleSeen {
                    flows: final(self)@,
                    observation: observation@,
                }) == lifecycle_seen(
                    old(self)@,
                    decoded@,
                    timestamp,
                    selected_for(decoded@, replies),
                ) && final(process_resolver).record() == old(process_resolver).record()
                    + lifecycle_exchanged(
                    old(process_resolver).has_resolver(),
                    old(self)@,
                    decoded@,
                    timestamp,
                    replies,
                ),
    {
        let ghost flows = self@;
        let ghost before = process_resolver.record();
        let ghost has_resolver = process_resolver.has_resolver();
        let mut invalidated = false;
        let ghost silent = silent_replies(has_resolver);
        assert(complete_replies(has_resolver, silent));
        if decoded.has_lifecycle_signal() {
            invalidate_process_resolution(process_resolver, &mut invalidated);
        }
        if !decoded.has_syn() {
            let observation = self.observe_close(decoded, timestamp);
            assert(observation@.before_lifecycle_closures.len()
                == observation.before_lifecycle_closures@.len());
            if observation.before_lifecycle_closures.len() > 0 {
                invalidate_process_resolution(process_resolver, &mut invalidated);
            }
            assert(process_resolver.record() =~= before + lifecycle_exchanged(
                has_resolver,
                flows,
                decoded@,
                timestamp,
                silent,
            ));
            return observation;
        }
        let closed_before = self.prepare_for_syn(decoded, timestamp);
        if closed_before.len() > 0 {
            invalidate_process_resolution(process_resolver, &mut invalidated);
        }
        let key = ConnectionKey::from_decoded(decoded);
        proof {
            lemma_flow_lookup(self.flows@, key);
        }
        let ghost told = process_resolver.record();
        assert(told =~= before + forgetting(has_resolver, true));
        if self.flows.find(&key).is_some() {
            assert(process_resolver.record() =~= before + lifecycle_exchanged(
                has_resolver,
                flows,
                decoded@,
                timestamp,
                silent,
            ));
            return FlowLifecycleObservation::new(closed_before, None);
        }
        let selected = select_reading(decoded, process_resolver);
        let ghost replies = choose|replies: Seq<ResolverReplyView>| #[trigger]
            complete_replies(has_resolver, replies) && selected@ == selected_for(decoded@, replies)
                && process_resolver.record() == told + questions(
                primary_reading(decoded@),
                secondary_reading(decoded@),
                replies,
            );
        if selected.confidence != 0 && self.flows.len() >= MAX_FLOW_TRACKER_CONNECTIONS {
            invalidate_process_resolution(process_resolver, &mut invalidated);
        }
        assert(process_resolver.record() =~= before + lifecycle_exchanged(
            has_resolver,
            flows,
            decoded@,
            timestamp,
            replies,
        ));
        self.observe_new_syn(decoded, timestamp, closed_before, selected)
    }

    /// Lets the connections go that a segment with payload shows to be over.
    pub fn prepare(&mut self, decoded: &DecodedTcpSegment<'_>, timestamp: Timestamp) -> (closed: Vec<
        FlowClosure,
    >)
        ensures
            (Swept { flows: final(self)@, closed: closure_views(closed@) }) == prepared(
                old(self)@,
                decoded@,
                timestamp,
            ),
    {
        let mut closed = self.evict_idle(timestamp.wall_time_unix_ns);
        let key = ConnectionKey::from_decoded(decoded);
        if decoded.has_syn() && !self.syn_belongs_to_existing_flow(&key, decoded) {
            self.remove_flow_into(&key, &mut closed);
        }
        proof {
            lemma_flow_lookup(self.flows@, key);
        }
        let past_close = match self.flows.get(&key) {
            Some(record) => record.payload_starts_after_close(decoded),
            None => false,
        };
        if past_close {
            self.remove_flow_into(&key, &mut closed);
        }
        closed
    }

    /// What a segment of a tracked connection means.
    pub fn observe_known(
        &mut self,
        decoded: &DecodedTcpSegment<'_>,
        timestamp: Timestamp,
        closed_before: Vec<FlowClosure>,
    ) -> (observation: FlowPayloadObservation)
        requires
            holds(old(self)@, connection_of(decoded@)),
        ensures
            (PayloadSeen { flows: final(self)@, observation: observation@ }) == seen_known(
                Swept { flows: old(self)@, closed: closure_views(closed_before@) },
                decoded@,
                timestamp,
            ),
    {
        let key = ConnectionKey::from_decoded(decoded);
        proof {
            lemma_flow_lookup(self.flows@, key);
        }
        let ghost was = self@;
        let index: usize = self.flows.find(&key).unwrap();
        let record = self.flows.value_mut(index);
        let direction = record.direction_for(decoded);
        let payload = FlowPayload::new(direction, record.flow.clone(), record.confidence, None);
        record.last_seen_wall_time_unix_ns = timestamp.wall_time_unix_ns;
        record.observe_lifecycle(decoded);
        let ghost after = touched(value_of(was, key), decoded@, timestamp);
        assert(self@ =~= with_value(was, key, after));
        let end = self.settle(index, &key, direction, Ghost(was), Ghost(after));
        FlowPayloadObservation::new(closed_before, payload, end)
    }

    /// What the first segment of a connection means, read as `selected`.
    pub fn observe_new(
        &mut self,
        decoded: &DecodedTcpSegment<'_>,
        timestamp: Timestamp,
        closed_before: Vec<FlowClosure>,
        selected: SelectedFlowCandidate,
    ) -> (observation: FlowPayloadObservation)
        ensures
            (PayloadSeen { flows: final(self)@, observation: observation@ }) == seen_new(
                Swept { flows: old(self)@, closed: closure_views(closed_before@) },
                decoded@,
                timestamp,
                selected@,
            ),
    {
        let mut closed = closed_before;
        self.evict_oldest_if_full(&mut closed);
        let key = ConnectionKey::from_decoded(decoded);
        let direction = selected.direction;
        let attribution_failure = crate::model::copy_optional_text(&selected.attribution_failure);
        let record = open_flow_record(decoded, timestamp, selected);
        let payload = FlowPayload::new(
            direction,
            record.flow.clone(),
            record.confidence,
            attribution_failure,
        );
        if record.closed() {
            let end = FlowEnd::close(record.into_closure());
            return FlowPayloadObservation::new(closed, payload, Some(end));
        }
        let end = half_closed_end(&record, direction);
        let ghost was = self@;
        let ghost view = record@;
        self.flows.push(key, record);
        assert(self@ =~= was.push((key, view)));
        FlowPayloadObservation::new(closed, payload, end)
    }

    /// Lets the connections go that a SYN without payload shows to be over, and shows it to the
    /// one that it belongs to.
    pub fn prepare_for_syn(&mut self, decoded: &DecodedTcpSegment<'_>, timestamp: Timestamp) -> (
    closed: Vec<FlowClosure>)
        ensures
            (Swept { flows: final(self)@, closed: closure_views(closed@) }) == prepared_for_syn(
                old(self)@,
                decoded@,
                timestamp,
            ),
    {
        let mut closed = self.evict_idle(timestamp.wall_time_unix_ns);
        let key = ConnectionKey::from_decoded(decoded);
        if !self.syn_belongs_to_existing_flow(&key, decoded) {
            self.remove_flow_into(&key, &mut closed);
            return closed;
        }
        proof {
            lemma_flow_lookup(self.flows@, key);
        }
        let ghost was = self@;
        let index: usize = self.flows.find(&key).unwrap();
        let record = self.flows.value_mut(index);
        record.last_seen_wall_time_unix_ns = timestamp.wall_time_unix_ns;
        record.observe_lifecycle(decoded);
        assert(self@ =~= with_value(was, key, touched(value_of(was, key), decoded@, timestamp)));
        closed
    }

    /// What a SYN without payload means where its connection is not tracked, read as `selected`.
    pub fn observe_new_syn(
        &mut self,
        decoded: &DecodedTcpSegment<'_>,
        timestamp: Timestamp,
        closed_before: Vec<FlowClosure>,
        selected: SelectedFlowCandidate,
    ) -> (observation: FlowLifecycleObservation)
        ensures
            ({
                let state = Swept { flows: old(self)@, closed: closure_views(closed_before@) };
                let room = with_room(state);
                if selected@.confidence != 0 {
                    &&& final(self)@ == room.flows.push(
                        (connection_of(decoded@), opened_record(decoded@, timestamp, selected@)),
                    )
                    &&& observation@.before_lifecycle_closures == room.closed
                    &&& observation@.after_lifecycle is None
                } else {
                    &&& final(self)@ == old(self)@
                    &&& observation@.before_lifecycle_closures == state.closed
                    &&& observation@.after_lifecycle is None
                }
            }),
    {
        let mut closed = closed_before;
        if selected.confidence != 0 {
            self.evict_oldest_if_full(&mut closed);
            let key = ConnectionKey::from_decoded(decoded);
            let record = open_flow_record(decoded, timestamp, selected);
            let ghost was = self@;
            let ghost view = record@;
            self.flows.push(key, record);
            assert(self@ =~= was.push((key, view)));
        }
        FlowLifecycleObservation::new(closed, None)
    }

    /// What a segment without payload and without SYN means.
    pub fn observe_close(&mut self, decoded: &DecodedTcpSegment<'_>, timestamp: Timestamp) -> (
    observation: FlowLifecycleObservation)
        ensures
            (LifecycleSeen { flows: final(self)@, observation: observation@ }) == close_seen(
                old(self)@,
                decoded@,
                timestamp,
            ),
    {
        let closed = self.evict_idle(timestamp.wall_time_unix_ns);
        let key = ConnectionKey::from_decoded(decoded);
        proof {
            lemma_flow_lookup(self.flows@, key);
        }
        let ghost was = self@;
        match self.flows.find(&key) {
            None => FlowLifecycleObservation::new(closed, None),
            Some(index) => {
                let record = self.flows.value_mut(index);
                let direction = record.direction_for(decoded);
                record.last_seen_wall_time_unix_ns = timestamp.wall_time_unix_ns;
                record.observe_lifecycle(decoded);
                let ghost after = touched(value_of(was, key), decoded@, timestamp);
                assert(self@ =~= with_value(was, key, after));
                let end = self.settle(index, &key, direction, Ghost(was), Ghost(after));
                FlowLifecycleObservation::new(closed, end)
            },
        }
    }

    /// Reports how far the connection at `index` is over, and lets it go where it is.
    fn settle(
        &mut self,
        index: usize,
        key: &ConnectionKey,
        direction: Direction,
        Ghost(was): Ghost<Flows>,
        Ghost(after): Ghost<FlowRecordView>,
    ) -> (end: Option<FlowEnd>)
        requires
            holds(was, *key),
            index == index_of(was, *key),
            old(self)@ == with_value(was, *key, after),
        ensures
            final(self)@ == settled(was, *key, after),
            flow_end_view(end) == end_of(after, direction),
    {
        proof {
            lemma_index_of(was, *key);
            assert(self@.len() == was.len());
            assert(index < self.flows@.len());
            assert(self.flows@[index as int].1@ == self@[index as int].1);
        }
        if self.flows.entries[index].1.closed() {
            let ghost held = self@;
            let entry = self.flows.remove_at(index);
            assert(self@ =~= held.remove(index as int));
            assert(held.remove(index as int) =~= was.remove(index as int));
            Some(FlowEnd::close(entry.1.into_closure()))
        } else {
            half_closed_end(&self.flows.entries[index].1, direction)
        }
    }

    fn syn_belongs_to_existing_flow(
        &self,
        key: &ConnectionKey,
        decoded: &DecodedTcpSegment<'_>,
    ) -> (belongs: bool)
        ensures
            belongs == syn_is_known(self@, *key, decoded@),
    {
        proof {
            lemma_flow_lookup(self.flows@, *key);
        }
        match self.flows.get(key) {
            Some(record) => record.syn_belongs_to_existing_flow(decoded),
            None => false,
        }
    }

    fn evict_oldest_if_full(&mut self, closed: &mut Vec<FlowClosure>)
        ensures
            (Swept { flows: final(self)@, closed: closure_views(final(closed)@) }) == with_room(
                Swept { flows: old(self)@, closed: closure_views(old(closed)@) },
            ),
    {
        let ghost was = self@;
        let ghost earlier = closure_views(closed@);
        let ghost mut gone: int = 0;
        assert(was.skip(0) =~= was);
        assert(earlier + closures_of(was.take(0)) =~= earlier);
        while self.flows.len() >= MAX_FLOW_TRACKER_CONNECTIONS
            invariant
                0 <= gone <= surplus(was) <= was.len(),
                self@ == was.skip(gone),
                self@.len() == was.len() - gone,
                closure_views(closed@) == earlier + closures_of(was.take(gone)),
            decreases self.flows@.len(),
        {
            let ghost before = self@;
            let entry = self.flows.remove_at(0);
            assert(self@ =~= before.remove(0));
            assert(before[0] == was[gone]);
            assert(entry.1@ == was[gone].1);
            assert(self@ =~= was.skip(gone + 1));
            let closure = entry.1.into_closure();
            proof {
                lemma_closure_views_push(closed@, closure);
            }
            closed.push(closure);
            assert(closure_views(closed@) =~= earlier + closures_of(was.take(gone + 1)));
            proof {
                gone = gone + 1;
            }
        }
        assert(gone == surplus(was));
    }

    fn evict_idle(&mut self, now: i64) -> (closed: Vec<FlowClosure>)
        ensures
            (Swept { flows: final(self)@, closed: closure_views(closed@) }) == swept(
                old(self)@,
                now,
            ),
    {
        let mut closed: Vec<FlowClosure> = Vec::new();
        let ghost was = self@;
        let ghost mut read: int = 0;
        let mut index: usize = 0;
        assert(was.take(0) =~= Flows::empty());
        assert(closure_views(closed@) =~= Seq::<FlowClosureView>::empty());
        assert(self@.take(0) =~= Flows::empty());
        assert(self@.skip(0) =~= was.skip(0));
        while index < self.flows.len()
            invariant
                index <= self.flows@.len(),
                0 <= read <= was.len(),
                self@.take(index as int) == swept(was.take(read), now).flows,
                self@.skip(index as int) == was.skip(read),
                self@.len() - index == was.len() - read,
                closure_views(closed@) == swept(was.take(read), now).closed,
            decreases self.flows@.len() - index,
        {
            let ghost before = self@;
            let last_seen: i64 = self.flows.entries[index].1.last_seen_wall_time_unix_ns;
            proof {
                assert(before.skip(index as int)[0] == before[index as int]);
                assert(was.skip(read)[0] == was[read]);
                assert(before[index as int] == was[read]);
                assert(self.flows@[index as int].1@ == before[index as int].1);
                assert(was.take(read + 1).drop_last() =~= was.take(read));
                assert(was.take(read + 1).last() == was[read]);
            }
            if (now as i128) - (last_seen as i128) > FLOW_IDLE_TIMEOUT_UNIX_NS as i128 {
                let entry = self.flows.remove_at(index);
                let closure = entry.1.into_closure();
                proof {
                    lemma_closure_views_push(closed@, closure);
                }
                closed.push(closure);
                assert(self@ =~= before.remove(index as int));
                assert(self@.take(index as int) =~= before.take(index as int));
                assert(self@.skip(index as int) =~= was.skip(read).drop_first());
                assert(was.skip(read).drop_first() =~= was.skip(read + 1));
            } else {
                assert(self@.take(index + 1) =~= before.take(index as int).push(was[read]));
                assert(self@.skip(index + 1) =~= was.skip(read).drop_first());
                assert(was.skip(read).drop_first() =~= was.skip(read + 1));
                index = index + 1;
            }
            proof {
                read = read + 1;
            }
        }
        assert(was.take(read) =~= was);
        assert(self@.take(index as int) =~= self@);
        closed
    }

    fn remove_flow_into(&mut self, key: &ConnectionKey, closed: &mut Vec<FlowClosure>)
        ensures
            (Swept { flows: final(self)@, closed: closure_views(final(closed)@) }) == removed(
                Swept { flows: old(self)@, closed: closure_views(old(closed)@) },
                *key,
            ),
    {
        proof {
            lemma_flow_lookup(self.flows@, *key);
        }
        let ghost was = self@;
        match self.flows.remove(key) {
            Some(record) => {
                assert(self@ =~= without_key(was, *key));
                let closure = record.into_closure();
                proof {
                    lemma_closure_views_push(closed@, closure);
                }
                closed.push(closure);
            },
            None => {},
        }
    }
}

} // verus!
