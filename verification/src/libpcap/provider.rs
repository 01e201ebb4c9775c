//! From packets to capture events.
use std::collections::VecDeque;
use vstd::prelude::*;

use crate::event::{
    event_views, extend_queue, lemma_event_views_concat, lemma_event_views_push, CaptureEvent,
    CaptureEventView,
};
use crate::libpcap::decoder::{
    reads_as, segment_of, segment_view, DecodedTcpSegment, LinkLayer, TcpSegmentView,
};
use crate::libpcap::flow::candidate::{complete_replies, ResolverReplyView};
use crate::libpcap::flow::ledger::{ProcessExchange, ProcessLedger};
use crate::libpcap::flow::model::{
    closure_views, flow_end_view, FlowClosure, FlowClosureView, FlowEnd, FlowEndView,
    FlowLifecycleObservation, FlowLifecycleObservationView, FlowPayloadObservation,
    FlowPayloadObservationView,
};
use crate::libpcap::flow::tracker::{silent_replies, FlowTracker};
use crate::libpcap::flow::tracking::{
    lifecycle_exchanged, lifecycle_seen, payload_exchanged, payload_seen, selected_for, Flows,
};
use crate::libpcap::flush::PendingStreamFlush;
use crate::libpcap::stream::tracker::{degradation_reason, StreamTracker};
use crate::libpcap::stream::tracking::{
    degradation_text, Delivered, StreamTrackerView, REORDER_TIMEOUT_GAP_REASON,
};
use crate::model::{
    libpcap_origin, CaptureOrigin, CaptureSource, FlowContext, FlowContextView, Timestamp,
};
use crate::provider::{
    CapabilityKind, CapabilityState, CapabilityStateView, CapabilityStatusView, CapturePoll,
    CapturePollView,
};

verus! {

broadcast use {lemma_event_views_push, lemma_event_views_concat};

/// How to capture with libpcap.
#[derive(Debug, Clone, PartialEq, Eq)]
pub struct LibpcapConfig {
    pub interface: Option<String>,
    pub bpf_filter: String,
    pub snaplen: i32,
    pub promisc: bool,
    pub immediate_mode: bool,
    pub read_timeout_ms: i32,
    pub buffer_size: Option<i32>,
}

impl Default for LibpcapConfig {
    fn default() -> (config: Self)
        ensures
            config.interface is None,
            config.bpf_filter@ == "tcp"@,
            config.snaplen == 65_535,
            !config.promisc,
            config.immediate_mode,
            config.read_timeout_ms == 1_000,
            config.buffer_size is None,
    {
        LibpcapConfig {
            interface: None,
            bpf_filter: "tcp".to_owned(),
            snaplen: 65_535,
            promisc: false,
            immediate_mode: true,
            read_timeout_ms: 1_000,
            buffer_size: None,
        }
    }
}

/// The event that a flow is over.
pub open spec fn closed_event(timestamp: Timestamp, flow: FlowContextView) -> CaptureEventView {
    CaptureEventView::ConnectionClosed { timestamp, flow, origin: libpcap_origin() }
}

/// What the end of a flow means for the streams: what waits is delivered before it is reported.
pub open spec fn closure_delivered(
    streams: StreamTrackerView,
    timestamp: Timestamp,
    closure: FlowClosureView,
) -> Delivered {
    let flow = streams.flow_closed(timestamp, closure);
    Delivered {
        state: flow.state,
        events: flow.events.push(closed_event(timestamp, closure.flow)),
    }
}

/// What the ends of flows mean for the streams, in order.
pub open spec fn closures_delivered(
    streams: StreamTrackerView,
    timestamp: Timestamp,
    closures: Seq<FlowClosureView>,
) -> Delivered
    decreases closures.len(),
{
    if closures.len() == 0 {
        Delivered { state: streams, events: Seq::empty() }
    } else {
        let first = closure_delivered(streams, timestamp, closures[0]);
        closures_delivered(first.state, timestamp, closures.drop_first()).preceded_by(first.events)
    }
}

/// What the end of a flow, or of one of its directions, means for the streams.
pub open spec fn end_delivered(
    streams: StreamTrackerView,
    timestamp: Timestamp,
    end: Option<FlowEndView>,
) -> Delivered {
    match end {
        None => Delivered { state: streams, events: Seq::empty() },
        Some(FlowEndView::Close(closure)) => closure_delivered(streams, timestamp, closure),
        Some(FlowEndView::Finalize(finalization)) => streams.finalized(
            timestamp,
            finalization.flow,
            finalization.close_sequence,
        ),
    }
}

/// The events of a segment with payload: flows that ended before it, its octets, and what it ends.
pub open spec fn payload_delivered(
    streams: StreamTrackerView,
    timestamp: Timestamp,
    segment: TcpSegmentView,
    observation: FlowPayloadObservationView,
) -> Delivered {
    let ended = closures_delivered(streams, timestamp, observation.before_payload_closures);
    let payload = ended.state.ingested(
        timestamp,
        segment.first_sequence(),
        segment.payload,
        observation.payload,
        degradation_text(observation.payload.attribution_failure),
    );
    let after = end_delivered(payload.state, timestamp, observation.after_payload);
    after.preceded_by(payload.events).preceded_by(ended.events)
}

/// The events of a segment without payload: flows that ended before it, and what it ends.
pub open spec fn lifecycle_delivered(
    streams: StreamTrackerView,
    timestamp: Timestamp,
    observation: FlowLifecycleObservationView,
) -> Delivered {
    let ended = closures_delivered(streams, timestamp, observation.before_lifecycle_closures);
    end_delivered(ended.state, timestamp, observation.after_lifecycle).preceded_by(ended.events)
}

fn connection_closed_event(timestamp: Timestamp, flow: FlowContext) -> (event: CaptureEvent)
    ensures
        event@ == closed_event(timestamp, flow@),
{
    CaptureEvent::ConnectionClosed {
        timestamp,
        flow,
        origin: CaptureOrigin::from_source(CaptureSource::Libpcap),
    }
}

fn closure_events(streams: &mut StreamTracker, timestamp: Timestamp, closure: &FlowClosure) -> (
events: Vec<CaptureEvent>)
    ensures
        (Delivered { state: final(streams)@, events: event_views(events@) }) == closure_delivered(
            old(streams)@,
            timestamp,
            closure@,
        ),
{
    let mut events = streams.close_flow(timestamp, closure);
    events.push(connection_closed_event(timestamp, closure.flow.clone()));
    events
}

fn closures_events(
    streams: &mut StreamTracker,
    timestamp: Timestamp,
    closures: &Vec<FlowClosure>,
) -> (events: Vec<CaptureEvent>)
    ensures
        (Delivered { state: final(streams)@, events: event_views(events@) })
            == closures_delivered(old(streams)@, timestamp, closure_views(closures@)),
{
    let ghost all = closure_views(closures@);
    let ghost goal = closures_delivered(streams@, timestamp, all);
    let mut events: Vec<CaptureEvent> = Vec::new();
    let mut index: usize = 0;
    assert(all.skip(0) =~= all);
    assert(event_views(events@) =~= Seq::<CaptureEventView>::empty());
    assert(goal.preceded_by(event_views(events@)) =~= goal);
    while index < closures.len()
        invariant
            index <= closures.len(),
            all == closure_views(closures@),
            closures_delivered(streams@, timestamp, all.skip(index as int)).preceded_by(
                event_views(events@),
            ) == goal,
        decreases closures.len() - index,
    {
        let ghost delivered = event_views(events@);
        proof {
            assert(all.skip(index as int)[0] == closures@[index as int]@);
            assert(all.skip(index as int).drop_first() =~= all.skip(index + 1));
        }
        let mut more = closure_events(streams, timestamp, &closures[index]);
        let ghost fresh = event_views(more@);
        events.append(&mut more);
        proof {
            let rest = closures_delivered(streams@, timestamp, all.skip(index + 1));
            assert(rest.preceded_by(fresh).preceded_by(delivered) =~= rest.preceded_by(
                delivered + fresh,
            ));
        }
        index = index + 1;
    }
    proof {
        assert(all.skip(index as int).len() == 0);
        assert(event_views(events@) =~= goal.events);
    }
    events
}

fn flow_end_events(streams: &mut StreamTracker, timestamp: Timestamp, end: &Option<FlowEnd>) -> (
events: Vec<CaptureEvent>)
    ensures
        (Delivered { state: final(streams)@, events: event_views(events@) }) == end_delivered(
            old(streams)@,
            timestamp,
            flow_end_view(*end),
        ),
{
    match end {
        None => {
            let events: Vec<CaptureEvent> = Vec::new();
            assert(event_views(events@) =~= Seq::<CaptureEventView>::empty());
            events
        },
        Some(FlowEnd::Close(closure)) => closure_events(streams, timestamp, closure),
        Some(FlowEnd::Finalize(finalization)) => streams.finalize_direction(
            timestamp,
            finalization,
        ),
    }
}

/// The events of a segment with payload.
pub fn event_sequence_from_payload_observation(
    streams: &mut StreamTracker,
    timestamp: Timestamp,
    decoded: &DecodedTcpSegment<'_>,
    observation: FlowPayloadObservation,
) -> (events: Vec<CaptureEvent>)
    ensures
        (Delivered { state: final(streams)@, events: event_views(events@) }) == payload_delivered(
            old(streams)@,
            timestamp,
            decoded@,
            observation@,
        ),
{
    let mut events = closures_events(streams, timestamp, &observation.before_payload_closures);
    let ghost ended = event_views(events@);
    let reason = match &observation.payload.attribution_failure {
        Some(failure) => degradation_reason(Some(failure.as_str())),
        None => degradation_reason(None),
    };
    let mut payload_events = streams.ingest_segment(
        timestamp,
        decoded,
        &observation.payload,
        reason,
    );
    let ghost payload = event_views(payload_events@);
    events.append(&mut payload_events);
    let mut end_events = flow_end_events(streams, timestamp, &observation.after_payload);
    let ghost end = event_views(end_events@);
    events.append(&mut end_events);
    assert(event_views(events@) =~= ended + (payload + end));
    events
}

/// The events of a segment without payload.
pub fn event_sequence_from_lifecycle_observation(
    streams: &mut StreamTracker,
    timestamp: Timestamp,
    observation: FlowLifecycleObservation,
) -> (events: Vec<CaptureEvent>)
    ensures
        (Delivered { state: final(streams)@, events: event_views(events@) })
            == lifecycle_delivered(old(streams)@, timestamp, observation@),
{
    let mut events = closures_events(streams, timestamp, &observation.before_lifecycle_closures);
    let mut end_events = flow_end_events(streams, timestamp, &observation.after_lifecycle);
    events.append(&mut end_events);
    events
}

/// `value`, held inside the range of a machine integer.
pub open spec fn held_i64(value: int) -> i64 {
    if value > i64::MAX {
        i64::MAX
    } else if value < i64::MIN {
        i64::MIN
    } else {
        value as i64
    }
}

fn hold_i64(value: i128) -> (result: i64)
    ensures
        result == held_i64(value as int),
{
    if value > i64::MAX as i128 {
        i64::MAX
    } else if value < i64::MIN as i128 {
        i64::MIN
    } else {
        value as i64
    }
}

/// The wall time of a packet in nanoseconds.
pub open spec fn packet_wall_time(seconds: i64, microseconds: i64) -> i64 {
    held_i64(held_i64(seconds * 1_000_000_000) + held_i64(microseconds * 1_000))
}

/// `sequence + 1`, held at the largest number.
pub open spec fn next_sequence_number(sequence: u64) -> u64 {
    if sequence == u64::MAX {
        sequence
    } else {
        (sequence + 1) as u64
    }
}

/// Everything that is kept between packets.
#[verifier::ext_equal]
pub struct LibpcapStateView {
    pub flows: Flows,
    pub streams: StreamTrackerView,
    pub pending_events: Seq<CaptureEventView>,
    pub pending_flush: PendingStreamFlush,
    pub packet_sequence: u64,
}

/// A state and what a poll on the way to it brought.
#[verifier::ext_equal]
pub struct Polled {
    pub state: LibpcapStateView,
    pub poll: CapturePollView,
}

impl LibpcapStateView {
    /// The state with the deadline for waiting payload brought up to date.
    pub open spec fn deadline_refreshed(self, now_ns: u64) -> LibpcapStateView {
        LibpcapStateView {
            pending_flush: self.pending_flush.observed(
                self.streams.pending.totals.some_pending(),
                now_ns,
            ),
            ..self
        }
    }

    /// The state without its first event, and that event; progress where there is none.
    pub open spec fn first_event(self) -> Polled {
        if self.pending_events.len() > 0 {
            Polled {
                state: LibpcapStateView {
                    pending_events: self.pending_events.drop_first(),
                    ..self
                },
                poll: CapturePollView::Event(self.pending_events[0]),
            }
        } else {
            Polled { state: self, poll: CapturePollView::Progress }
        }
    }

    /// The state once `delivered` came of the streams.
    pub open spec fn with_delivered(self, delivered: Delivered) -> LibpcapStateView {
        LibpcapStateView {
            streams: delivered.state,
            pending_events: self.pending_events + delivered.events,
            ..self
        }
    }

    /// Whether waiting payload is to be delivered now.
    pub open spec fn flush_is_due(self, now_ns: u64) -> bool {
        self.deadline_refreshed(now_ns).pending_flush.is_due(now_ns)
    }

    /// The state once waiting payload was delivered because it waited for too long.
    pub open spec fn timed_out(self, now_ns: u64, wall_time_unix_ns: i64) -> Polled {
        let sequence = next_sequence_number(self.packet_sequence);
        let timestamp = Timestamp { monotonic_ns: sequence, wall_time_unix_ns };
        let after = LibpcapStateView { packet_sequence: sequence, ..self }.with_delivered(
            self.streams.flushed_all(timestamp, REORDER_TIMEOUT_GAP_REASON@),
        );
        LibpcapStateView {
            pending_flush: PendingStreamFlush {
                deadline_ns: None,
                ..self.pending_flush
            }.observed(after.streams.pending.totals.some_pending(), now_ns),
            ..after
        }.first_event()
    }

    /// The state once a packet was looked at in which `segment` was found, where a resolver gave
    /// `replies` to what it was asked.
    pub open spec fn packet_taken(
        self,
        segment: Option<TcpSegmentView>,
        seconds: i64,
        microseconds: i64,
        now_ns: u64,
        replies: Seq<ResolverReplyView>,
    ) -> Polled {
        match segment {
            None => Polled {
                state: self.deadline_refreshed(now_ns),
                poll: CapturePollView::Progress,
            },
            Some(found) => {
                let sequence = next_sequence_number(self.packet_sequence);
                let timestamp = Timestamp {
                    monotonic_ns: sequence,
                    wall_time_unix_ns: packet_wall_time(seconds, microseconds),
                };
                let counted = LibpcapStateView { packet_sequence: sequence, ..self };
                let selected = selected_for(found, replies);
                if found.payload.len() > 0 {
                    let seen = payload_seen(self.flows, found, timestamp, selected);
                    LibpcapStateView { flows: seen.flows, ..counted }.payload_observed(
                        timestamp,
                        found,
                        seen.observation,
                        now_ns,
                    )
                } else if found.signals_lifecycle() {
                    let seen = lifecycle_seen(self.flows, found, timestamp, selected);
                    LibpcapStateView { flows: seen.flows, ..counted }.lifecycle_observed(
                        timestamp,
                        seen.observation,
                        now_ns,
                    )
                } else {
                    Polled {
                        state: counted.deadline_refreshed(now_ns),
                        poll: CapturePollView::Progress,
                    }
                }
            },
        }
    }

    /// What is exchanged with a resolver about a packet in which `segment` was found.
    pub open spec fn packet_exchanged(
        self,
        has_resolver: bool,
        segment: Option<TcpSegmentView>,
        seconds: i64,
        microseconds: i64,
        replies: Seq<ResolverReplyView>,
    ) -> Seq<ProcessExchange> {
        match segment {
            None => Seq::empty(),
            Some(found) => {
                let timestamp = Timestamp {
                    monotonic_ns: next_sequence_number(self.packet_sequence),
                    wall_time_unix_ns: packet_wall_time(seconds, microseconds),
                };
                if found.payload.len() > 0 {
                    payload_exchanged(has_resolver, self.flows, found, timestamp, replies)
                } else if found.signals_lifecycle() {
                    lifecycle_exchanged(has_resolver, self.flows, found, timestamp, replies)
                } else {
                    Seq::empty()
                }
            },
        }
    }

    /// The state once the events of a segment with payload were queued, and the first one taken.
    pub open spec fn payload_observed(
        self,
        timestamp: Timestamp,
        segment: TcpSegmentView,
        observation: FlowPayloadObservationView,
        now_ns: u64,
    ) -> Polled {
        let polled = self.with_delivered(
            payload_delivered(self.streams, timestamp, segment, observation),
        ).first_event();
        Polled { state: polled.state.deadline_refreshed(now_ns), ..polled }
    }

    /// The state once the events of a segment without payload were queued, and the first one
    /// taken.
    pub open spec fn lifecycle_observed(
        self,
        timestamp: Timestamp,
        observation: FlowLifecycleObservationView,
        now_ns: u64,
    ) -> Polled {
        let polled = self.with_delivered(
            lifecycle_delivered(self.streams, timestamp, observation),
        ).first_event();
        Polled { state: polled.state.deadline_refreshed(now_ns), ..polled }
    }
}

/// Everything that is kept between packets.
pub struct LibpcapState {
    pub flows: FlowTracker,
    pub streams: StreamTracker,
    pub pending_events: VecDeque<CaptureEvent>,
    pub pending_flush: PendingStreamFlush,
    pub packet_sequence: u64,
}

impl View for LibpcapState {
    type V = LibpcapStateView;

    open spec fn view(&self) -> LibpcapStateView {
        LibpcapStateView {
            flows: self.flows@,
            streams: self.streams@,
            pending_events: event_views(self.pending_events@),
            pending_flush: self.pending_flush,
            packet_sequence: self.packet_sequence,
        }
    }
}

impl LibpcapState {
    /// The state before the first packet.
    pub fn new(read_timeout_ms: i32) -> (state: LibpcapState)
        ensures
            state@.flows == Flows::empty(),
            state@.streams == StreamTrackerView::empty(),
            state@.pending_events == Seq::<CaptureEventView>::empty(),
            state@.pending_flush.deadline_ns is None,
            state@.pending_flush.interval_ns == if read_timeout_ms < 0 {
                0
            } else {
                read_timeout_ms * 1_000_000
            },
            state@.packet_sequence == 0,
    {
        let state = LibpcapState {
            flows: FlowTracker::default(),
            streams: StreamTracker::default(),
            pending_events: VecDeque::new(),
            pending_flush: PendingStreamFlush::from_read_timeout_ms(read_timeout_ms),
            packet_sequence: 0,
        };
        assert(event_views(state.pending_events@) =~= Seq::<CaptureEventView>::empty());
        state
    }

    /// What can be reported without looking for a packet: a queued event, or payload that waited
    /// for too long. `wall_time_unix_ns` is the time that the latter is stamped with.
    pub fn poll_ready(&mut self, now_ns: u64, wall_time_unix_ns: i64) -> (poll: Option<CapturePoll>)
        ensures
            old(self)@.pending_events.len() > 0 ==> poll is Some && (Polled {
                state: final(self)@,
                poll: poll->0@,
            }) == old(self)@.first_event(),
            old(self)@.pending_events.len() == 0 && old(self)@.flush_is_due(now_ns) ==> poll is Some
                && (Polled { state: final(self)@, poll: poll->0@ }) == old(
                self,
            )@.deadline_refreshed(now_ns).timed_out(now_ns, wall_time_unix_ns),
            old(self)@.pending_events.len() == 0 && !old(self)@.flush_is_due(now_ns) ==> poll
                is None && final(self)@ == old(self)@.deadline_refreshed(now_ns),
    {
        if self.pending_events.len() > 0 {
            return Some(self.pop_event());
        }
        self.flush_pending_if_due(now_ns, wall_time_unix_ns)
    }

    /// What is reported when no packet came in time.
    pub fn poll_timeout(&mut self, now_ns: u64, wall_time_unix_ns: i64) -> (poll: CapturePoll)
        ensures
            old(self)@.flush_is_due(now_ns) ==> (Polled { state: final(self)@, poll: poll@ })
                == old(self)@.deadline_refreshed(now_ns).timed_out(now_ns, wall_time_unix_ns),
            !old(self)@.flush_is_due(now_ns) ==> poll@ == CapturePollView::Idle && final(self)@
                == old(self)@.deadline_refreshed(now_ns),
    {
        match self.flush_pending_if_due(now_ns, wall_time_unix_ns) {
            Some(poll) => poll,
            None => CapturePoll::Idle,
        }
    }

    /// What a packet leads to.
    pub fn poll_packet(
        &mut self,
        link: LinkLayer,
        seconds: i64,
        microseconds: i64,
        data: &[u8],
        now_ns: u64,
        process_resolver: &mut ProcessLedger,
    ) -> (poll: CapturePoll)
        ensures
            final(process_resolver).has_resolver() == old(process_resolver).has_resolver(),
            exists|native_family: u32, replies: Seq<ResolverReplyView>|
                #![trigger reads_as(data@, native_family), complete_replies(old(process_resolver).has_resolver(), replies)]
                reads_as(data@, native_family) && complete_replies(
                    old(process_resolver).has_resolver(),
                    replies,
                ) && (Polled { state: final(self)@, poll: poll@ }) == old(self)@.packet_taken(
                    segment_of(link, data@, native_family),
                    seconds,
                    microseconds,
                    now_ns,
                    replies,
                ) && final(process_resolver).record() == old(process_resolver).record() + old(
                    self,
                )@.packet_exchanged(
                    old(process_resolver).has_resolver(),
                    segment_of(link, data@, native_family),
                    seconds,
                    microseconds,
                    replies,
                ),
    {
        let ghost before = process_resolver.record();
        let ghost has_resolver = process_resolver.has_resolver();
        let ghost silent = silent_replies(has_resolver);
        assert(complete_replies(has_resolver, silent));
        assert(before + Seq::<ProcessExchange>::empty() =~= before);
        let decoded = DecodedTcpSegment::decode(link, data);
        let ghost family = choose|native_family: u32| #[trigger]
            reads_as(data@, native_family) && segment_view(decoded) == segment_of(
                link,
                data@,
                native_family,
            );
        match decoded {
            None => {
                self.refresh_pending_flush_deadline(now_ns);
                CapturePoll::Progress
            },
            Some(segment) => {
                let timestamp = self.next_timestamp(seconds, microseconds);
                if segment.payload.len() > 0 {
                    let observation = self.flows.observe(&segment, timestamp, process_resolver);
                    self.accept_payload(timestamp, &segment, observation, now_ns)
                } else if segment.has_lifecycle_signal() {
                    let observation = self.flows.observe_lifecycle(
                        &segment,
                        timestamp,
                        process_resolver,
                    );
                    self.accept_lifecycle(timestamp, observation, now_ns)
                } else {
                    self.refresh_pending_flush_deadline(now_ns);
                    CapturePoll::Progress
                }
            },
        }
    }

    /// Queues the events of a segment with payload and takes the first one.
    pub fn accept_payload(
        &mut self,
        timestamp: Timestamp,
        decoded: &DecodedTcpSegment<'_>,
        observation: FlowPayloadObservation,
        now_ns: u64,
    ) -> (poll: CapturePoll)
        ensures
            (Polled { state: final(self)@, poll: poll@ }) == old(self)@.payload_observed(
                timestamp,
                decoded@,
                observation@,
                now_ns,
            ),
    {
        let events = event_sequence_from_payload_observation(
            &mut self.streams,
            timestamp,
            decoded,
            observation,
        );
        self.queue_events(events);
        let poll = self.pop_event();
        self.refresh_pending_flush_deadline(now_ns);
        poll
    }

    /// Queues the events of a segment without payload and takes the first one.
    pub fn accept_lifecycle(
        &mut self,
        timestamp: Timestamp,
        observation: FlowLifecycleObservation,
        now_ns: u64,
    ) -> (poll: CapturePoll)
        ensures
            (Polled { state: final(self)@, poll: poll@ }) == old(self)@.lifecycle_observed(
                timestamp,
                observation@,
                now_ns,
            ),
    {
        let events = event_sequence_from_lifecycle_observation(
            &mut self.streams,
            timestamp,
            observation,
        );
        self.queue_events(events);
        let poll = self.pop_event();
        self.refresh_pending_flush_deadline(now_ns);
        poll
    }

    fn pop_event(&mut self) -> (poll: CapturePoll)
        ensures
            (Polled { state: final(self)@, poll: poll@ }) == old(self)@.first_event(),
    {
        let ghost queued = self.pending_events@;
        match self.pending_events.pop_front() {
            Some(event) => {
                assert(event_views(queued)[0] == event@);
                assert(event_views(self.pending_events@) =~= event_views(queued).drop_first());
                CapturePoll::event(event)
            },
            None => CapturePoll::Progress,
        }
    }

    fn queue_events(&mut self, events: Vec<CaptureEvent>)
        ensures
            final(self)@ == (LibpcapStateView {
                pending_events: old(self)@.pending_events + event_views(events@),
                ..old(self)@
            }),
            final(self).flows == old(self).flows,
            final(self).streams == old(self).streams,
    {
        extend_queue(&mut self.pending_events, events);
    }

    fn flush_pending_if_due(&mut self, now_ns: u64, wall_time_unix_ns: i64) -> (poll: Option<
        CapturePoll,
    >)
        ensures
            old(self)@.flush_is_due(now_ns) ==> poll is Some && (Polled {
                state: final(self)@,
                poll: poll->0@,
            }) == old(self)@.deadline_refreshed(now_ns).timed_out(now_ns, wall_time_unix_ns),
            !old(self)@.flush_is_due(now_ns) ==> poll is None && final(self)@ == old(
                self,
            )@.deadline_refreshed(now_ns),
    {
        if !self.pending_flush.should_flush(self.streams.has_pending(), now_ns) {
            return None;
        }
        self.packet_sequence = self.packet_sequence.saturating_add(1);
        let timestamp = Timestamp { monotonic_ns: self.packet_sequence, wall_time_unix_ns };
        let events = self.streams.flush_pending(timestamp);
        self.queue_events(events);
        self.pending_flush.after_flush(self.streams.has_pending(), now_ns);
        Some(self.pop_event())
    }

    fn refresh_pending_flush_deadline(&mut self, now_ns: u64)
        ensures
            final(self)@ == old(self)@.deadline_refreshed(now_ns),
    {
        self.pending_flush.observe(self.streams.has_pending(), now_ns);
    }

    fn next_timestamp(&mut self, seconds: i64, microseconds: i64) -> (timestamp: Timestamp)
        ensures
            final(self)@ == (LibpcapStateView {
                packet_sequence: next_sequence_number(old(self)@.packet_sequence),
                ..old(self)@
            }),
            timestamp == (Timestamp {
                monotonic_ns: next_sequence_number(old(self)@.packet_sequence),
                wall_time_unix_ns: packet_wall_time(seconds, microseconds),
            }),
    {
        self.packet_sequence = self.packet_sequence.saturating_add(1);
        let whole: i64 = hold_i64(seconds as i128 * 1_000_000_000);
        let fraction: i64 = hold_i64(microseconds as i128 * 1_000);
        Timestamp {
            monotonic_ns: self.packet_sequence,
            wall_time_unix_ns: hold_i64(whole as i128 + fraction as i128),
        }
    }
}

/// The capabilities of capture with libpcap.
pub fn libpcap_capabilities() -> (capabilities: Vec<CapabilityState>)
    ensures
        crate::provider::capability_views(capabilities@) == seq![
            CapabilityStateView {
                kind: CapabilityKind::Libpcap,
                status: CapabilityStatusView::Available,
            },
        ],
{
    let mut capabilities: Vec<CapabilityState> = Vec::new();
    capabilities.push(CapabilityState::available(CapabilityKind::Libpcap));
    assert(crate::provider::capability_views(capabilities@) =~= seq![
        CapabilityStateView {
            kind: CapabilityKind::Libpcap,
            status: CapabilityStatusView::Available,
        },
    ]);
    capabilities
}

} // verus!
