//! The provider's state and its steps.
use std::collections::VecDeque;
use vstd::prelude::*;
use vstd::string::StringExecFns;

use crate::event::{
    event_views, extend_queue, lemma_event_views_concat, lemma_event_views_push, CaptureEvent,
    CaptureEventView,
};
use crate::model::{FlowContext, Timestamp};
use crate::output_loss::OutputLossTracker;
use crate::provider::{CaptureError, CapturePoll, CapturePollView};
use crate::selector::{CompiledSelector, CompiledSelectorView};

use super::boundary::tracked_flow_displacement_gap_events;
use super::bridge::EbpfSocketFlowResolver;
use super::clock::EbpfObservationClock;
use super::descriptor_lease::{DescriptorLease, DescriptorLeaseKey};
use super::flow_start::{PendingEbpfFlowResolution, PendingEbpfFlowStart};
use super::observation_source::EbpfObservationSource;
use super::ledger::{
    answer_view, group_talk, Answer, ObservationLedger, ResolverLedger, SourceExchange, Talk,
};
use super::observing::{
    quiet, AttemptReplies, Attempted, ObservationStateView, PollAnswer, SteppedTo, WhoReplies,
    MAX_PENDING_EBPF_FLOW_RESOLUTIONS, MAX_TRACKED_EBPF_FLOWS,
};
use super::payload_authorization::{selector_view, SocketPayloadSampleAuthorization};
use super::payload_direction::PayloadDirections;
use super::resolution::{asked_number, told_process, FallbackReplies, ProcessReply};
use super::tracked_flow::TrackedEbpfFlows;

verus! {

broadcast use {lemma_event_views_push, lemma_event_views_concat, group_talk};

pub const DEFAULT_RESOLUTION_RETRIES: u32 = 20;

pub const DEFAULT_RESOLUTION_RETRY_SLEEP_NS: u64 = 5_000_000;

/// The provider's state: what is tracked, what waits, and how to go on.
#[derive(Debug)]
pub struct EbpfObservationState {
    pub clock: EbpfObservationClock,
    pub resolution_retries: u32,
    pub resolution_retry_sleep_ns: u64,
    pub stop_when_idle: bool,
    pub deep_observe_selector: Option<CompiledSelector>,
    pub process_payload_selector: Option<CompiledSelector>,
    pub tracked_flows: TrackedEbpfFlows,
    pub pending_flows: VecDeque<PendingEbpfFlowResolution>,
    pub pending_events: VecDeque<CaptureEvent>,
    pub handoff_boundary_emitted: bool,
    pub output_loss: OutputLossTracker,
}

impl View for EbpfObservationState {
    type V = ObservationStateView;

    open spec fn view(&self) -> ObservationStateView {
        ObservationStateView {
            sequence: self.clock.monotonic_sequence,
            retries: self.resolution_retries,
            retry_sleep_ns: self.resolution_retry_sleep_ns,
            stop_when_idle: self.stop_when_idle,
            selector: selector_view(self.deep_observe_selector),
            process_selector: selector_view(self.process_payload_selector),
            flows: self.tracked_flows@,
            capacity: self.tracked_flows.capacity(),
            pending_flows: self.pending_flows@,
            pending_events: event_views(self.pending_events@),
            handoff_emitted: self.handoff_boundary_emitted,
            loss: self.output_loss,
        }
    }
}

/// The view of what a poll brought.
pub open spec fn poll_view(poll: Result<CapturePoll, CaptureError>) -> PollAnswer {
    match poll {
        Ok(brought) => Ok(brought@),
        Err(error) => Err(error@),
    }
}

/// The view of an event that may be missing.
pub open spec fn brought_event(event: Option<CaptureEvent>) -> Option<CaptureEventView> {
    match event {
        Some(inner) => Some(inner@),
        None => None,
    }
}

/// What a poll brings once the flow of an event is tracked.
pub open spec fn after_tracking(
    answer: Result<(), CaptureError>,
    event: CaptureEventView,
) -> PollAnswer {
    match answer {
        Ok(_) => Ok(CapturePollView::Event(event)),
        Err(error) => Err(error@),
    }
}

/// Replies where nothing was asked about a process.
pub open spec fn no_fallback() -> FallbackReplies {
    FallbackReplies { listen: Ok(None), direct: Ok(None), hinted: Ok(Seq::empty()) }
}

/// Replies where nobody was asked about a process.
pub open spec fn nobody_asked() -> WhoReplies {
    WhoReplies { direct: Ok(None), hinted: Ok(Seq::empty()) }
}

/// Replies where nothing was asked.
pub open spec fn no_replies() -> AttemptReplies {
    AttemptReplies {
        flow: Ok(None),
        fallback: no_fallback(),
        gap: Ok(None),
        allowed: Ok(()),
        revoked: Ok(()),
    }
}

/// What was exchanged with a source alone.
pub open spec fn source_talk(exchanges: Seq<SourceExchange>) -> Talk {
    Talk { source: exchanges, resolver: Seq::empty() }
}

/// What the kernel is told about a descriptor that is to be sampled no more.
pub open spec fn told_of(key: Option<DescriptorLeaseKey>, revoked: Answer) -> Seq<SourceExchange> {
    match key {
        Some(key) => seq![SourceExchange::RevokeSocket(key, revoked)],
        None => Seq::empty(),
    }
}

impl ObservationStateView {
    /// A state in which nothing was observed yet.
    pub open spec fn fresh(
        selector: Option<CompiledSelectorView>,
        process_selector: Option<CompiledSelectorView>,
    ) -> ObservationStateView {
        ObservationStateView {
            sequence: 0,
            retries: DEFAULT_RESOLUTION_RETRIES,
            retry_sleep_ns: DEFAULT_RESOLUTION_RETRY_SLEEP_NS,
            stop_when_idle: false,
            selector,
            process_selector,
            flows: Seq::empty(),
            capacity: MAX_TRACKED_EBPF_FLOWS,
            pending_flows: Seq::empty(),
            pending_events: Seq::empty(),
            handoff_emitted: false,
            loss: OutputLossTracker::fresh(crate::output_loss::DEFAULT_CHECK_INTERVAL),
        }
    }
}

impl EbpfObservationState {
    pub open spec fn well_formed(&self) -> bool {
        self.tracked_flows.well_formed()
    }

    pub fn new(
        deep_observe_selector: Option<CompiledSelector>,
        process_payload_selector: Option<CompiledSelector>,
    ) -> (state: EbpfObservationState)
        ensures
            state.well_formed(),
            state@ == ObservationStateView::fresh(
                selector_view(deep_observe_selector),
                selector_view(process_payload_selector),
            ),
    {
        let state = EbpfObservationState {
            clock: EbpfObservationClock::default(),
            resolution_retries: DEFAULT_RESOLUTION_RETRIES,
            resolution_retry_sleep_ns: DEFAULT_RESOLUTION_RETRY_SLEEP_NS,
            stop_when_idle: false,
            deep_observe_selector,
            process_payload_selector,
            tracked_flows: TrackedEbpfFlows::bounded(MAX_TRACKED_EBPF_FLOWS),
            pending_flows: VecDeque::new(),
            pending_events: VecDeque::new(),
            handoff_boundary_emitted: false,
            output_loss: OutputLossTracker::default(),
        };
        assert(state@.pending_events =~= Seq::empty());
        state
    }

    /// Takes the first waiting event.
    pub fn pop_event(&mut self) -> (event: Option<CaptureEvent>)
        requires
            old(self).well_formed(),
        ensures
            final(self).well_formed(),
            (SteppedTo { state: final(self)@, event: brought_event(event) }) == old(self)@.popped(),
    {
        let ghost queued = self.pending_events@;
        let event = self.pending_events.pop_front();
        proof {
            if queued.len() > 0 {
                assert(event_views(queued)[0] == event->0@);
                assert(event_views(self.pending_events@) =~= event_views(queued).drop_first());
            }
        }
        event
    }

    /// Puts events at the end of the queue and takes the first one.
    pub fn queue_events(&mut self, events: Vec<CaptureEvent>) -> (poll: CapturePoll)
        requires
            old(self).well_formed(),
        ensures
            final(self).well_formed(),
            quiet(final(self)@, Ok(poll@)) == old(self)@.queued(
                event_views(events@),
            ).delivered(),
    {
        extend_queue(&mut self.pending_events, events);
        match self.pop_event() {
            Some(event) => CapturePoll::event(event),
            None => CapturePoll::Progress,
        }
    }

    pub fn next_timestamp(&mut self, wall_time_unix_ns: i64) -> (timestamp: Timestamp)
        requires
            old(self).well_formed(),
        ensures
            final(self).well_formed(),
            final(self)@ == old(self)@.ticked(),
            timestamp == old(self)@.stamp(wall_time_unix_ns),
    {
        self.clock.next_timestamp(wall_time_unix_ns)
    }

    /// Tracks a flow. Returned is the descriptor that the kernel is to sample no more, if any,
    /// and the gaps of what the flow displaced.
    pub fn insert_flow_start(
        &mut self,
        lease: DescriptorLease,
        flow: &FlowContext,
        payload_directions: PayloadDirections,
        timestamp: Timestamp,
    ) -> (displaced: (Option<DescriptorLeaseKey>, Vec<CaptureEvent>))
        requires
            old(self).well_formed(),
        ensures
            final(self).well_formed(),
            final(self)@ == old(self)@.with_flow(lease.lease_key(), flow@, payload_directions),
            forall|revoked: Answer|
                #![trigger old(self)@.inserted(lease, flow@, payload_directions, timestamp, revoked)]
                old(self)@.inserted(lease, flow@, payload_directions, timestamp, revoked) == (
                if displaced.0 is Some && revoked is Err {
                    Attempted {
                        state: final(self)@,
                        answer: revoked,
                        told: told_of(displaced.0, revoked),
                    }
                } else {
                    Attempted {
                        state: final(self)@.queued(event_views(displaced.1@)),
                        answer: Ok(()),
                        told: told_of(displaced.0, revoked),
                    }
                }),
    {
        reveal(ObservationStateView::inserted);
        match self.tracked_flows.insert_flow(lease, flow.clone(), payload_directions) {
            Some(displacement) => {
                let key = displacement.key();
                let retained = self.tracked_flows.has_payload_allowance_for_allow_map_key(key);
                let revoked = if displacement.should_revoke_allow_map_key(retained) {
                    Some(key)
                } else {
                    None
                };
                (revoked, tracked_flow_displacement_gap_events(displacement, timestamp))
            },
            None => {
                let events: Vec<CaptureEvent> = Vec::new();
                assert(self@.pending_events + event_views(events@) =~= self@.pending_events);
                (None, events)
            },
        }
    }

    /// Tracks a flow, tells the kernel to sample what it displaced no more, and puts the gaps of
    /// that at the end of the queue.
    fn insert_and_revoke<O: EbpfObservationSource>(
        &mut self,
        observations: &mut ObservationLedger<O>,
        lease: DescriptorLease,
        flow: &FlowContext,
        payload_directions: PayloadDirections,
        timestamp: Timestamp,
    ) -> (answer: Result<(), CaptureError>)
        requires
            old(self).well_formed(),
        ensures
            final(self).well_formed(),
            exists|revoked: Answer|
                (#[trigger] old(self)@.inserted(
                    lease,
                    flow@,
                    payload_directions,
                    timestamp,
                    revoked,
                )).leads_to(
                    final(self)@,
                    answer_view(answer),
                    old(observations).record(),
                    final(observations).record(),
                ),
    {
        let ghost before = self@;
        let ghost earlier = observations.record();
        let (key, gaps) = self.insert_flow_start(lease, flow, payload_directions, timestamp);
        let reply: Result<(), CaptureError> = match key {
            Some(key) => observations.revoke_socket_payload_sample(key),
            None => Ok(()),
        };
        let ghost revoked = answer_view(reply);
        let ghost next = before.inserted(lease, flow@, payload_directions, timestamp, revoked);
        match reply {
            Err(error) => {
                assert(next.leads_to(self@, Err(error@), earlier, observations.record()));
                Err(error)
            },
            Ok(_) => {
                extend_queue(&mut self.pending_events, gaps);
                assert(next.leads_to(self@, Ok(()), earlier, observations.record()));
                Ok(())
            },
        }
    }

    /// Tracks the flow of a start, once the kernel was told to sample its socket.
    fn track_leased_flow<O: EbpfObservationSource>(
        &mut self,
        observations: &mut ObservationLedger<O>,
        lease: DescriptorLease,
        flow: &FlowContext,
        timestamp: Timestamp,
    ) -> (answer: Result<(), CaptureError>)
        requires
            old(self).well_formed(),
        ensures
            final(self).well_formed(),
            exists|allowed: Answer, revoked: Answer|
                (#[trigger] old(self)@.tracking(
                    Some(lease),
                    flow@,
                    timestamp,
                    allowed,
                    revoked,
                )).leads_to(
                    final(self)@,
                    answer_view(answer),
                    old(observations).record(),
                    final(observations).record(),
                ),
    {
        let ghost before = self@;
        let ghost earlier = observations.record();
        let authorization = SocketPayloadSampleAuthorization::from_selector(
            lease,
            flow,
            &self.deep_observe_selector,
        );
        let payload_directions = match authorization {
            Some(authorization) => authorization.payload_directions(),
            None => PayloadDirections::empty(),
        };
        let reply: Result<(), CaptureError> = match authorization {
            Some(authorization) => observations.allow_socket_payload_sample(authorization),
            None => Ok(()),
        };
        let ghost allowed = answer_view(reply);
        match reply {
            Err(error) => {
                let ghost revoked: Answer = Ok(());
                assert(before.tracking(Some(lease), flow@, timestamp, allowed, revoked).leads_to(
                    self@,
                    Err(error@),
                    earlier,
                    observations.record(),
                ));
                Err(error)
            },
            Ok(_) => {
                let ghost allowing = observations.record();
                let answer = self.insert_and_revoke(
                    observations,
                    lease,
                    flow,
                    payload_directions,
                    timestamp,
                );
                let ghost revoked = choose|revoked: Answer|
                    (#[trigger] before.inserted(
                        lease,
                        flow@,
                        payload_directions,
                        timestamp,
                        revoked,
                    )).leads_to(self@, answer_view(answer), allowing, observations.record());
                assert(before.tracking(Some(lease), flow@, timestamp, allowed, revoked).leads_to(
                    self@,
                    answer_view(answer),
                    earlier,
                    observations.record(),
                ));
                answer
            },
        }
    }

    /// Tracks the flow that an event tells the start of.
    pub fn track_flow_start_event<O: EbpfObservationSource>(
        &mut self,
        observations: &mut ObservationLedger<O>,
        flow_start: &PendingEbpfFlowStart,
        event: &CaptureEvent,
    ) -> (answer: Result<(), CaptureError>)
        requires
            old(self).well_formed(),
        ensures
            final(self).well_formed(),
            exists|replies: AttemptReplies|
                (#[trigger] old(self)@.started(*flow_start, event@, replies)).leads_to(
                    final(self)@,
                    after_tracking(answer, event@),
                    source_talk(old(observations).record()),
                    source_talk(final(observations).record()),
                ),
    {
        reveal(ObservationStateView::started);
        let ghost before = self@;
        let ghost earlier = observations.record();
        if let CaptureEvent::ConnectionOpened { timestamp, flow, .. } = event {
            if let Some(lease) = flow_start.descriptor_lease() {
                let answer = self.track_leased_flow(observations, lease, flow, *timestamp);
                let ghost (allowed, revoked) = choose|allowed: Answer, revoked: Answer|
                    (#[trigger] before.tracking(
                        Some(lease),
                        flow@,
                        *timestamp,
                        allowed,
                        revoked,
                    )).leads_to(self@, answer_view(answer), earlier, observations.record());
                let ghost replies = AttemptReplies { allowed, revoked, ..no_replies() };
                assert(before.started(*flow_start, event@, replies).leads_to(
                    self@,
                    after_tracking(answer, event@),
                    source_talk(earlier),
                    source_talk(observations.record()),
                ));
                return answer;
            }
        }
        let answer: Result<(), CaptureError> = Ok(());
        assert(before.started(*flow_start, event@, no_replies()).leads_to(
            self@,
            after_tracking(answer, event@),
            source_talk(earlier),
            source_talk(observations.record()),
        ));
        answer
    }

    /// Lets a start of a flow wait, if not too many others wait. Whether it waits is returned.
    pub fn let_wait(&mut self, pending: PendingEbpfFlowResolution) -> (queued: bool)
        requires
            old(self).well_formed(),
        ensures
            final(self).well_formed(),
            queued == (old(self)@.pending_flows.len() < MAX_PENDING_EBPF_FLOW_RESOLUTIONS),
            final(self)@ == (if queued {
                ObservationStateView {
                    pending_flows: old(self)@.pending_flows.push(pending),
                    ..old(self)@
                }
            } else {
                old(self)@
            }),
    {
        if self.pending_flows.len() < MAX_PENDING_EBPF_FLOW_RESOLUTIONS {
            self.pending_flows.push_back(pending);
            true
        } else {
            false
        }
    }

    /// Lets a start of a flow wait, or gives it up where too many others wait.
    pub fn queue_pending_flow_resolution<R: EbpfSocketFlowResolver>(
        &mut self,
        resolver: &mut ResolverLedger<R>,
        pending: PendingEbpfFlowResolution,
    ) -> (poll: CapturePoll)
        requires
            old(self).well_formed(),
        ensures
            final(self).well_formed(),
            exists|replies: ProcessReply|
                (#[trigger] old(self)@.waiting(pending, replies)).leads_to(
                    final(self)@,
                    Ok(poll@),
                    Talk::with_resolver(old(resolver).record()),
                    Talk::with_resolver(final(resolver).record()),
                ),
    {
        let ghost before = self@;
        let ghost earlier = resolver.record();
        if self.let_wait(pending) {
            let poll = CapturePoll::Progress;
            assert(before.waiting(pending, Ok(None)).leads_to(
                self@,
                Ok(poll@),
                Talk::with_resolver(earlier),
                Talk::with_resolver(resolver.record()),
            ));
            return poll;
        }
        let mut reason = pending.flow_start.unresolved_reason(pending.attempts_completed);
        reason.append("; pending flow resolution queue is full");
        let ghost text = reason@;
        let event = pending.flow_start.unresolved_gap(pending.timestamp, reason, resolver);
        let ghost replies = choose|reply: ProcessReply|
            event@ == pending.flow_start.gap(
                pending.timestamp,
                text,
                #[trigger] told_process(reply),
            ) && resolver.record() == earlier + asked_number(pending.flow_start.process(), reply);
        let poll = CapturePoll::event(event);
        assert(before.waiting(pending, replies).leads_to(
            self@,
            Ok(poll@),
            Talk::with_resolver(earlier),
            Talk::with_resolver(resolver.record()),
        ));
        poll
    }
}

} // verus!
