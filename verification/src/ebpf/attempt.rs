//! Looking for the connections behind observed starts of flows.
use vstd::prelude::*;

use crate::event::{CaptureEvent, CaptureEventView};
use crate::provider::{CaptureError, CaptureErrorView, CapturePoll, CapturePollView};

use super::bridge::EbpfSocketFlowResolver;
use super::flow_start::{PendingEbpfFlowResolution, PendingEbpfFlowStart};
use super::observation_source::EbpfObservationSource;
use super::ledger::{
    group_talk, records, ObservationLedger, ResolverExchange, ResolverLedger, Talk,
};
use super::observing::{
    quiet, waiting_in_front, AttemptReplies, ObservationStateView,
};
use super::resolution::{
    asked_flow, asked_number, event_result, opened_by_reply, told_process, FallbackReplies,
    FlowReply, ProcessReply,
};
use super::state::{after_tracking, no_replies, poll_view, source_talk, EbpfObservationState};

verus! {

broadcast use group_talk;

/// Whether a start of a flow that is not due yet is looked at all the same.
#[derive(Debug, Clone, Copy, PartialEq, Eq, Structural)]
pub enum PendingFlowRetryDelay {
    Respect,
    Ignore,
}

impl PendingFlowRetryDelay {
    pub open spec fn respects(self) -> bool {
        self == PendingFlowRetryDelay::Respect
    }
}

/// How to go on once the connection behind the start of a flow was looked for.
#[derive(Debug, PartialEq, Eq)]
pub enum AttemptDecision {
    Fail(CaptureError),
    Start(CaptureEvent),
    Wait(PendingEbpfFlowResolution),
    FallBack,
}

#[verifier::ext_equal]
pub enum AttemptDecisionView {
    Fail(CaptureErrorView),
    Start(CaptureEventView),
    Wait(PendingEbpfFlowResolution),
    FallBack,
}

impl View for AttemptDecision {
    type V = AttemptDecisionView;

    open spec fn view(&self) -> AttemptDecisionView {
        match *self {
            AttemptDecision::Fail(error) => AttemptDecisionView::Fail(error@),
            AttemptDecision::Start(event) => AttemptDecisionView::Start(event@),
            AttemptDecision::Wait(pending) => AttemptDecisionView::Wait(pending),
            AttemptDecision::FallBack => AttemptDecisionView::FallBack,
        }
    }
}

/// How to go on: a connection that was found starts a flow, and one that was not is looked for
/// again as long as retries are left.
pub open spec fn decision_after(
    state: ObservationStateView,
    pending: PendingEbpfFlowResolution,
    opened: Result<Option<CaptureEventView>, CaptureErrorView>,
    now_ns: u64,
) -> AttemptDecisionView {
    match opened {
        Err(error) => AttemptDecisionView::Fail(error),
        Ok(Some(event)) => AttemptDecisionView::Start(event),
        Ok(None) => if pending.attempts_completed < state.retries {
            AttemptDecisionView::Wait(pending.put_off(now_ns, state.retry_sleep_ns))
        } else {
            AttemptDecisionView::FallBack
        },
    }
}

impl EbpfObservationState {
    /// How to go on once the connection behind the start of a flow was looked for.
    pub fn decide_after_attempt(
        &self,
        pending: PendingEbpfFlowResolution,
        opened: Result<Option<CaptureEvent>, CaptureError>,
        now_ns: u64,
    ) -> (decision: AttemptDecision)
        ensures
            decision@ == decision_after(self@, pending, event_result(opened), now_ns),
    {
        match opened {
            Err(error) => AttemptDecision::Fail(error),
            Ok(Some(event)) => AttemptDecision::Start(event),
            Ok(None) => {
                if pending.attempts_completed < self.resolution_retries {
                    AttemptDecision::Wait(
                        pending.after_failed_attempt(now_ns, self.resolution_retry_sleep_ns),
                    )
                } else {
                    AttemptDecision::FallBack
                }
            },
        }
    }

    /// Brings the start of a flow, once the flow is tracked.
    fn bring_flow_start<O: EbpfObservationSource>(
        &mut self,
        observations: &mut ObservationLedger<O>,
        flow_start: &PendingEbpfFlowStart,
        event: CaptureEvent,
    ) -> (poll: Result<CapturePoll, CaptureError>)
        requires
            old(self).well_formed(),
        ensures
            final(self).well_formed(),
            exists|replies: AttemptReplies|
                (#[trigger] old(self)@.started(*flow_start, event@, replies)).leads_to(
                    final(self)@,
                    poll_view(poll),
                    source_talk(old(observations).record()),
                    source_talk(final(observations).record()),
                ),
    {
        let ghost before = self@;
        let ghost earlier = source_talk(observations.record());
        let answer = self.track_flow_start_event(observations, flow_start, &event);
        let ghost now = source_talk(observations.record());
        let ghost replies = choose|replies: AttemptReplies|
            (#[trigger] before.started(*flow_start, event@, replies)).leads_to(
                self@,
                after_tracking(answer, event@),
                earlier,
                now,
            );
        let ghost next = before.started(*flow_start, event@, replies);
        let poll = match answer {
            Ok(_) => Ok(CapturePoll::event(event)),
            Err(error) => Err(error),
        };
        assert(next.leads_to(self@, poll_view(poll), earlier, now));
        poll
    }

    /// Makes do with what was observed of a flow whose connection was not found.
    fn fall_back<O: EbpfObservationSource, R: EbpfSocketFlowResolver>(
        &mut self,
        observations: &mut ObservationLedger<O>,
        resolver: &mut ResolverLedger<R>,
        pending: PendingEbpfFlowResolution,
    ) -> (poll: Result<CapturePoll, CaptureError>)
        requires
            old(self).well_formed(),
        ensures
            final(self).well_formed(),
            exists|replies: AttemptReplies|
                (#[trigger] old(self)@.fallen_back(pending, replies)).leads_to(
                    final(self)@,
                    poll_view(poll),
                    records(*old(observations), *old(resolver)),
                    records(*final(observations), *final(resolver)),
                ),
    {
        reveal(ObservationStateView::started);
        reveal(ObservationStateView::fallen_back);
        let ghost before = self@;
        let ghost earlier = records(*observations, *resolver);
        let start = pending.flow_start;
        let observed = start.observed_opened_event(pending.timestamp, resolver);
        let ghost fallback = choose|replies: FallbackReplies|
            event_result(observed) == #[trigger] start.observed(pending.timestamp, replies)
                && resolver.record() == earlier.resolver + start.asked_observed(replies);
        match observed {
            Err(error) => {
                let poll: Result<CapturePoll, CaptureError> = Err(error);
                let ghost replies = AttemptReplies { fallback, ..no_replies() };
                assert(before.fallen_back(pending, replies).leads_to(
                    self@,
                    poll_view(poll),
                    earlier,
                    records(*observations, *resolver),
                ));
                poll
            },
            Ok(Some(event)) => {
                let ghost view = event@;
                let poll = self.bring_flow_start(observations, &start, event);
                let ghost chosen = choose|replies: AttemptReplies|
                    (#[trigger] before.started(start, view, replies)).leads_to(
                        self@,
                        poll_view(poll),
                        source_talk(earlier.source),
                        source_talk(observations.record()),
                    );
                let ghost replies = AttemptReplies { fallback, ..chosen };
                assert(before.started(start, view, chosen) == before.started(start, view, replies));
                assert(before.started(start, view, replies).talk.resolver =~= Seq::empty());
                assert(before.fallen_back(pending, replies).leads_to(
                    self@,
                    poll_view(poll),
                    earlier,
                    records(*observations, *resolver),
                ));
                poll
            },
            Ok(None) => {
                let ghost asked = resolver.record();
                let reason = start.unresolved_reason(self.resolution_retries.saturating_add(1));
                let ghost text = reason@;
                let event = start.unresolved_gap(pending.timestamp, reason, resolver);
                let ghost gap = choose|reply: ProcessReply|
                    event@ == start.gap(
                        pending.timestamp,
                        text,
                        #[trigger] told_process(reply),
                    ) && resolver.record() == asked + asked_number(start.process(), reply);
                let ghost replies = AttemptReplies { fallback, gap, ..no_replies() };
                let poll: Result<CapturePoll, CaptureError> = Ok(CapturePoll::event(event));
                assert(before.fallen_back(pending, replies).leads_to(
                    self@,
                    poll_view(poll),
                    earlier,
                    records(*observations, *resolver),
                ));
                poll
            },
        }
    }

    /// Lets a start of a flow wait.
    fn put_off<R: EbpfSocketFlowResolver>(
        &mut self,
        resolver: &mut ResolverLedger<R>,
        pending: PendingEbpfFlowResolution,
    ) -> (poll: Result<CapturePoll, CaptureError>)
        requires
            old(self).well_formed(),
        ensures
            final(self).well_formed(),
            exists|replies: ProcessReply|
                (#[trigger] old(self)@.waiting(pending, replies)).leads_to(
                    final(self)@,
                    poll_view(poll),
                    Talk::with_resolver(old(resolver).record()),
                    Talk::with_resolver(final(resolver).record()),
                ),
    {
        Ok(self.queue_pending_flow_resolution(resolver, pending))
    }

    /// Looks for the connection behind the start of a flow.
    pub fn poll_pending_flow_resolution_attempt_with_retry_delay<
        O: EbpfObservationSource,
        R: EbpfSocketFlowResolver,
    >(
        &mut self,
        observations: &mut ObservationLedger<O>,
        resolver: &mut ResolverLedger<R>,
        pending: PendingEbpfFlowResolution,
        retry_delay: PendingFlowRetryDelay,
        now_ns: u64,
    ) -> (poll: Result<CapturePoll, CaptureError>)
        requires
            old(self).well_formed(),
        ensures
            final(self).well_formed(),
            exists|replies: AttemptReplies|
                (#[trigger] old(self)@.attempted(
                    pending,
                    retry_delay.respects(),
                    now_ns,
                    replies,
                )).leads_to(
                    final(self)@,
                    poll_view(poll),
                    records(*old(observations), *old(resolver)),
                    records(*final(observations), *final(resolver)),
                ),
    {
        reveal(ObservationStateView::attempted);
        let ghost before = self@;
        let ghost earlier = records(*observations, *resolver);
        let ghost respect = retry_delay.respects();
        if matches!(retry_delay, PendingFlowRetryDelay::Respect) && pending.is_waiting(now_ns) {
            let poll = self.put_off(resolver, pending);
            let ghost gap = choose|replies: ProcessReply|
                (#[trigger] before.waiting(pending, replies)).leads_to(
                    self@,
                    poll_view(poll),
                    Talk::with_resolver(earlier.resolver),
                    Talk::with_resolver(resolver.record()),
                );
            let ghost replies = AttemptReplies { gap, ..no_replies() };
            proof {
                lemma_waiting_tells_nothing(before, pending, gap);
            }
            assert(before.attempted(pending, respect, now_ns, replies).leads_to(
                self@,
                poll_view(poll),
                earlier,
                records(*observations, *resolver),
            ));
            return poll;
        }
        let opened = pending.flow_start.opened_event(pending.timestamp, resolver);
        let ghost flow = choose|reply: FlowReply|
            event_result(opened) == #[trigger] opened_by_reply(reply, pending.timestamp)
                && resolver.record() == earlier.resolver + asked_flow(
                pending.flow_start.lookup(),
                reply,
            );
        let ghost asking = records(*observations, *resolver);
        match self.decide_after_attempt(pending, opened, now_ns) {
            AttemptDecision::Fail(error) => {
                let poll: Result<CapturePoll, CaptureError> = Err(error);
                let ghost replies = AttemptReplies { flow, ..no_replies() };
                assert(before.attempted(pending, respect, now_ns, replies).leads_to(
                    self@,
                    poll_view(poll),
                    earlier,
                    records(*observations, *resolver),
                ));
                poll
            },
            AttemptDecision::Start(event) => {
                let ghost view = event@;
                let poll = self.bring_flow_start(observations, &pending.flow_start, event);
                let ghost chosen = choose|replies: AttemptReplies|
                    (#[trigger] before.started(pending.flow_start, view, replies)).leads_to(
                        self@,
                        poll_view(poll),
                        source_talk(earlier.source),
                        source_talk(observations.record()),
                    );
                let ghost replies = AttemptReplies { flow, ..chosen };
                proof {
                    lemma_start_replies(before, pending.flow_start, view, chosen, replies);
                }
                assert(before.attempted(pending, respect, now_ns, replies).leads_to(
                    self@,
                    poll_view(poll),
                    earlier,
                    records(*observations, *resolver),
                ));
                poll
            },
            AttemptDecision::Wait(later) => {
                resolver.invalidate_cached_resolution();
                let ghost invalidated = resolver.record();
                let poll = self.put_off(resolver, later);
                let ghost gap = choose|replies: ProcessReply|
                    (#[trigger] before.waiting(later, replies)).leads_to(
                        self@,
                        poll_view(poll),
                        Talk::with_resolver(invalidated),
                        Talk::with_resolver(resolver.record()),
                    );
                let ghost replies = AttemptReplies { flow, gap, ..no_replies() };
                proof {
                    lemma_waiting_tells_nothing(before, later, gap);
                }
                assert(before.attempted(pending, respect, now_ns, replies).leads_to(
                    self@,
                    poll_view(poll),
                    earlier,
                    records(*observations, *resolver),
                ));
                poll
            },
            AttemptDecision::FallBack => {
                let poll = self.fall_back(observations, resolver, pending);
                let ghost chosen = choose|replies: AttemptReplies|
                    (#[trigger] before.fallen_back(pending, replies)).leads_to(
                        self@,
                        poll_view(poll),
                        asking,
                        records(*observations, *resolver),
                    );
                let ghost replies = AttemptReplies { flow, ..chosen };
                proof {
                    lemma_fallback_replies(before, pending, chosen, replies);
                }
                assert(before.attempted(pending, respect, now_ns, replies).leads_to(
                    self@,
                    poll_view(poll),
                    earlier,
                    records(*observations, *resolver),
                ));
                poll
            },
        }
    }

    /// Looks for the connection behind the first start of a flow that is due.
    pub fn poll_pending_flow_resolution<O: EbpfObservationSource, R: EbpfSocketFlowResolver>(
        &mut self,
        observations: &mut ObservationLedger<O>,
        resolver: &mut ResolverLedger<R>,
        now_ns: u64,
    ) -> (poll: Result<CapturePoll, CaptureError>)
        requires
            old(self).well_formed(),
        ensures
            final(self).well_formed(),
            exists|replies: AttemptReplies|
                (#[trigger] old(self)@.resumed(now_ns, replies)).leads_to(
                    final(self)@,
                    poll_view(poll),
                    records(*old(observations), *old(resolver)),
                    records(*final(observations), *final(resolver)),
                ),
    {
        reveal(ObservationStateView::resumed);
        let ghost before = self@;
        let ghost earlier = records(*observations, *resolver);
        let ghost queue = before.pending_flows;
        let pending_count: usize = self.pending_flows.len();
        let mut skipped: usize = 0;
        assert(queue.skip(0) + queue.take(0) =~= queue);
        while skipped < pending_count
            invariant
                skipped <= pending_count == queue.len(),
                self.well_formed(),
                queue == before.pending_flows,
                self@ == (ObservationStateView {
                    pending_flows: queue.skip(skipped as int) + queue.take(skipped as int),
                    ..before
                }),
                waiting_in_front(queue, now_ns) == skipped + waiting_in_front(
                    queue.skip(skipped as int),
                    now_ns,
                ),
                before == old(self)@,
                earlier == records(*old(observations), *old(resolver)),
                records(*observations, *resolver) == earlier,
            decreases pending_count - skipped,
        {
            let ghost rotated = self.pending_flows@;
            let ghost rest = queue.skip(skipped as int);
            let pending = match self.pending_flows.pop_front() {
                Some(pending) => pending,
                None => {
                    return Ok(CapturePoll::Idle);
                },
            };
            proof {
                assert(rotated[0] == queue[skipped as int]);
                assert(rest[0] == pending);
                assert(rest.drop_first() =~= queue.skip(skipped + 1));
                assert(self.pending_flows@ =~= queue.skip(skipped + 1) + queue.take(
                    skipped as int,
                ));
            }
            if pending.is_waiting(now_ns) {
                self.pending_flows.push_back(pending);
                assert(self.pending_flows@ =~= queue.skip(skipped + 1) + queue.take(skipped + 1));
                skipped = skipped + 1;
                continue;
            }
            reveal(ObservationStateView::resumed);
            assert(waiting_in_front(queue, now_ns) == skipped);
            let ghost turned = self@;
            let poll = self.poll_pending_flow_resolution_attempt_with_retry_delay(
                observations,
                resolver,
                pending,
                PendingFlowRetryDelay::Respect,
                now_ns,
            );
            let ghost replies = choose|replies: AttemptReplies|
                (#[trigger] turned.attempted(pending, true, now_ns, replies)).leads_to(
                    self@,
                    poll_view(poll),
                    earlier,
                    records(*observations, *resolver),
                );
            assert(before.resumed(now_ns, replies).leads_to(
                self@,
                poll_view(poll),
                earlier,
                records(*observations, *resolver),
            ));
            return poll;
        }
        assert(queue.skip(skipped as int) + queue.take(skipped as int) =~= queue);
        let poll: Result<CapturePoll, CaptureError> = Ok(CapturePoll::Idle);
        assert(before.resumed(now_ns, no_replies()).leads_to(
            self@,
            poll_view(poll),
            earlier,
            records(*observations, *resolver),
        ));
        poll
    }

    /// Looks for the connection behind the first start of a flow that waits, due or not.
    pub fn drain_pending_flow_resolution_before_handoff<
        O: EbpfObservationSource,
        R: EbpfSocketFlowResolver,
    >(
        &mut self,
        observations: &mut ObservationLedger<O>,
        resolver: &mut ResolverLedger<R>,
        now_ns: u64,
    ) -> (poll: Result<CapturePoll, CaptureError>)
        requires
            old(self).well_formed(),
        ensures
            final(self).well_formed(),
            old(self)@.pending_flows.len() > 0 ==> exists|replies: AttemptReplies|
                (#[trigger] old(self)@.without_first_start().attempted(
                    old(self)@.pending_flows[0],
                    false,
                    now_ns,
                    replies,
                )).leads_to(
                    final(self)@,
                    poll_view(poll),
                    records(*old(observations), *old(resolver)),
                    records(*final(observations), *final(resolver)),
                ),
            old(self)@.pending_flows.len() == 0 ==> quiet(
                old(self)@,
                Ok(CapturePollView::Idle),
            ).leads_to(
                final(self)@,
                poll_view(poll),
                records(*old(observations), *old(resolver)),
                records(*final(observations), *final(resolver)),
            ),
    {
        match self.pending_flows.pop_front() {
            Some(pending) => self.poll_pending_flow_resolution_attempt_with_retry_delay(
                observations,
                resolver,
                pending,
                PendingFlowRetryDelay::Ignore,
                now_ns,
            ),
            None => Ok(CapturePoll::Idle),
        }
    }

    /// Takes up the start of a flow.
    pub fn begin_flow_resolution<O: EbpfObservationSource, R: EbpfSocketFlowResolver>(
        &mut self,
        observations: &mut ObservationLedger<O>,
        resolver: &mut ResolverLedger<R>,
        flow_start: PendingEbpfFlowStart,
        now_ns: u64,
        wall_time_unix_ns: i64,
    ) -> (poll: Result<CapturePoll, CaptureError>)
        requires
            old(self).well_formed(),
        ensures
            final(self).well_formed(),
            exists|replies: AttemptReplies|
                (#[trigger] old(self)@.begun(
                    flow_start,
                    now_ns,
                    wall_time_unix_ns,
                    replies,
                )).leads_to(
                    final(self)@,
                    poll_view(poll),
                    records(*old(observations), *old(resolver)),
                    records(*final(observations), *final(resolver)),
                ),
    {
        reveal(ObservationStateView::begun);
        let ghost before = self@;
        let ghost earlier = records(*observations, *resolver);
        let timestamp = self.next_timestamp(wall_time_unix_ns);
        if flow_start.descriptor_lease().is_none() {
            let event = flow_start.invalid_descriptor_lease_gap(timestamp, resolver);
            let ghost gap = choose|reply: ProcessReply|
                event@ == flow_start.gap(
                    timestamp,
                    flow_start.invalid_lease_text(),
                    #[trigger] told_process(reply),
                ) && resolver.record() == earlier.resolver + asked_number(flow_start.process(), reply);
            let ghost replies = AttemptReplies { gap, ..no_replies() };
            let poll: Result<CapturePoll, CaptureError> = Ok(CapturePoll::event(event));
            assert(before.begun(flow_start, now_ns, wall_time_unix_ns, replies).leads_to(
                self@,
                poll_view(poll),
                earlier,
                records(*observations, *resolver),
            ));
            return poll;
        }
        let ghost ticked = self@;
        let pending = PendingEbpfFlowResolution::new(flow_start, timestamp);
        let poll = self.poll_pending_flow_resolution_attempt_with_retry_delay(
            observations,
            resolver,
            pending,
            PendingFlowRetryDelay::Respect,
            now_ns,
        );
        let ghost replies = choose|replies: AttemptReplies|
            (#[trigger] ticked.attempted(pending, true, now_ns, replies)).leads_to(
                self@,
                poll_view(poll),
                earlier,
                records(*observations, *resolver),
            );
        assert(before.begun(flow_start, now_ns, wall_time_unix_ns, replies).leads_to(
            self@,
            poll_view(poll),
            earlier,
            records(*observations, *resolver),
        ));
        poll
    }
}

/// The source is told nothing while a start of a flow waits.
proof fn lemma_waiting_tells_nothing(
    state: ObservationStateView,
    pending: PendingEbpfFlowResolution,
    replies: ProcessReply,
)
    ensures
        state.waiting(pending, replies).talk.source == Seq::<super::ledger::SourceExchange>::empty(),
{
}

/// How a flow is tracked depends on the answers of the source alone, and asks the resolver for
/// nothing.
proof fn lemma_start_replies(
    state: ObservationStateView,
    start: PendingEbpfFlowStart,
    event: CaptureEventView,
    first: AttemptReplies,
    second: AttemptReplies,
)
    requires
        first.allowed == second.allowed,
        first.revoked == second.revoked,
    ensures
        state.started(start, event, first) == state.started(start, event, second),
        state.started(start, event, first).talk.resolver == Seq::<ResolverExchange>::empty(),
{
    reveal(ObservationStateView::started);
}

/// What is made of a flow whose connection was not found does not depend on the reply on that.
proof fn lemma_fallback_replies(
    state: ObservationStateView,
    pending: PendingEbpfFlowResolution,
    first: AttemptReplies,
    second: AttemptReplies,
)
    requires
        first.fallback == second.fallback,
        first.gap == second.gap,
        first.allowed == second.allowed,
        first.revoked == second.revoked,
    ensures
        state.fallen_back(pending, first) == state.fallen_back(pending, second),
{
    reveal(ObservationStateView::started);
    reveal(ObservationStateView::fallen_back);
}

} // verus!
