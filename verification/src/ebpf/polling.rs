//! Polling for observations and draining before a handoff.
use vstd::prelude::*;

use crate::event::{
    event_views, extend_queue, lemma_event_views_concat, lemma_event_views_push, CaptureEvent,
};
use crate::model::{CaptureOrigin, CaptureSource, FlowContext, Timestamp};
use crate::provider::{CaptureError, CapturePoll};

use super::boundary::{
    output_loss_gap_events, process_lifecycle_gap_events, tracked_flow_handoff_boundary_gap_events,
};
use super::bridge::{output_loss_event, EbpfSocketFlowResolver};
use super::flow_start::{PendingEbpfFlowResolution, PendingEbpfFlowStart};
use super::observation_source::EbpfObservationSource;
use super::ledger::{
    answer_view, count_reply, group_talk, observation_reply, records, CountReply,
    ObservationLedger, ResolverLedger, SourceExchange, Talk,
};
use super::observing::{
    asked_cancelled, cancelled_gaps, closed, closed_events, is_of_others, is_of_process, quiet,
    AttemptReplies, ObservationStateView, PollReplies, SteppedTo, WhoReplies,
};
use super::payload_bridge::{read_events, write_events};
use super::process_allowance::{allowance_talk, sync_process_payload_allowance_for_lifecycle};
use super::resolution::{asked_number, told_process, ProcessReply};
use super::state::{brought_event, no_replies, nobody_asked, poll_view, EbpfObservationState};
use super::tracked_flow::{
    flows_under, sampled_keys_of_process, target_views, watched_views, TrackedEbpfFlow,
};
use super::types::{
    EbpfCloseRangeTracepointObservation, EbpfCloseTracepointObservation,
    EbpfProcessLifecycleObservation, EbpfProcessObservation, EbpfProcessObservationView,
    EbpfSocketReadObservation, EbpfSocketWriteObservation,
};

verus! {

broadcast use {lemma_event_views_push, lemma_event_views_concat, group_talk};

/// The end of a flow.
pub fn connection_closed_event(timestamp: Timestamp, flow: FlowContext) -> (event: CaptureEvent)
    ensures
        event@ == closed(flow@, timestamp),
{
    CaptureEvent::ConnectionClosed {
        timestamp,
        flow,
        origin: CaptureOrigin::from_source(CaptureSource::EbpfSyscall),
    }
}

/// The ends of some flows.
fn closed_event_list(removed: Vec<TrackedEbpfFlow>, timestamp: Timestamp) -> (events: Vec<
    CaptureEvent,
>)
    ensures
        event_views(events@) == closed_events(watched_views(removed@), timestamp),
{
    let mut events: Vec<CaptureEvent> = Vec::new();
    let ghost views = watched_views(removed@);
    let mut index: usize = 0;
    assert(event_views(events@) =~= closed_events(views.take(0), timestamp));
    while index < removed.len()
        invariant
            index <= removed.len(),
            views == watched_views(removed@),
            event_views(events@) == closed_events(views.take(index as int), timestamp),
        decreases removed.len() - index,
    {
        events.push(connection_closed_event(timestamp, removed[index].flow.clone()));
        proof {
            assert(views[index as int] == removed@[index as int]@);
            assert(event_views(events@) =~= closed_events(views.take(index + 1), timestamp));
        }
        index = index + 1;
    }
    assert(views.take(index as int) =~= views);
    events
}

impl EbpfObservationState {
    /// Takes note of a closed descriptor.
    pub fn close_event(
        &mut self,
        close: &EbpfCloseTracepointObservation,
        wall_time_unix_ns: i64,
    ) -> (poll: CapturePoll)
        requires
            old(self).well_formed(),
        ensures
            final(self).well_formed(),
            quiet(final(self)@, Ok(poll@)) == old(self)@.descriptor_closed(
                *close,
                wall_time_unix_ns,
            ),
    {
        match self.tracked_flows.remove_close(close) {
            Some(watched) => {
                let timestamp = self.next_timestamp(wall_time_unix_ns);
                CapturePoll::event(connection_closed_event(timestamp, watched.flow))
            },
            None => CapturePoll::Progress,
        }
    }

    /// Takes note of a range of closed descriptors.
    pub fn close_range_events(
        &mut self,
        close_range: &EbpfCloseRangeTracepointObservation,
        wall_time_unix_ns: i64,
    ) -> (poll: CapturePoll)
        requires
            old(self).well_formed(),
        ensures
            final(self).well_formed(),
            quiet(final(self)@, Ok(poll@)) == old(self)@.range_closed(
                *close_range,
                wall_time_unix_ns,
            ),
    {
        let removed = self.tracked_flows.remove_close_range(close_range);
        let ghost views = watched_views(removed@);
        assert(views.len() == removed@.len());
        let ghost next = self@;
        if removed.len() == 0 {
            let events: Vec<CaptureEvent> = Vec::new();
            assert(next.queued(event_views(events@)) =~= next);
            return self.queue_events(events);
        }
        let timestamp = self.next_timestamp(wall_time_unix_ns);
        let events = closed_event_list(removed, timestamp);
        self.queue_events(events)
    }

    /// Takes note of a write on a socket.
    pub fn write_sampled(
        &mut self,
        write: &EbpfSocketWriteObservation,
        wall_time_unix_ns: i64,
    ) -> (poll: CapturePoll)
        requires
            old(self).well_formed(),
        ensures
            final(self).well_formed(),
            quiet(final(self)@, Ok(poll@)) == old(self)@.sampled(
                super::descriptor_lease::observed_key(
                    write.process.tgid,
                    write.fd,
                    write.fd_generation,
                ),
                super::payload_bridge::write_sample(write@),
                wall_time_unix_ns,
            ),
    {
        let timestamp = self.next_timestamp(wall_time_unix_ns);
        let events = write_events(&mut self.tracked_flows, write, timestamp);
        self.queue_events(events)
    }

    /// Takes note of a read from a socket.
    pub fn read_sampled(
        &mut self,
        read: &EbpfSocketReadObservation,
        wall_time_unix_ns: i64,
    ) -> (poll: CapturePoll)
        requires
            old(self).well_formed(),
        ensures
            final(self).well_formed(),
            quiet(final(self)@, Ok(poll@)) == old(self)@.sampled(
                super::descriptor_lease::observed_key(
                    read.process.tgid,
                    read.fd,
                    read.fd_generation,
                ),
                super::payload_bridge::read_sample(read@),
                wall_time_unix_ns,
            ),
    {
        let timestamp = self.next_timestamp(wall_time_unix_ns);
        let events = read_events(&mut self.tracked_flows, read, timestamp);
        self.queue_events(events)
    }

    pub fn has_pending_flow_resolutions_for_tgid(&self, tgid: u32) -> (found: bool)
        ensures
            found == (self@.pending_flows.filter(is_of_process(tgid)).len() > 0),
    {
        let mut index: usize = 0;
        assert(self.pending_flows@.take(0) =~= Seq::empty());
        proof {
            reveal(Seq::filter);
        }
        while index < self.pending_flows.len()
            invariant
                index <= self.pending_flows.len(),
                self.pending_flows@.take(index as int).filter(is_of_process(tgid)).len() == 0,
            decreases self.pending_flows.len() - index,
        {
            proof {
                lemma_filter_grows(self.pending_flows@, is_of_process(tgid), index as int);
            }
            if self.pending_flows[index].flow_start.tgid() == tgid {
                proof {
                    self.pending_flows@.lemma_filter_contains(
                        is_of_process(tgid),
                        index as int,
                    );
                }
                return true;
            }
            index = index + 1;
        }
        assert(self.pending_flows@.take(index as int) =~= self.pending_flows@);
        false
    }

    /// Gives up the starts of flows of a process whose descriptors came to an end.
    pub fn cancel_pending_flow_resolutions_for_lifecycle<R: EbpfSocketFlowResolver>(
        &mut self,
        resolver: &mut ResolverLedger<R>,
        lifecycle: &EbpfProcessLifecycleObservation,
        timestamp: Timestamp,
    ) -> (events: Vec<CaptureEvent>)
        requires
            old(self).well_formed(),
        ensures
            final(self).well_formed(),
            final(self)@ == (ObservationStateView {
                pending_flows: old(self)@.pending_flows.filter(
                    is_of_others(lifecycle.process.tgid),
                ),
                ..old(self)@
            }),
            exists|replies: Seq<ProcessReply>|
                event_views(events@) == #[trigger] cancelled_gaps(
                    old(self)@.pending_flows.filter(is_of_process(lifecycle.process.tgid)),
                    *lifecycle,
                    timestamp,
                    replies,
                ) && final(resolver).record() == old(resolver).record() + asked_cancelled(
                    old(self)@.pending_flows.filter(is_of_process(lifecycle.process.tgid)),
                    replies,
                ),
    {
        let ghost before = self@;
        let ghost earlier = resolver.record();
        let ghost queue = before.pending_flows;
        let ghost mine = is_of_process(lifecycle.process.tgid);
        let ghost others = is_of_others(lifecycle.process.tgid);
        let ghost mut replies: Seq<ProcessReply> = Seq::empty();
        let count: usize = self.pending_flows.len();
        let mut events: Vec<CaptureEvent> = Vec::new();
        let mut done: usize = 0;
        proof {
            assert(queue.take(0) =~= Seq::empty());
            reveal(Seq::filter);
            assert(queue.skip(0) + queue.take(0).filter(others) =~= queue);
            assert(event_views(events@) =~= cancelled_gaps(
                queue.take(0).filter(mine),
                *lifecycle,
                timestamp,
                replies,
            ));
        }
        while done < count
            invariant
                done <= count == queue.len(),
                self.well_formed(),
                before == old(self)@,
                queue == before.pending_flows,
                mine == is_of_process(lifecycle.process.tgid),
                others == is_of_others(lifecycle.process.tgid),
                self@ == (ObservationStateView {
                    pending_flows: queue.skip(done as int) + queue.take(done as int).filter(others),
                    ..before
                }),
                replies.len() == queue.take(done as int).filter(mine).len(),
                event_views(events@) == cancelled_gaps(
                    queue.take(done as int).filter(mine),
                    *lifecycle,
                    timestamp,
                    replies,
                ),
                earlier == old(resolver).record(),
                resolver.record() == earlier + asked_cancelled(
                    queue.take(done as int).filter(mine),
                    replies,
                ),
            decreases count - done,
        {
            let ghost rotated = self.pending_flows@;
            let ghost kept = queue.take(done as int).filter(others);
            let ghost given_up = queue.take(done as int).filter(mine);
            proof {
                lemma_filter_grows(queue, mine, done as int);
                lemma_filter_grows(queue, others, done as int);
            }
            if let Some(pending) = self.pending_flows.pop_front() {
                proof {
                    assert(rotated[0] == queue[done as int]);
                    assert(self.pending_flows@ =~= queue.skip(done + 1) + kept);
                }
                if pending.flow_start.tgid() == lifecycle.process.tgid {
                    let ghost asked = resolver.record();
                    let event = pending.flow_start.lifecycle_boundary_gap(
                        timestamp,
                        lifecycle.kind,
                        resolver,
                    );
                    let ghost reply = choose|reply: ProcessReply|
                        event@ == pending.flow_start.gap(
                            timestamp,
                            pending.flow_start.lifecycle_text(lifecycle.kind),
                            #[trigger] told_process(reply),
                        ) && resolver.record() == asked + asked_number(
                            pending.flow_start.process(),
                            reply,
                        );
                    let ghost earlier_replies = replies;
                    proof {
                        replies = replies.push(reply);
                    }
                    let ghost told = event_views(events@);
                    events.push(event);
                    proof {
                        let longer = given_up.push(pending);
                        let gaps = cancelled_gaps(longer, *lifecycle, timestamp, replies);
                        assert(gaps =~= told.push(event@)) by {
                            assert forall|index: int| 0 <= index < given_up.len() implies gaps[index]
                                == told[index] by {
                                assert(longer[index] == given_up[index]);
                                assert(replies[index] == earlier_replies[index]);
                            }
                            assert(longer[given_up.len() as int] == pending);
                            assert(replies[given_up.len() as int] == reply);
                        }
                        assert(longer.drop_last() =~= given_up);
                        lemma_asked_of_earlier(given_up, earlier_replies, replies);
                    }
                } else {
                    self.pending_flows.push_back(pending);
                    assert(self.pending_flows@ =~= queue.skip(done + 1) + kept.push(pending));
                }
            }
            done = done + 1;
        }
        proof {
            assert(queue.take(done as int) =~= queue);
            assert(queue.skip(done as int) + queue.filter(others) =~= queue.filter(others));
        }
        events
    }

    /// Takes note of the end of a process's descriptors.
    pub fn process_lifecycle_events<R: EbpfSocketFlowResolver>(
        &mut self,
        resolver: &mut ResolverLedger<R>,
        lifecycle: &EbpfProcessLifecycleObservation,
        wall_time_unix_ns: i64,
    ) -> (poll: CapturePoll)
        requires
            old(self).well_formed(),
        ensures
            final(self).well_formed(),
            exists|replies: Seq<ProcessReply>|
                (#[trigger] old(self)@.lifecycle_ended(*lifecycle, wall_time_unix_ns, replies)).leads_to(
                    final(self)@,
                    Ok(poll@),
                    Talk::with_resolver(old(resolver).record()),
                    Talk::with_resolver(final(resolver).record()),
                ),
    {
        let ghost before = self@;
        let ghost earlier = Talk::with_resolver(resolver.record());
        let tgid: u32 = lifecycle.process.tgid;
        let ghost targets_view = flows_under(before.flows, sampled_keys_of_process(before.flows, tgid));
        let has_pending = self.has_pending_flow_resolutions_for_tgid(tgid);
        let targets = self.tracked_flows.active_payload_gap_targets_for_tgid(tgid);
        assert(target_views(targets@).len() == targets@.len());
        if !has_pending && targets.len() == 0 {
            let events: Vec<CaptureEvent> = Vec::new();
            assert(before.queued(event_views(events@)) =~= before);
            let poll = self.queue_events(events);
            let ghost replies: Seq<ProcessReply> = Seq::empty();
            assert(before.lifecycle_ended(
                *lifecycle,
                wall_time_unix_ns,
                replies,
            ).leads_to(self@, Ok(poll@), earlier, Talk::with_resolver(resolver.record())));
            return poll;
        }
        let timestamp = self.clock.next_timestamp(wall_time_unix_ns);
        let mut active = process_lifecycle_gap_events(&targets, timestamp, tgid, lifecycle.kind);
        assert(self@ == before.ticked());
        let mut events = self.cancel_pending_flow_resolutions_for_lifecycle(
            resolver,
            lifecycle,
            timestamp,
        );
        let ghost replies = choose|replies: Seq<ProcessReply>|
            event_views(events@) == #[trigger] cancelled_gaps(
                before.pending_flows.filter(is_of_process(tgid)),
                *lifecycle,
                timestamp,
                replies,
            ) && resolver.record() == earlier.resolver + asked_cancelled(
                before.pending_flows.filter(is_of_process(tgid)),
                replies,
            );
        events.append(&mut active);
        let poll = self.queue_events(events);
        assert(before.lifecycle_ended(
            *lifecycle,
            wall_time_unix_ns,
            replies,
        ).leads_to(self@, Ok(poll@), earlier, Talk::with_resolver(resolver.record())));
        poll
    }

    /// Takes a reading of the loss counter.
    pub fn output_loss_events(&mut self, count: u64, wall_time_unix_ns: i64) -> (event: Option<
        CaptureEvent,
    >)
        requires
            old(self).well_formed(),
        ensures
            final(self).well_formed(),
            (SteppedTo { state: final(self)@, event: brought_event(event) }) == old(
                self,
            )@.loss_checked(count, wall_time_unix_ns),
    {
        let ghost before = self@;
        let lost_events: u64 = match self.output_loss.checkpoint(count) {
            Some(lost) => lost,
            None => {
                return None;
            },
        };
        let timestamp = self.next_timestamp(wall_time_unix_ns);
        let ghost next = self@;
        let mut events: Vec<CaptureEvent> = Vec::new();
        events.push(output_loss_event(timestamp, lost_events));
        let ghost told = events@[0]@;
        let mut gaps = output_loss_gap_events(&self.tracked_flows, timestamp, lost_events);
        let ghost fanned_out = event_views(gaps@);
        events.append(&mut gaps);
        assert(event_views(events@) =~= seq![told] + fanned_out);
        extend_queue(&mut self.pending_events, events);
        assert(self@ == next.queued(seq![told] + fanned_out));
        self.pop_event()
    }

    /// Tells every sampled flow of the end of a runtime generation, once.
    pub fn handoff_boundary_events(&mut self, wall_time_unix_ns: i64) -> (event: Option<
        CaptureEvent,
    >)
        requires
            old(self).well_formed(),
        ensures
            final(self).well_formed(),
            (SteppedTo { state: final(self)@, event: brought_event(event) }) == old(
                self,
            )@.handed_off(wall_time_unix_ns),
    {
        if self.handoff_boundary_emitted {
            return None;
        }
        self.handoff_boundary_emitted = true;
        if !self.tracked_flows.has_active_payload_gap_targets() {
            return None;
        }
        let timestamp = self.next_timestamp(wall_time_unix_ns);
        let events = tracked_flow_handoff_boundary_gap_events(&self.tracked_flows, timestamp);
        extend_queue(&mut self.pending_events, events);
        self.pop_event()
    }

    /// Takes an observation.
    pub fn poll_observation<O: EbpfObservationSource, R: EbpfSocketFlowResolver>(
        &mut self,
        observations: &mut ObservationLedger<O>,
        resolver: &mut ResolverLedger<R>,
        observation: EbpfProcessObservation,
        now_ns: u64,
        wall_time_unix_ns: i64,
    ) -> (poll: Result<CapturePoll, CaptureError>)
        requires
            old(self).well_formed(),
        ensures
            final(self).well_formed(),
            exists|replies: PollReplies|
                (#[trigger] old(self)@.observed(observation@, now_ns, wall_time_unix_ns, replies)).leads_to(
                    final(self)@,
                    poll_view(poll),
                    records(*old(observations), *old(resolver)),
                    records(*final(observations), *final(resolver)),
                ),
    {
        reveal(ObservationStateView::observed);
        let ghost before = self@;
        let ghost earlier = records(*observations, *resolver);
        match observation {
            EbpfProcessObservation::Connect(connect) => self.poll_flow_start(
                observations,
                resolver,
                PendingEbpfFlowStart::Connect(connect),
                now_ns,
                wall_time_unix_ns,
            ),
            EbpfProcessObservation::Accept(accept) => self.poll_flow_start(
                observations,
                resolver,
                PendingEbpfFlowStart::Accept(accept),
                now_ns,
                wall_time_unix_ns,
            ),
            EbpfProcessObservation::Close(close) => {
                let poll: Result<CapturePoll, CaptureError> = Ok(
                    self.close_event(&close, wall_time_unix_ns),
                );
                assert(before.observed(
                    observation@,
                    now_ns,
                    wall_time_unix_ns,
                    no_poll_replies(),
                ).leads_to(self@, poll_view(poll), earlier, records(*observations, *resolver)));
                poll
            },
            EbpfProcessObservation::CloseRange(close_range) => {
                let poll: Result<CapturePoll, CaptureError> = Ok(
                    self.close_range_events(&close_range, wall_time_unix_ns),
                );
                assert(before.observed(
                    observation@,
                    now_ns,
                    wall_time_unix_ns,
                    no_poll_replies(),
                ).leads_to(self@, poll_view(poll), earlier, records(*observations, *resolver)));
                poll
            },
            EbpfProcessObservation::ProcessLifecycle(lifecycle) => {
                let answer = sync_process_payload_allowance_for_lifecycle(
                    observations,
                    resolver,
                    &lifecycle,
                    &self.process_payload_selector,
                );
                let ghost allowance = answer_view(answer);
                let ghost program = choose|program: WhoReplies|
                    earlier.followed_by(
                        #[trigger] allowance_talk(
                            lifecycle,
                            before.process_selector,
                            program,
                            allowance,
                        ),
                    ) == records(*observations, *resolver);
                let ghost synced = records(*observations, *resolver);
                if let Err(error) = answer {
                    let poll: Result<CapturePoll, CaptureError> = Err(error);
                    let ghost replies = PollReplies { program, allowance, ..no_poll_replies() };
                    assert(before.observed(
                        observation@,
                        now_ns,
                        wall_time_unix_ns,
                        replies,
                    ).leads_to(self@, poll_view(poll), earlier, records(*observations, *resolver)));
                    return poll;
                }
                let brought = self.process_lifecycle_events(
                    resolver,
                    &lifecycle,
                    wall_time_unix_ns,
                );
                let ghost cancelled = choose|replies: Seq<ProcessReply>|
                    (#[trigger] before.lifecycle_ended(
                        lifecycle,
                        wall_time_unix_ns,
                        replies,
                    )).leads_to(
                        self@,
                        Ok(brought@),
                        Talk::with_resolver(synced.resolver),
                        Talk::with_resolver(resolver.record()),
                    );
                proof {
                    lemma_lifecycle_tells_nothing(
                        before,
                        lifecycle,
                        wall_time_unix_ns,
                        cancelled,
                    );
                }
                let ghost replies = PollReplies {
                    cancelled,
                    program,
                    allowance,
                    ..no_poll_replies()
                };
                let poll: Result<CapturePoll, CaptureError> = Ok(brought);
                assert(before.observed(
                    observation@,
                    now_ns,
                    wall_time_unix_ns,
                    replies,
                ).leads_to(self@, poll_view(poll), earlier, records(*observations, *resolver)));
                poll
            },
            EbpfProcessObservation::Write(write) => {
                let poll: Result<CapturePoll, CaptureError> = Ok(
                    self.write_sampled(&write, wall_time_unix_ns),
                );
                assert(before.observed(
                    observation@,
                    now_ns,
                    wall_time_unix_ns,
                    no_poll_replies(),
                ).leads_to(self@, poll_view(poll), earlier, records(*observations, *resolver)));
                poll
            },
            EbpfProcessObservation::Read(read) => {
                let poll: Result<CapturePoll, CaptureError> = Ok(
                    self.read_sampled(&read, wall_time_unix_ns),
                );
                assert(before.observed(
                    observation@,
                    now_ns,
                    wall_time_unix_ns,
                    no_poll_replies(),
                ).leads_to(self@, poll_view(poll), earlier, records(*observations, *resolver)));
                poll
            },
        }
    }

    /// Takes an observed start of a flow.
    fn poll_flow_start<O: EbpfObservationSource, R: EbpfSocketFlowResolver>(
        &mut self,
        observations: &mut ObservationLedger<O>,
        resolver: &mut ResolverLedger<R>,
        flow_start: PendingEbpfFlowStart,
        now_ns: u64,
        wall_time_unix_ns: i64,
    ) -> (poll: Result<CapturePoll, CaptureError>)
        requires
            old(self).well_formed(),
        ensures
            final(self).well_formed(),
            exists|replies: PollReplies|
                (#[trigger] old(self)@.observed(start_observed(flow_start), now_ns, wall_time_unix_ns, replies)).leads_to(
                    final(self)@,
                    poll_view(poll),
                    records(*old(observations), *old(resolver)),
                    records(*final(observations), *final(resolver)),
                ),
    {
        reveal(ObservationStateView::observed);
        let ghost before = self@;
        let ghost earlier = records(*observations, *resolver);
        let poll = self.begin_flow_resolution(
            observations,
            resolver,
            flow_start,
            now_ns,
            wall_time_unix_ns,
        );
        let ghost attempt = choose|replies: AttemptReplies|
            (#[trigger] before.begun(
                flow_start,
                now_ns,
                wall_time_unix_ns,
                replies,
            )).leads_to(self@, poll_view(poll), earlier, records(*observations, *resolver));
        let ghost replies = PollReplies { attempt, ..no_poll_replies() };
        assert(before.observed(
            start_observed(flow_start),
            now_ns,
            wall_time_unix_ns,
            replies,
        ).leads_to(self@, poll_view(poll), earlier, records(*observations, *resolver)));
        poll
    }

    /// The last part of a poll: a new observation, or the loss counter where there is none.
    fn poll_drained<O: EbpfObservationSource, R: EbpfSocketFlowResolver>(
        &mut self,
        observations: &mut ObservationLedger<O>,
        resolver: &mut ResolverLedger<R>,
        now_ns: u64,
        wall_time_unix_ns: i64,
    ) -> (poll: Result<CapturePoll, CaptureError>)
        requires
            old(self).well_formed(),
        ensures
            final(self).well_formed(),
            exists|replies: PollReplies|
                (#[trigger] old(self)@.drained(now_ns, wall_time_unix_ns, replies)).leads_to(
                    final(self)@,
                    poll_view(poll),
                    records(*old(observations), *old(resolver)),
                    records(*final(observations), *final(resolver)),
                ),
    {
        reveal(ObservationStateView::drained);
        let ghost before = self@;
        let ghost earlier = records(*observations, *resolver);
        if self.pending_flows.len() > 0 {
            let poll = self.poll_pending_flow_resolution(observations, resolver, now_ns);
            let ghost attempt = choose|replies: AttemptReplies|
                (#[trigger] before.resumed(
                    now_ns,
                    replies,
                )).leads_to(self@, poll_view(poll), earlier, records(*observations, *resolver));
            let ghost replies = PollReplies { attempt, ..no_poll_replies() };
            assert(before.drained(
                now_ns,
                wall_time_unix_ns,
                replies,
            ).leads_to(self@, poll_view(poll), earlier, records(*observations, *resolver)));
            return poll;
        }
        let reply = observations.next_observation();
        let ghost observed = observation_reply(reply);
        match reply {
            Err(error) => {
                let poll: Result<CapturePoll, CaptureError> = Err(error);
                let ghost replies = PollReplies { observation: observed, ..no_poll_replies() };
                assert(before.drained(
                    now_ns,
                    wall_time_unix_ns,
                    replies,
                ).leads_to(self@, poll_view(poll), earlier, records(*observations, *resolver)));
                poll
            },
            Ok(Some(observation)) => {
                let ghost view = observation@;
                self.output_loss.record_observation();
                let ghost counted = self@;
                let ghost asked = records(*observations, *resolver);
                let poll = self.poll_observation(
                    observations,
                    resolver,
                    observation,
                    now_ns,
                    wall_time_unix_ns,
                );
                let ghost chosen = choose|replies: PollReplies|
                    (#[trigger] counted.observed(view, now_ns, wall_time_unix_ns, replies)).leads_to(
                        self@,
                        poll_view(poll),
                        asked,
                        records(*observations, *resolver),
                    );
                let ghost replies = PollReplies { observation: observed, ..chosen };
                proof {
                    lemma_observation_replies(counted, view, now_ns, wall_time_unix_ns, chosen, replies);
                }
                assert(before.drained(
                    now_ns,
                    wall_time_unix_ns,
                    replies,
                ).leads_to(self@, poll_view(poll), earlier, records(*observations, *resolver)));
                poll
            },
            Ok(None) => {
                let reading = observations.process_output_loss_count();
                let ghost last_count = count_reply(reading);
                let ghost replies = PollReplies {
                    observation: observed,
                    last_count,
                    ..no_poll_replies()
                };
                let poll = match reading {
                    Err(error) => Err(error),
                    Ok(count) => match self.output_loss_events(count, wall_time_unix_ns) {
                        Some(event) => Ok(CapturePoll::event(event)),
                        None => {
                            if self.stop_when_idle {
                                Ok(CapturePoll::Finished)
                            } else {
                                Ok(CapturePoll::Idle)
                            }
                        },
                    },
                };
                assert(before.drained(
                    now_ns,
                    wall_time_unix_ns,
                    replies,
                ).leads_to(self@, poll_view(poll), earlier, records(*observations, *resolver)));
                poll
            },
        }
    }

    /// One poll.
    pub fn poll_event<O: EbpfObservationSource, R: EbpfSocketFlowResolver>(
        &mut self,
        observations: &mut ObservationLedger<O>,
        resolver: &mut ResolverLedger<R>,
        now_ns: u64,
        wall_time_unix_ns: i64,
    ) -> (poll: Result<CapturePoll, CaptureError>)
        requires
            old(self).well_formed(),
        ensures
            final(self).well_formed(),
            exists|replies: PollReplies|
                (#[trigger] old(self)@.polled(now_ns, wall_time_unix_ns, replies)).leads_to(
                    final(self)@,
                    poll_view(poll),
                    records(*old(observations), *old(resolver)),
                    records(*final(observations), *final(resolver)),
                ),
    {
        let ghost before = self@;
        let ghost earlier = records(*observations, *resolver);
        if self.pending_events.len() > 0 {
            let poll: Result<CapturePoll, CaptureError> = match self.pop_event() {
                Some(event) => Ok(CapturePoll::event(event)),
                None => Ok(CapturePoll::Progress),
            };
            assert(before.polled(
                now_ns,
                wall_time_unix_ns,
                no_poll_replies(),
            ).leads_to(self@, poll_view(poll), earlier, records(*observations, *resolver)));
            return poll;
        }
        let ghost mut first_count: CountReply = Ok(0);
        if self.output_loss.should_check_during_drain() {
            let reading = observations.process_output_loss_count();
            proof {
                first_count = count_reply(reading);
            }
            let ghost replies = PollReplies { first_count, ..no_poll_replies() };
            match reading {
                Err(error) => {
                    let poll: Result<CapturePoll, CaptureError> = Err(error);
                    assert(before.polled(
                        now_ns,
                        wall_time_unix_ns,
                        replies,
                    ).leads_to(self@, poll_view(poll), earlier, records(*observations, *resolver)));
                    return poll;
                },
                Ok(count) => {
                    if let Some(event) = self.output_loss_events(count, wall_time_unix_ns) {
                        let poll: Result<CapturePoll, CaptureError> = Ok(CapturePoll::event(event));
                        assert(before.polled(
                            now_ns,
                            wall_time_unix_ns,
                            replies,
                        ).leads_to(
                            self@,
                            poll_view(poll),
                            earlier,
                            records(*observations, *resolver),
                        ));
                        return poll;
                    }
                },
            }
        }
        let ghost checked = self@;
        let ghost asked = records(*observations, *resolver);
        let poll = self.poll_drained(observations, resolver, now_ns, wall_time_unix_ns);
        let ghost chosen = choose|replies: PollReplies|
            (#[trigger] checked.drained(
                now_ns,
                wall_time_unix_ns,
                replies,
            )).leads_to(self@, poll_view(poll), asked, records(*observations, *resolver));
        let ghost replies = PollReplies { first_count, ..chosen };
        proof {
            lemma_drain_replies(checked, now_ns, wall_time_unix_ns, chosen, replies);
        }
        assert(before.polled(
            now_ns,
            wall_time_unix_ns,
            replies,
        ).leads_to(self@, poll_view(poll), earlier, records(*observations, *resolver)));
        poll
    }

    /// One poll of a provider that goes on running.
    pub fn poll_next<O: EbpfObservationSource, R: EbpfSocketFlowResolver>(
        &mut self,
        observations: &mut ObservationLedger<O>,
        resolver: &mut ResolverLedger<R>,
        now_ns: u64,
        wall_time_unix_ns: i64,
    ) -> (poll: Result<CapturePoll, CaptureError>)
        requires
            old(self).well_formed(),
        ensures
            final(self).well_formed(),
            exists|replies: PollReplies|
                (#[trigger] old(self)@.running().polled(now_ns, wall_time_unix_ns, replies)).leads_to(
                    final(self)@,
                    poll_view(poll),
                    records(*old(observations), *old(resolver)),
                    records(*final(observations), *final(resolver)),
                ),
    {
        self.handoff_boundary_emitted = false;
        self.poll_event(observations, resolver, now_ns, wall_time_unix_ns)
    }

    /// The last part of a drain: what still waits, the loss counter, and the boundary.
    fn drain_emptied<O: EbpfObservationSource, R: EbpfSocketFlowResolver>(
        &mut self,
        observations: &mut ObservationLedger<O>,
        resolver: &mut ResolverLedger<R>,
        now_ns: u64,
        wall_time_unix_ns: i64,
    ) -> (poll: Result<CapturePoll, CaptureError>)
        requires
            old(self).well_formed(),
        ensures
            final(self).well_formed(),
            exists|replies: PollReplies|
                (#[trigger] old(self)@.emptied(now_ns, wall_time_unix_ns, replies)).leads_to(
                    final(self)@,
                    poll_view(poll),
                    records(*old(observations), *old(resolver)),
                    records(*final(observations), *final(resolver)),
                ),
    {
        reveal(ObservationStateView::emptied);
        let ghost before = self@;
        let ghost earlier = records(*observations, *resolver);
        if self.pending_flows.len() > 0 {
            let poll = self.drain_pending_flow_resolution_before_handoff(
                observations,
                resolver,
                now_ns,
            );
            let ghost attempt = choose|replies: AttemptReplies|
                (#[trigger] before.without_first_start().attempted(
                    before.pending_flows[0],
                    false,
                    now_ns,
                    replies,
                )).leads_to(self@, poll_view(poll), earlier, records(*observations, *resolver));
            let ghost replies = PollReplies { attempt, ..no_poll_replies() };
            assert(before.emptied(
                now_ns,
                wall_time_unix_ns,
                replies,
            ).leads_to(self@, poll_view(poll), earlier, records(*observations, *resolver)));
            return poll;
        }
        let reading = observations.process_output_loss_count();
        let ghost last_count = count_reply(reading);
        let ghost replies = PollReplies { last_count, ..no_poll_replies() };
        let poll = match reading {
            Err(error) => Err(error),
            Ok(count) => match self.output_loss_events(count, wall_time_unix_ns) {
                Some(event) => Ok(CapturePoll::event(event)),
                None => match self.handoff_boundary_events(wall_time_unix_ns) {
                    Some(event) => Ok(CapturePoll::event(event)),
                    None => Ok(CapturePoll::Idle),
                },
            },
        };
        assert(before.emptied(
            now_ns,
            wall_time_unix_ns,
            replies,
        ).leads_to(self@, poll_view(poll), earlier, records(*observations, *resolver)));
        poll
    }

    /// One step of a drain before a handoff: no new observation is taken.
    pub fn drain_before_handoff<O: EbpfObservationSource, R: EbpfSocketFlowResolver>(
        &mut self,
        observations: &mut ObservationLedger<O>,
        resolver: &mut ResolverLedger<R>,
        now_ns: u64,
        wall_time_unix_ns: i64,
    ) -> (poll: Result<CapturePoll, CaptureError>)
        requires
            old(self).well_formed(),
        ensures
            final(self).well_formed(),
            exists|replies: PollReplies|
                (#[trigger] old(self)@.drained_for_handoff(now_ns, wall_time_unix_ns, replies)).leads_to(
                    final(self)@,
                    poll_view(poll),
                    records(*old(observations), *old(resolver)),
                    records(*final(observations), *final(resolver)),
                ),
    {
        let ghost before = self@;
        let ghost earlier = records(*observations, *resolver);
        if self.pending_events.len() > 0 {
            let poll: Result<CapturePoll, CaptureError> = match self.pop_event() {
                Some(event) => Ok(CapturePoll::event(event)),
                None => Ok(CapturePoll::Progress),
            };
            assert(before.drained_for_handoff(
                now_ns,
                wall_time_unix_ns,
                no_poll_replies(),
            ).leads_to(self@, poll_view(poll), earlier, records(*observations, *resolver)));
            return poll;
        }
        let ghost mut first_count: CountReply = Ok(0);
        if self.output_loss.should_check_during_drain() {
            let reading = observations.process_output_loss_count();
            proof {
                first_count = count_reply(reading);
            }
            let ghost replies = PollReplies { first_count, ..no_poll_replies() };
            match reading {
                Err(error) => {
                    let poll: Result<CapturePoll, CaptureError> = Err(error);
                    assert(before.drained_for_handoff(now_ns, wall_time_unix_ns, replies).leads_to(
                        self@,
                        poll_view(poll),
                        earlier,
                        records(*observations, *resolver),
                    ));
                    return poll;
                },
                Ok(count) => {
                    if let Some(event) = self.output_loss_events(count, wall_time_unix_ns) {
                        let poll: Result<CapturePoll, CaptureError> = Ok(CapturePoll::event(event));
                        assert(before.drained_for_handoff(now_ns, wall_time_unix_ns, replies).leads_to(
                            self@,
                            poll_view(poll),
                            earlier,
                            records(*observations, *resolver),
                        ));
                        return poll;
                    }
                },
            }
        }
        let ghost checked = self@;
        let ghost asked = records(*observations, *resolver);
        let poll = self.drain_emptied(observations, resolver, now_ns, wall_time_unix_ns);
        let ghost chosen = choose|replies: PollReplies|
            (#[trigger] checked.emptied(
                now_ns,
                wall_time_unix_ns,
                replies,
            )).leads_to(self@, poll_view(poll), asked, records(*observations, *resolver));
        let ghost replies = PollReplies { first_count, ..chosen };
        proof {
            lemma_drain_replies(checked, now_ns, wall_time_unix_ns, chosen, replies);
        }
        assert(before.drained_for_handoff(
            now_ns,
            wall_time_unix_ns,
            replies,
        ).leads_to(self@, poll_view(poll), earlier, records(*observations, *resolver)));
        poll
    }
}

/// The observation that tells the start of a flow.
pub open spec fn start_observed(start: PendingEbpfFlowStart) -> EbpfProcessObservationView {
    match start {
        PendingEbpfFlowStart::Connect(connect) => EbpfProcessObservationView::Connect(connect),
        PendingEbpfFlowStart::Accept(accept) => EbpfProcessObservationView::Accept(accept),
    }
}

/// Replies of a poll where nothing was asked.
pub open spec fn no_poll_replies() -> PollReplies {
    PollReplies {
        first_count: Ok(0),
        observation: Ok(None),
        last_count: Ok(0),
        attempt: no_replies(),
        program: nobody_asked(),
        allowance: Ok(()),
        cancelled: Seq::empty(),
    }
}

/// How an observation is taken does not depend on how it was asked for.
proof fn lemma_observation_replies(
    state: ObservationStateView,
    observation: EbpfProcessObservationView,
    now_ns: u64,
    wall_time_unix_ns: i64,
    first: PollReplies,
    second: PollReplies,
)
    requires
        first.attempt == second.attempt,
        first.program == second.program,
        first.allowance == second.allowance,
        first.cancelled == second.cancelled,
    ensures
        state.observed(observation, now_ns, wall_time_unix_ns, first) == state.observed(
            observation,
            now_ns,
            wall_time_unix_ns,
            second,
        ),
{
    reveal(ObservationStateView::observed);
}

/// The last parts of a poll and of a drain do not depend on the first reading of the counter.
proof fn lemma_drain_replies(
    state: ObservationStateView,
    now_ns: u64,
    wall_time_unix_ns: i64,
    first: PollReplies,
    second: PollReplies,
)
    requires
        first.observation == second.observation,
        first.last_count == second.last_count,
        first.attempt == second.attempt,
        first.program == second.program,
        first.allowance == second.allowance,
        first.cancelled == second.cancelled,
    ensures
        state.drained(now_ns, wall_time_unix_ns, first) == state.drained(
            now_ns,
            wall_time_unix_ns,
            second,
        ),
        state.emptied(now_ns, wall_time_unix_ns, first) == state.emptied(
            now_ns,
            wall_time_unix_ns,
            second,
        ),
{
    reveal(ObservationStateView::drained);
    reveal(ObservationStateView::emptied);
    if let Ok(Some(observation)) = first.observation {
        lemma_observation_replies(
            ObservationStateView { loss: state.loss.observed(), ..state },
            observation,
            now_ns,
            wall_time_unix_ns,
            first,
            second,
        );
    }
}

/// The source is told nothing while the flows of a process are given up.
proof fn lemma_lifecycle_tells_nothing(
    state: ObservationStateView,
    lifecycle: EbpfProcessLifecycleObservation,
    wall_time_unix_ns: i64,
    replies: Seq<ProcessReply>,
)
    ensures
        state.lifecycle_ended(lifecycle, wall_time_unix_ns, replies).talk.source == Seq::<
            SourceExchange,
        >::empty(),
{
}

/// What is asked depends on the replies to it alone.
proof fn lemma_asked_of_earlier(
    cancelled: Seq<PendingEbpfFlowResolution>,
    first: Seq<ProcessReply>,
    second: Seq<ProcessReply>,
)
    requires
        cancelled.len() <= first.len(),
        cancelled.len() <= second.len(),
        forall|index: int| 0 <= index < cancelled.len() ==> #[trigger] first[index] == second[index],
    ensures
        asked_cancelled(cancelled, first) == asked_cancelled(cancelled, second),
    decreases cancelled.len(),
{
    if cancelled.len() > 0 {
        lemma_asked_of_earlier(cancelled.drop_last(), first, second);
        assert(first[cancelled.len() - 1] == second[cancelled.len() - 1]);
    }
}

/// One more element is kept or left out.
proof fn lemma_filter_grows(
    queue: Seq<PendingEbpfFlowResolution>,
    kept: spec_fn(PendingEbpfFlowResolution) -> bool,
    index: int,
)
    requires
        0 <= index < queue.len(),
    ensures
        queue.take(index + 1).filter(kept) == if kept(queue[index]) {
            queue.take(index).filter(kept).push(queue[index])
        } else {
            queue.take(index).filter(kept)
        },
{
    reveal(Seq::filter);
    assert(queue.take(index + 1).drop_last() =~= queue.take(index));
}

} // verus!
