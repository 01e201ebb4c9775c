//! How the provider's state moves: each step is a function of the state and of what was replied.
use vstd::prelude::*;

use crate::bounded_recency::{displaced_by, with_newest};
use crate::event::CaptureEventView;
use crate::keyed::{holds, value_of, without_key};
use crate::model::{ebpf_origin, CaptureSource, FlowContextView, ObservationOnlyReason, Timestamp};
use crate::output_loss::{loss_event, OutputLossTracker};
use crate::provider::{CaptureErrorView, CapturePollView};
use crate::selector::CompiledSelectorView;

use super::boundary::{
    boundary_gaps, boundary_gaps_of_all, lifecycle_gap_reason, output_loss_gap_reason,
    HANDOFF_GAP_REASON,
};
use super::bridge::output_loss_reason;
use super::clock::next_number;
use super::descriptor_lease::{observed_key, DescriptorLease, DescriptorLeaseKey};
use super::flow_start::{PendingEbpfFlowResolution, PendingEbpfFlowStart};
use super::ledger::{
    Answer, CountReply, ObservationReply, ResolverExchange, SourceExchange, Talk,
};
use super::payload_authorization::{sampled_directions, SocketPayloadSampleAuthorization};
use super::payload_bridge::{
    flows_after_payload, payload_events_of, read_sample, texts_for, write_sample, PayloadSampleView,
};
use super::payload_direction::PayloadDirections;
use super::process_allowance::allowance_talk;
use super::resolution::{
    asked_flow, asked_number, opened_by_reply, told_process, FallbackReplies, FlowReply, ProcessReply, ProcessesReply,
};
use super::tracked_flow::{
    allowance_is_retained, displaced_flow, displaced_key, displacement_reason, entries_outside,
    flows_under, keys_in_close_range, sampled_flows, sampled_keys_of_process, FlowEntries,
    TrackedFlowView,
};
use super::types::{
    EbpfCloseRangeTracepointObservation, EbpfCloseTracepointObservation,
    EbpfProcessLifecycleObservation, EbpfProcessObservationView,
};

verus! {

/// How many starts of flows may wait for their connections at most.
pub const MAX_PENDING_EBPF_FLOW_RESOLUTIONS: usize = 8192;

/// How many flows are tracked at most.
pub const MAX_TRACKED_EBPF_FLOWS: usize = 8192;

/// The provider's state.
#[verifier::ext_equal]
pub struct ObservationStateView {
    pub sequence: u64,
    pub retries: u32,
    pub retry_sleep_ns: u64,
    pub stop_when_idle: bool,
    pub selector: Option<CompiledSelectorView>,
    pub process_selector: Option<CompiledSelectorView>,
    pub flows: FlowEntries,
    pub capacity: usize,
    pub pending_flows: Seq<PendingEbpfFlowResolution>,
    pub pending_events: Seq<CaptureEventView>,
    pub handoff_emitted: bool,
    pub loss: OutputLossTracker,
}

/// What a poll brought.
pub type PollAnswer = Result<CapturePollView, CaptureErrorView>;

/// A state together with what its step brought, and what was exchanged on the way.
#[verifier::ext_equal]
pub struct Stepped {
    pub state: ObservationStateView,
    pub poll: PollAnswer,
    pub talk: Talk,
}

/// A step on which nothing was exchanged.
pub open spec fn quiet(state: ObservationStateView, poll: PollAnswer) -> Stepped {
    Stepped { state, poll, talk: Talk::none() }
}

impl Stepped {
    /// The step, where something was exchanged before it.
    pub open spec fn after(self, talk: Talk) -> Stepped {
        Stepped { talk: talk.followed_by(self.talk), ..self }
    }

    /// Whether this is the step from one record of exchanges to another that reached a state and
    /// brought something.
    pub open spec fn leads_to(
        self,
        state: ObservationStateView,
        poll: PollAnswer,
        before: Talk,
        now: Talk,
    ) -> bool {
        &&& self.state == state
        &&& self.poll == poll
        &&& before.followed_by(self.talk) == now
    }
}

/// A state together with the event that its step brought, if any.
#[verifier::ext_equal]
pub struct SteppedTo {
    pub state: ObservationStateView,
    pub event: Option<CaptureEventView>,
}

/// A state together with whether its step succeeded, and what was exchanged with the source.
#[verifier::ext_equal]
pub struct Attempted {
    pub state: ObservationStateView,
    pub answer: Answer,
    pub told: Seq<SourceExchange>,
}

impl Attempted {
    /// Whether this is the step from one record of exchanges to another that reached a state and
    /// was answered.
    pub open spec fn leads_to(
        self,
        state: ObservationStateView,
        answer: Answer,
        before: Seq<SourceExchange>,
        now: Seq<SourceExchange>,
    ) -> bool {
        &&& self.state == state
        &&& self.answer == answer
        &&& before + self.told == now
    }
}

/// What was replied while the connection behind the start of a flow was looked for.
#[verifier::ext_equal]
pub struct AttemptReplies {
    pub flow: FlowReply,
    pub fallback: FallbackReplies,
    /// About the process of a flow that is given up.
    pub gap: ProcessReply,
    pub allowed: Answer,
    pub revoked: Answer,
}

/// What was replied about one process.
#[verifier::ext_equal]
pub struct WhoReplies {
    pub direct: ProcessReply,
    pub hinted: ProcessesReply,
}

/// What was replied in the course of one poll.
#[verifier::ext_equal]
pub struct PollReplies {
    pub first_count: CountReply,
    pub observation: ObservationReply,
    pub last_count: CountReply,
    pub attempt: AttemptReplies,
    /// About the process of a new program.
    pub program: WhoReplies,
    pub allowance: Answer,
    pub cancelled: Seq<ProcessReply>,
}

/// The number of attempts that are made at all.
pub open spec fn all_attempts(retries: u32) -> u32 {
    if retries < u32::MAX {
        (retries + 1) as u32
    } else {
        u32::MAX
    }
}

/// Which of the resolutions are for flows of a process.
pub open spec fn is_of_process(tgid: u32) -> spec_fn(PendingEbpfFlowResolution) -> bool {
    |pending: PendingEbpfFlowResolution| pending.flow_start.process().tgid == tgid
}

/// Which of the resolutions are for flows of other processes.
pub open spec fn is_of_others(tgid: u32) -> spec_fn(PendingEbpfFlowResolution) -> bool {
    |pending: PendingEbpfFlowResolution| pending.flow_start.process().tgid != tgid
}

/// How many resolutions at the front of a queue are not due yet.
pub open spec fn waiting_in_front(queue: Seq<PendingEbpfFlowResolution>, now_ns: u64) -> nat
    decreases queue.len(),
{
    if queue.len() == 0 || !queue[0].waits(now_ns) {
        0
    } else {
        1 + waiting_in_front(queue.drop_first(), now_ns)
    }
}

/// The events of flows that were closed together.
pub open spec fn closed_events(
    removed: Seq<TrackedFlowView>,
    timestamp: Timestamp,
) -> Seq<CaptureEventView> {
    removed.map_values(|watched: TrackedFlowView| closed(watched.flow, timestamp))
}

/// The end of a flow.
pub open spec fn closed(flow: FlowContextView, timestamp: Timestamp) -> CaptureEventView {
    CaptureEventView::ConnectionClosed { timestamp, flow, origin: ebpf_origin() }
}

/// The gaps for resolutions that were given up at the end of a process's descriptors.
pub open spec fn cancelled_gaps(
    cancelled: Seq<PendingEbpfFlowResolution>,
    lifecycle: EbpfProcessLifecycleObservation,
    timestamp: Timestamp,
    replies: Seq<ProcessReply>,
) -> Seq<CaptureEventView> {
    Seq::new(
        cancelled.len(),
        |index: int|
            cancelled[index].flow_start.gap(
                timestamp,
                cancelled[index].flow_start.lifecycle_text(lifecycle.kind),
                told_process(replies[index]),
            ),
    )
}

/// What is asked about resolutions that were given up at the end of a process's descriptors.
pub open spec fn asked_cancelled(
    cancelled: Seq<PendingEbpfFlowResolution>,
    replies: Seq<ProcessReply>,
) -> Seq<ResolverExchange>
    decreases cancelled.len(),
{
    if cancelled.len() == 0 {
        Seq::empty()
    } else {
        asked_cancelled(cancelled.drop_last(), replies) + asked_number(
            cancelled.last().flow_start.process(),
            replies[cancelled.len() - 1],
        )
    }
}

/// Why a start of a flow is given up when too many others wait.
pub open spec fn queue_full_text(pending: PendingEbpfFlowResolution) -> Seq<char> {
    pending.flow_start.unresolved_text(pending.attempts_completed)
        + "; pending flow resolution queue is full"@
}

impl ObservationStateView {
    /// The state after the clock moved on.
    pub open spec fn ticked(self) -> ObservationStateView {
        ObservationStateView { sequence: next_number(self.sequence), ..self }
    }

    /// The next moment of the clock.
    pub open spec fn stamp(self, wall_time_unix_ns: i64) -> Timestamp {
        Timestamp { monotonic_ns: next_number(self.sequence), wall_time_unix_ns }
    }

    /// The state with more events waiting.
    pub open spec fn queued(self, events: Seq<CaptureEventView>) -> ObservationStateView {
        ObservationStateView { pending_events: self.pending_events + events, ..self }
    }

    /// Takes the first waiting event.
    pub open spec fn popped(self) -> SteppedTo {
        if self.pending_events.len() > 0 {
            SteppedTo {
                state: ObservationStateView {
                    pending_events: self.pending_events.drop_first(),
                    ..self
                },
                event: Some(self.pending_events[0]),
            }
        } else {
            SteppedTo { state: self, event: None }
        }
    }

    /// Takes the first waiting event, or tells of progress.
    pub open spec fn delivered(self) -> Stepped {
        let next = self.popped();
        match next.event {
            Some(event) => quiet(next.state, Ok(CapturePollView::Event(event))),
            None => quiet(next.state, Ok(CapturePollView::Progress)),
        }
    }

    /// Tracks the flow of a start, once its socket may be sampled.
    pub open spec fn tracking(
        self,
        lease: Option<DescriptorLease>,
        flow: FlowContextView,
        timestamp: Timestamp,
        allowed: Answer,
        revoked: Answer,
    ) -> Attempted {
        match lease {
            None => Attempted { state: self, answer: Ok(()), told: Seq::empty() },
            Some(lease) => {
                let directions = sampled_directions(flow, self.selector);
                let next = self.inserted(lease, flow, directions, timestamp, revoked);
                match SocketPayloadSampleAuthorization::of(lease, directions) {
                    None => next,
                    Some(authorization) => {
                        let first = seq![SourceExchange::AllowSocket(authorization, allowed)];
                        if allowed is Err {
                            Attempted { state: self, answer: allowed, told: first }
                        } else {
                            Attempted { told: first + next.told, ..next }
                        }
                    },
                }
            },
        }
    }

    /// The state with one more tracked flow.
    pub open spec fn with_flow(
        self,
        key: DescriptorLeaseKey,
        flow: FlowContextView,
        directions: PayloadDirections,
    ) -> ObservationStateView {
        ObservationStateView {
            flows: with_newest(
                self.flows,
                self.capacity,
                key,
                TrackedFlowView::fresh(flow, directions),
            ),
            ..self
        }
    }

    /// Tracks a flow; what it displaces is told as gaps, and the kernel is told to sample that no
    /// more where nothing else needs it.
    #[verifier::opaque]
    pub open spec fn inserted(
        self,
        lease: DescriptorLease,
        flow: FlowContextView,
        directions: PayloadDirections,
        timestamp: Timestamp,
        revoked: Answer,
    ) -> Attempted {
        let next = self.with_flow(lease.lease_key(), flow, directions);
        match displaced_by(
            self.flows,
            self.capacity,
            lease.lease_key(),
            TrackedFlowView::fresh(flow, directions),
        ) {
            None => Attempted { state: next, answer: Ok(()), told: Seq::empty() },
            Some(displaced) => {
                let must_revoke = displaced_flow(displaced).has_allowance()
                    && !allowance_is_retained(next.flows, displaced_key(displaced));
                let told = if must_revoke {
                    seq![SourceExchange::RevokeSocket(displaced_key(displaced), revoked)]
                } else {
                    Seq::empty()
                };
                if must_revoke && revoked is Err {
                    Attempted { state: next, answer: revoked, told }
                } else {
                    Attempted {
                        state: next.queued(
                            boundary_gaps(
                                displaced_flow(displaced),
                                timestamp,
                                ObservationOnlyReason::ProviderStateBoundary,
                                displacement_reason(displaced),
                            ),
                        ),
                        answer: Ok(()),
                        told,
                    }
                }
            },
        }
    }

    /// Tracks the flow that an event tells the start of, and brings the event.
    #[verifier::opaque]
    pub open spec fn started(
        self,
        start: PendingEbpfFlowStart,
        event: CaptureEventView,
        replies: AttemptReplies,
    ) -> Stepped {
        match event {
            CaptureEventView::ConnectionOpened { timestamp, flow, .. } => {
                let next = self.tracking(
                    start.lease(),
                    flow,
                    timestamp,
                    replies.allowed,
                    replies.revoked,
                );
                let talk = Talk { source: next.told, resolver: Seq::empty() };
                match next.answer {
                    Ok(_) => Stepped {
                        state: next.state,
                        poll: Ok(CapturePollView::Event(event)),
                        talk,
                    },
                    Err(error) => Stepped { state: next.state, poll: Err(error), talk },
                }
            },
            _ => quiet(self, Ok(CapturePollView::Event(event))),
        }
    }

    /// Lets a start of a flow wait, or gives it up where too many others wait.
    pub open spec fn waiting(
        self,
        pending: PendingEbpfFlowResolution,
        replies: ProcessReply,
    ) -> Stepped {
        if self.pending_flows.len() < MAX_PENDING_EBPF_FLOW_RESOLUTIONS {
            quiet(
                ObservationStateView { pending_flows: self.pending_flows.push(pending), ..self },
                Ok(CapturePollView::Progress),
            )
        } else {
            Stepped {
                state: self,
                poll: Ok(
                    CapturePollView::Event(
                        pending.flow_start.gap(
                            pending.timestamp,
                            queue_full_text(pending),
                            told_process(replies),
                        ),
                    ),
                ),
                talk: Talk::with_resolver(
                    asked_number(pending.flow_start.process(), replies),
                ),
            }
        }
    }

    /// Looks for the connection behind the start of a flow.
    #[verifier::opaque]
    pub open spec fn attempted(
        self,
        pending: PendingEbpfFlowResolution,
        respect_delay: bool,
        now_ns: u64,
        replies: AttemptReplies,
    ) -> Stepped {
        if respect_delay && pending.waits(now_ns) {
            self.waiting(pending, replies.gap)
        } else {
            let asked = Talk::with_resolver(asked_flow(pending.flow_start.lookup(), replies.flow));
            match opened_by_reply(replies.flow, pending.timestamp) {
                Err(error) => quiet(self, Err(error)).after(asked),
                Ok(Some(event)) => self.started(pending.flow_start, event, replies).after(asked),
                Ok(None) => if pending.attempts_completed < self.retries {
                    self.waiting(
                        pending.put_off(now_ns, self.retry_sleep_ns),
                        replies.gap,
                    ).after(Talk::with_resolver(seq![ResolverExchange::Invalidate])).after(asked)
                } else {
                    self.fallen_back(pending, replies).after(asked)
                },
            }
        }
    }

    /// Makes do with what was observed of a flow whose connection was not found.
    #[verifier::opaque]
    pub open spec fn fallen_back(
        self,
        pending: PendingEbpfFlowResolution,
        replies: AttemptReplies,
    ) -> Stepped {
        let asked = Talk::with_resolver(pending.flow_start.asked_observed(replies.fallback));
        match pending.flow_start.observed(pending.timestamp, replies.fallback) {
            Err(error) => quiet(self, Err(error)).after(asked),
            Ok(Some(event)) => self.started(pending.flow_start, event, replies).after(asked),
            Ok(None) => Stepped {
                state: self,
                poll: Ok(
                    CapturePollView::Event(
                        pending.flow_start.gap(
                            pending.timestamp,
                            pending.flow_start.unresolved_text(all_attempts(self.retries)),
                            told_process(replies.gap),
                        ),
                    ),
                ),
                talk: asked.followed_by(
                    Talk::with_resolver(
                        asked_number(pending.flow_start.process(), replies.gap),
                    ),
                ),
            },
        }
    }

    /// Looks for the connection behind the first start of a flow that is due. Those in front of
    /// it, which are not due, go to the end of the queue.
    #[verifier::opaque]
    pub open spec fn resumed(self, now_ns: u64, replies: AttemptReplies) -> Stepped {
        let skipped = waiting_in_front(self.pending_flows, now_ns) as int;
        if skipped >= self.pending_flows.len() {
            quiet(self, Ok(CapturePollView::Idle))
        } else {
            ObservationStateView {
                pending_flows: self.pending_flows.skip(skipped + 1) + self.pending_flows.take(
                    skipped,
                ),
                ..self
            }.attempted(self.pending_flows[skipped], true, now_ns, replies)
        }
    }

    /// Takes up the start of a flow.
    #[verifier::opaque]
    pub open spec fn begun(
        self,
        start: PendingEbpfFlowStart,
        now_ns: u64,
        wall_time_unix_ns: i64,
        replies: AttemptReplies,
    ) -> Stepped {
        let timestamp = self.stamp(wall_time_unix_ns);
        if start.lease() is None {
            Stepped {
                state: self.ticked(),
                poll: Ok(
                    CapturePollView::Event(
                        start.gap(
                            timestamp,
                            start.invalid_lease_text(),
                            told_process(replies.gap),
                        ),
                    ),
                ),
                talk: Talk::with_resolver(
                    asked_number(start.process(), replies.gap),
                ),
            }
        } else {
            self.ticked().attempted(
                PendingEbpfFlowResolution::fresh(start, timestamp),
                true,
                now_ns,
                replies,
            )
        }
    }

    /// Takes note of a closed descriptor.
    pub open spec fn descriptor_closed(
        self,
        close: EbpfCloseTracepointObservation,
        wall_time_unix_ns: i64,
    ) -> Stepped {
        match observed_key(close.process.tgid, close.fd, close.fd_generation) {
            Some(key) if holds(self.flows, key) => quiet(
                ObservationStateView { flows: without_key(self.flows, key), ..self.ticked() },
                Ok(
                    CapturePollView::Event(
                        closed(value_of(self.flows, key).flow, self.stamp(wall_time_unix_ns)),
                    ),
                ),
            ),
            _ => quiet(self, Ok(CapturePollView::Progress)),
        }
    }

    /// Takes note of a range of closed descriptors.
    pub open spec fn range_closed(
        self,
        close_range: EbpfCloseRangeTracepointObservation,
        wall_time_unix_ns: i64,
    ) -> Stepped {
        let removed = flows_under(self.flows, keys_in_close_range(self.flows, close_range));
        let next = ObservationStateView {
            flows: entries_outside(self.flows, close_range),
            ..self
        };
        if removed.len() == 0 {
            next.delivered()
        } else {
            next.ticked().queued(
                closed_events(removed, self.stamp(wall_time_unix_ns)),
            ).delivered()
        }
    }

    /// Takes note of the end of a process's descriptors: starts of its flows that still wait are
    /// given up, and its sampled flows have a gap.
    pub open spec fn lifecycle_ended(
        self,
        lifecycle: EbpfProcessLifecycleObservation,
        wall_time_unix_ns: i64,
        replies: Seq<ProcessReply>,
    ) -> Stepped {
        let tgid = lifecycle.process.tgid;
        let cancelled = self.pending_flows.filter(is_of_process(tgid));
        let targets = flows_under(self.flows, sampled_keys_of_process(self.flows, tgid));
        let timestamp = self.stamp(wall_time_unix_ns);
        if cancelled.len() == 0 && targets.len() == 0 {
            self.delivered()
        } else {
            ObservationStateView {
                pending_flows: self.pending_flows.filter(is_of_others(tgid)),
                ..self.ticked()
            }.queued(
                cancelled_gaps(cancelled, lifecycle, timestamp, replies) + boundary_gaps_of_all(
                    targets,
                    timestamp,
                    ObservationOnlyReason::EbpfProcessLifecycleBoundary,
                    lifecycle_gap_reason(tgid, lifecycle.kind),
                ),
            ).delivered().after(Talk::with_resolver(asked_cancelled(cancelled, replies)))
        }
    }

    /// Takes note of sampled payload.
    pub open spec fn sampled(
        self,
        key: Option<DescriptorLeaseKey>,
        sample: PayloadSampleView,
        wall_time_unix_ns: i64,
    ) -> Stepped {
        ObservationStateView {
            flows: flows_after_payload(self.flows, key, sample),
            ..self.ticked()
        }.queued(
            payload_events_of(
                self.flows,
                key,
                sample,
                texts_for(sample.direction),
                self.stamp(wall_time_unix_ns),
            ),
        ).delivered()
    }

    /// Takes an observation.
    #[verifier::opaque]
    pub open spec fn observed(
        self,
        observation: EbpfProcessObservationView,
        now_ns: u64,
        wall_time_unix_ns: i64,
        replies: PollReplies,
    ) -> Stepped {
        match observation {
            EbpfProcessObservationView::Connect(connect) => self.begun(
                PendingEbpfFlowStart::Connect(connect),
                now_ns,
                wall_time_unix_ns,
                replies.attempt,
            ),
            EbpfProcessObservationView::Accept(accept) => self.begun(
                PendingEbpfFlowStart::Accept(accept),
                now_ns,
                wall_time_unix_ns,
                replies.attempt,
            ),
            EbpfProcessObservationView::Close(close) => self.descriptor_closed(
                close,
                wall_time_unix_ns,
            ),
            EbpfProcessObservationView::CloseRange(close_range) => self.range_closed(
                close_range,
                wall_time_unix_ns,
            ),
            EbpfProcessObservationView::ProcessLifecycle(lifecycle) => {
                let synced = allowance_talk(
                    lifecycle,
                    self.process_selector,
                    replies.program,
                    replies.allowance,
                );
                if self.process_selector is Some && replies.allowance is Err {
                    quiet(self, Err(replies.allowance->Err_0)).after(synced)
                } else {
                    self.lifecycle_ended(
                        lifecycle,
                        wall_time_unix_ns,
                        replies.cancelled,
                    ).after(synced)
                }
            },
            EbpfProcessObservationView::Write(write) => self.sampled(
                observed_key(write.process.tgid, write.fd, write.fd_generation),
                write_sample(write),
                wall_time_unix_ns,
            ),
            EbpfProcessObservationView::Read(read) => self.sampled(
                observed_key(read.process.tgid, read.fd, read.fd_generation),
                read_sample(read),
                wall_time_unix_ns,
            ),
        }
    }

    /// Takes a reading of the loss counter. A loss is told, and every sampled flow has a gap.
    pub open spec fn loss_checked(self, count: u64, wall_time_unix_ns: i64) -> SteppedTo {
        let next = ObservationStateView { loss: self.loss.checked(count), ..self };
        match self.loss.newly_lost(count) {
            None => SteppedTo { state: next, event: None },
            Some(lost) => {
                let timestamp = self.stamp(wall_time_unix_ns);
                next.ticked().queued(
                    seq![
                        loss_event(
                            timestamp,
                            lost,
                            CaptureSource::EbpfSyscall,
                            output_loss_reason(lost),
                        ),
                    ] + boundary_gaps_of_all(
                        sampled_flows(self.flows),
                        timestamp,
                        ObservationOnlyReason::EbpfCaptureLoss,
                        output_loss_gap_reason(lost),
                    ),
                ).popped()
            },
        }
    }

    /// Tells every sampled flow of the end of a runtime generation, once.
    pub open spec fn handed_off(self, wall_time_unix_ns: i64) -> SteppedTo {
        let next = ObservationStateView { handoff_emitted: true, ..self };
        if self.handoff_emitted || sampled_flows(self.flows).len() == 0 {
            SteppedTo { state: next, event: None }
        } else {
            next.ticked().queued(
                boundary_gaps_of_all(
                    sampled_flows(self.flows),
                    self.stamp(wall_time_unix_ns),
                    ObservationOnlyReason::ProviderStateBoundary,
                    HANDOFF_GAP_REASON@,
                ),
            ).popped()
        }
    }

    /// Takes a reading of the loss counter where there is no observation.
    pub open spec fn idled(self, wall_time_unix_ns: i64, count: CountReply) -> Stepped {
        match count {
            Err(error) => quiet(self, Err(error)),
            Ok(count) => {
                let next = self.loss_checked(count, wall_time_unix_ns);
                match next.event {
                    Some(event) => quiet(next.state, Ok(CapturePollView::Event(event))),
                    None => quiet(
                        next.state,
                        Ok(
                            if self.stop_when_idle {
                                CapturePollView::Finished
                            } else {
                                CapturePollView::Idle
                            },
                        ),
                    ),
                }
            },
        }
    }

    /// The last part of a poll: a new observation, or the loss counter where there is none.
    #[verifier::opaque]
    pub open spec fn drained(
        self,
        now_ns: u64,
        wall_time_unix_ns: i64,
        replies: PollReplies,
    ) -> Stepped {
        if self.pending_flows.len() > 0 {
            self.resumed(now_ns, replies.attempt)
        } else {
            let asked = Talk::with_source(SourceExchange::Next(replies.observation));
            match replies.observation {
                Err(error) => quiet(self, Err(error)).after(asked),
                Ok(Some(observation)) => ObservationStateView {
                    loss: self.loss.observed(),
                    ..self
                }.observed(observation, now_ns, wall_time_unix_ns, replies).after(asked),
                Ok(None) => self.idled(wall_time_unix_ns, replies.last_count).after(
                    Talk::with_source(SourceExchange::LossCount(replies.last_count)),
                ).after(asked),
            }
        }
    }

    /// The state of a provider that goes on running: the next handoff is a new one.
    pub open spec fn running(self) -> ObservationStateView {
        ObservationStateView { handoff_emitted: false, ..self }
    }

    /// One poll.
    pub open spec fn polled(
        self,
        now_ns: u64,
        wall_time_unix_ns: i64,
        replies: PollReplies,
    ) -> Stepped {
        if self.pending_events.len() > 0 {
            self.delivered()
        } else if self.loss.due() {
            let asked = Talk::with_source(SourceExchange::LossCount(replies.first_count));
            match replies.first_count {
                Err(error) => quiet(self, Err(error)).after(asked),
                Ok(count) => {
                    let next = self.loss_checked(count, wall_time_unix_ns);
                    match next.event {
                        Some(event) => quiet(
                            next.state,
                            Ok(CapturePollView::Event(event)),
                        ).after(asked),
                        None => next.state.drained(now_ns, wall_time_unix_ns, replies).after(asked),
                    }
                },
            }
        } else {
            self.drained(now_ns, wall_time_unix_ns, replies)
        }
    }

    /// The state without the first start of a flow that waits.
    pub open spec fn without_first_start(self) -> ObservationStateView {
        ObservationStateView { pending_flows: self.pending_flows.drop_first(), ..self }
    }

    /// Takes a reading of the loss counter and tells of the boundary where nothing waits.
    pub open spec fn idled_for_handoff(self, wall_time_unix_ns: i64, count: CountReply) -> Stepped {
        match count {
            Err(error) => quiet(self, Err(error)),
            Ok(count) => {
                let next = self.loss_checked(count, wall_time_unix_ns);
                match next.event {
                    Some(event) => quiet(next.state, Ok(CapturePollView::Event(event))),
                    None => {
                        let last = next.state.handed_off(wall_time_unix_ns);
                        match last.event {
                            Some(event) => quiet(last.state, Ok(CapturePollView::Event(event))),
                            None => quiet(last.state, Ok(CapturePollView::Idle)),
                        }
                    },
                }
            },
        }
    }

    /// The last part of a drain: what still waits, the loss counter, and the boundary.
    #[verifier::opaque]
    pub open spec fn emptied(
        self,
        now_ns: u64,
        wall_time_unix_ns: i64,
        replies: PollReplies,
    ) -> Stepped {
        if self.pending_flows.len() > 0 {
            self.without_first_start().attempted(
                self.pending_flows[0],
                false,
                now_ns,
                replies.attempt,
            )
        } else {
            self.idled_for_handoff(wall_time_unix_ns, replies.last_count).after(
                Talk::with_source(SourceExchange::LossCount(replies.last_count)),
            )
        }
    }

    /// One step of a drain before a handoff: no new observation is taken.
    pub open spec fn drained_for_handoff(
        self,
        now_ns: u64,
        wall_time_unix_ns: i64,
        replies: PollReplies,
    ) -> Stepped {
        if self.pending_events.len() > 0 {
            self.delivered()
        } else if self.loss.due() {
            let asked = Talk::with_source(SourceExchange::LossCount(replies.first_count));
            match replies.first_count {
                Err(error) => quiet(self, Err(error)).after(asked),
                Ok(count) => {
                    let next = self.loss_checked(count, wall_time_unix_ns);
                    match next.event {
                        Some(event) => quiet(
                            next.state,
                            Ok(CapturePollView::Event(event)),
                        ).after(asked),
                        None => next.state.emptied(now_ns, wall_time_unix_ns, replies).after(asked),
                    }
                },
            }
        } else {
            self.emptied(now_ns, wall_time_unix_ns, replies)
        }
    }
}

} // verus!
