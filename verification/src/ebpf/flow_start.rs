//! Observed starts of flows, while the connections behind them are being looked for.
use vstd::prelude::*;
use vstd::string::StringExecFns;

use crate::event::{CaptureEvent, CaptureEventView};
use crate::model::{Direction, ProcessContext, ProcessContextView, Timestamp};
use crate::provider::{CaptureError, CaptureErrorView};
use crate::text::{decimal_digits, joined, push_labelled, push_labelled_signed, signed_digits};

use super::bridge::{
    process_view, unresolved_accept_gap_from_observation, unresolved_connect_gap_from_observation,
    unresolved_gap, EbpfSocketFlowLookupView, EbpfSocketFlowResolver,
};
use super::descriptor_lease::DescriptorLease;
use super::ledger::{ResolverExchange, ResolverLedger};
use super::resolution::{
    accept_lookup, accept_opened_event_from_observation, asked_accept, asked_flow, asked_number,
    connect_lookup, connect_opened_event_from_observation, event_result, observed_accept,
    observed_accept_opened_event_from_observation, observed_connect,
    observed_connect_opened_event_from_observation, opened_by_reply, process_reply, told_process,
    told_process_from_reply, FallbackReplies, FlowReply, ProcessReply,
};
use super::types::{
    EbpfAcceptTracepointObservation, EbpfConnectTracepointObservation, EbpfObservedProcess,
    EbpfProcessLifecycleKind,
};

verus! {

/// An observed start of a flow.
#[derive(Debug, Clone, Copy, PartialEq, Eq)]
pub enum PendingEbpfFlowStart {
    Connect(EbpfConnectTracepointObservation),
    Accept(EbpfAcceptTracepointObservation),
}

/// The text that identifies the descriptor of an observation.
pub open spec fn descriptor_text(process: EbpfObservedProcess, fd: i32) -> Seq<char> {
    "; tgid="@ + decimal_digits(process.tgid as nat) + ", thread_pid="@ + decimal_digits(
        process.pid as nat,
    ) + ", fd="@ + signed_digits(fd as int)
}

impl PendingEbpfFlowStart {
    pub open spec fn process(self) -> EbpfObservedProcess {
        match self {
            PendingEbpfFlowStart::Connect(connect) => connect.process,
            PendingEbpfFlowStart::Accept(accept) => accept.process,
        }
    }

    pub open spec fn descriptor(self) -> i32 {
        match self {
            PendingEbpfFlowStart::Connect(connect) => connect.fd,
            PendingEbpfFlowStart::Accept(accept) => accept.fd,
        }
    }

    pub open spec fn epoch(self) -> u64 {
        match self {
            PendingEbpfFlowStart::Connect(connect) => connect.fd_table_epoch,
            PendingEbpfFlowStart::Accept(accept) => accept.fd_table_epoch,
        }
    }

    pub open spec fn generation(self) -> u64 {
        match self {
            PendingEbpfFlowStart::Connect(connect) => connect.fd_generation,
            PendingEbpfFlowStart::Accept(accept) => accept.fd_generation,
        }
    }

    /// The lease of the descriptor, where the observation tells enough.
    pub open spec fn lease(self) -> Option<DescriptorLease> {
        DescriptorLease::of(
            self.process().tgid,
            self.descriptor(),
            self.epoch(),
            self.generation(),
        )
    }

    /// The gap that stands for the flow where it could not be found.
    pub open spec fn gap(
        self,
        timestamp: Timestamp,
        reason: Seq<char>,
        found: Option<ProcessContextView>,
    ) -> CaptureEventView {
        match self {
            PendingEbpfFlowStart::Connect(connect) => unresolved_gap(
                connect.process,
                connect.endpoint.remote(),
                Direction::Outbound,
                timestamp,
                reason,
                found,
            ),
            PendingEbpfFlowStart::Accept(accept) => unresolved_gap(
                accept.process,
                accept.endpoint.remote(),
                Direction::Inbound,
                timestamp,
                reason,
                found,
            ),
        }
    }

    /// The start of the flow by its observed remote end.
    pub open spec fn observed(self, timestamp: Timestamp, replies: FallbackReplies) -> Result<
        Option<CaptureEventView>,
        CaptureErrorView,
    > {
        match self {
            PendingEbpfFlowStart::Connect(connect) => Ok(
                observed_connect(
                    connect,
                    timestamp,
                    told_process(replies.direct),
                ),
            ),
            PendingEbpfFlowStart::Accept(accept) => observed_accept(accept, timestamp, replies),
        }
    }

    /// The connection that the start of the flow is looked up by.
    pub open spec fn lookup(self) -> EbpfSocketFlowLookupView {
        match self {
            PendingEbpfFlowStart::Connect(connect) => connect_lookup(connect),
            PendingEbpfFlowStart::Accept(accept) => accept_lookup(accept),
        }
    }

    /// What is asked about the start of a flow whose connection was not found.
    pub open spec fn asked_observed(self, replies: FallbackReplies) -> Seq<ResolverExchange> {
        match self {
            PendingEbpfFlowStart::Connect(connect) => asked_number(
                connect.process,
                replies.direct,
            ),
            PendingEbpfFlowStart::Accept(accept) => asked_accept(accept, replies),
        }
    }

    /// Why the flow was given up after some attempts.
    pub open spec fn unresolved_text(self, attempts: u32) -> Seq<char> {
        match self {
            PendingEbpfFlowStart::Connect(connect) =>
                "eBPF connect observation could not be resolved to a procfs socket"@ + " after "@
                    + decimal_digits(attempts as nat) + " attempt(s)"@ + descriptor_text(
                    connect.process,
                    connect.fd,
                ),
            PendingEbpfFlowStart::Accept(accept) =>
                "eBPF accept observation could not be resolved to a procfs socket"@ + " after "@
                    + decimal_digits(attempts as nat) + " attempt(s)"@ + descriptor_text(
                    accept.process,
                    accept.fd,
                ) + ", listen_fd="@ + signed_digits(accept.listen_fd as int),
        }
    }

    /// Why a flow without a valid lease is not followed.
    pub open spec fn invalid_lease_text(self) -> Seq<char> {
        "eBPF flow-start observation did not carry a valid descriptor lease"@ + descriptor_text(
            self.process(),
            self.descriptor(),
        ) + ", fd_table_epoch="@ + decimal_digits(self.epoch() as nat) + ", fd_generation="@
            + decimal_digits(self.generation() as nat)
    }

    /// Why the flow was given up at the end of the process's descriptors.
    pub open spec fn lifecycle_text(self, kind: EbpfProcessLifecycleKind) -> Seq<char> {
        "eBPF flow-start observation was abandoned because "@ + kind.text()
            + " invalidated the fd-table epoch before procfs socket resolution completed"@
            + descriptor_text(self.process(), self.descriptor())
    }

    pub fn observed_process(&self) -> (process: &EbpfObservedProcess)
        ensures
            *process == self.process(),
    {
        match self {
            PendingEbpfFlowStart::Connect(connect) => &connect.process,
            PendingEbpfFlowStart::Accept(accept) => &accept.process,
        }
    }

    pub fn tgid(&self) -> (tgid: u32)
        ensures
            tgid == self.process().tgid,
    {
        self.observed_process().tgid
    }

    fn thread_pid(&self) -> (pid: u32)
        ensures
            pid == self.process().pid,
    {
        self.observed_process().pid
    }

    pub fn fd(&self) -> (fd: i32)
        ensures
            fd == self.descriptor(),
    {
        match self {
            PendingEbpfFlowStart::Connect(connect) => connect.fd,
            PendingEbpfFlowStart::Accept(accept) => accept.fd,
        }
    }

    fn fd_table_epoch(&self) -> (epoch: u64)
        ensures
            epoch == self.epoch(),
    {
        match self {
            PendingEbpfFlowStart::Connect(connect) => connect.fd_table_epoch,
            PendingEbpfFlowStart::Accept(accept) => accept.fd_table_epoch,
        }
    }

    fn fd_generation(&self) -> (generation: u64)
        ensures
            generation == self.generation(),
    {
        match self {
            PendingEbpfFlowStart::Connect(connect) => connect.fd_generation,
            PendingEbpfFlowStart::Accept(accept) => accept.fd_generation,
        }
    }

    pub fn descriptor_lease(&self) -> (lease: Option<DescriptorLease>)
        ensures
            lease == self.lease(),
    {
        DescriptorLease::new(self.tgid(), self.fd(), self.fd_table_epoch(), self.fd_generation())
    }

    fn push_descriptor(&self, text: &mut String)
        ensures
            final(text)@ == old(text)@ + descriptor_text(self.process(), self.descriptor()),
    {
        push_labelled(text, "; tgid=", self.tgid() as u64);
        push_labelled(text, ", thread_pid=", self.thread_pid() as u64);
        push_labelled_signed(text, ", fd=", self.fd());
        assert(text@ =~= old(text)@ + descriptor_text(self.process(), self.descriptor()));
    }

    /// Asks for the connection behind the start of the flow.
    pub fn opened_event<R: EbpfSocketFlowResolver>(
        &self,
        timestamp: Timestamp,
        resolver: &mut ResolverLedger<R>,
    ) -> (event: Result<Option<CaptureEvent>, CaptureError>)
        ensures
            exists|reply: FlowReply|
                event_result(event) == #[trigger] opened_by_reply(reply, timestamp)
                    && final(resolver).record() == old(resolver).record() + asked_flow(
                    self.lookup(),
                    reply,
                ),
    {
        match self {
            PendingEbpfFlowStart::Connect(connect) => connect_opened_event_from_observation(
                connect,
                timestamp,
                resolver,
            ),
            PendingEbpfFlowStart::Accept(accept) => accept_opened_event_from_observation(
                accept,
                timestamp,
                resolver,
            ),
        }
    }

    /// Makes the start of the flow by its observed remote end, and asks for the rest.
    pub fn observed_opened_event<R: EbpfSocketFlowResolver>(
        &self,
        timestamp: Timestamp,
        resolver: &mut ResolverLedger<R>,
    ) -> (event: Result<Option<CaptureEvent>, CaptureError>)
        ensures
            exists|replies: FallbackReplies|
                event_result(event) == #[trigger] self.observed(timestamp, replies)
                    && final(resolver).record() == old(resolver).record() + self.asked_observed(
                    replies,
                ),
    {
        let ghost before = resolver.record();
        match self {
            PendingEbpfFlowStart::Connect(connect) => {
                let answer = resolver.resolve_process(connect.process.tgid);
                let ghost replies = FallbackReplies {
                    listen: Ok(None),
                    direct: process_reply(answer),
                    hinted: Ok(Seq::empty()),
                };
                let process = told_process_from_reply(answer);
                let event: Result<Option<CaptureEvent>, CaptureError> = Ok(
                    observed_connect_opened_event_from_observation(connect, timestamp, process),
                );
                assert(event_result(event) == self.observed(timestamp, replies)
                    && resolver.record() == before + self.asked_observed(replies));
                event
            },
            PendingEbpfFlowStart::Accept(accept) => {
                let event = observed_accept_opened_event_from_observation(
                    accept,
                    timestamp,
                    resolver,
                );
                let ghost replies = choose|replies: FallbackReplies|
                    event_result(event) == #[trigger] observed_accept(*accept, timestamp, replies)
                        && resolver.record() == before + asked_accept(*accept, replies);
                assert(event_result(event) == self.observed(timestamp, replies)
                    && resolver.record() == before + self.asked_observed(replies));
                event
            },
        }
    }

    /// The gap that stands for the flow where it could not be found.
    pub fn gap_event(
        &self,
        timestamp: Timestamp,
        reason: String,
        resolved_process: Option<ProcessContext>,
    ) -> (event: CaptureEvent)
        ensures
            event@ == self.gap(timestamp, reason@, process_view(resolved_process)),
    {
        match self {
            PendingEbpfFlowStart::Connect(connect) => unresolved_connect_gap_from_observation(
                connect,
                timestamp,
                reason,
                resolved_process,
            ),
            PendingEbpfFlowStart::Accept(accept) => unresolved_accept_gap_from_observation(
                accept,
                timestamp,
                reason,
                resolved_process,
            ),
        }
    }

    /// The gap that stands for the flow where it could not be found; its process is asked for.
    pub fn unresolved_gap<R: EbpfSocketFlowResolver>(
        &self,
        timestamp: Timestamp,
        reason: String,
        resolver: &mut ResolverLedger<R>,
    ) -> (event: CaptureEvent)
        ensures
            exists|reply: ProcessReply|
                event@ == self.gap(
                    timestamp,
                    reason@,
                    #[trigger] told_process(reply),
                ) && final(resolver).record() == old(resolver).record() + asked_number(self.process(), reply),
    {
        let ghost before = resolver.record();
        let answer = resolver.resolve_process(self.tgid());
        let ghost reply = process_reply(answer);
        let process = told_process_from_reply(answer);
        let ghost text = reason@;
        let event = self.gap_event(timestamp, reason, process);
        assert(event@ == self.gap(timestamp, text, told_process(reply)) && resolver.record()
            == before + asked_number(self.process(), reply));
        event
    }

    pub fn unresolved_reason(&self, attempts: u32) -> (reason: String)
        ensures
            reason@ == self.unresolved_text(attempts),
    {
        let mut reason = match self {
            PendingEbpfFlowStart::Connect(_) =>
                "eBPF connect observation could not be resolved to a procfs socket".to_owned(),
            PendingEbpfFlowStart::Accept(_) =>
                "eBPF accept observation could not be resolved to a procfs socket".to_owned(),
        };
        push_labelled(&mut reason, " after ", attempts as u64);
        reason.append(" attempt(s)");
        self.push_descriptor(&mut reason);
        if let PendingEbpfFlowStart::Accept(accept) = self {
            push_labelled_signed(&mut reason, ", listen_fd=", accept.listen_fd);
        }
        assert(reason@ =~= self.unresolved_text(attempts));
        reason
    }

    pub fn invalid_descriptor_lease_reason(&self) -> (reason: String)
        ensures
            reason@ == self.invalid_lease_text(),
    {
        let mut reason =
            "eBPF flow-start observation did not carry a valid descriptor lease".to_owned();
        self.push_descriptor(&mut reason);
        push_labelled(&mut reason, ", fd_table_epoch=", self.fd_table_epoch());
        push_labelled(&mut reason, ", fd_generation=", self.fd_generation());
        reason
    }

    /// The gap that stands for a flow without a valid lease.
    pub fn invalid_descriptor_lease_gap<R: EbpfSocketFlowResolver>(
        &self,
        timestamp: Timestamp,
        resolver: &mut ResolverLedger<R>,
    ) -> (event: CaptureEvent)
        ensures
            exists|reply: ProcessReply|
                event@ == self.gap(
                    timestamp,
                    self.invalid_lease_text(),
                    #[trigger] told_process(reply),
                ) && final(resolver).record() == old(resolver).record() + asked_number(self.process(), reply),
    {
        self.unresolved_gap(timestamp, self.invalid_descriptor_lease_reason(), resolver)
    }

    pub fn lifecycle_boundary_reason(&self, kind: EbpfProcessLifecycleKind) -> (reason: String)
        ensures
            reason@ == self.lifecycle_text(kind),
    {
        let mut reason = joined(
            "eBPF flow-start observation was abandoned because ",
            kind.boundary_description(),
        );
        reason.append(
            " invalidated the fd-table epoch before procfs socket resolution completed",
        );
        self.push_descriptor(&mut reason);
        reason
    }

    /// The gap that stands for a flow that was given up at the end of its process's descriptors.
    pub fn lifecycle_boundary_gap<R: EbpfSocketFlowResolver>(
        &self,
        timestamp: Timestamp,
        kind: EbpfProcessLifecycleKind,
        resolver: &mut ResolverLedger<R>,
    ) -> (event: CaptureEvent)
        ensures
            exists|reply: ProcessReply|
                event@ == self.gap(
                    timestamp,
                    self.lifecycle_text(kind),
                    #[trigger] told_process(reply),
                ) && final(resolver).record() == old(resolver).record() + asked_number(self.process(), reply),
    {
        self.unresolved_gap(timestamp, self.lifecycle_boundary_reason(kind), resolver)
    }
}

/// The start of a flow with how often its connection was looked for.
#[derive(Debug, Clone, Copy, PartialEq, Eq)]
pub struct PendingEbpfFlowResolution {
    pub flow_start: PendingEbpfFlowStart,
    pub timestamp: Timestamp,
    pub attempts_completed: u32,
    /// When the next attempt is due, in nanoseconds of the caller's clock.
    pub retry_at: Option<u128>,
}

impl PendingEbpfFlowResolution {
    pub open spec fn fresh(
        flow_start: PendingEbpfFlowStart,
        timestamp: Timestamp,
    ) -> PendingEbpfFlowResolution {
        PendingEbpfFlowResolution { flow_start, timestamp, attempts_completed: 0, retry_at: None }
    }

    /// Whether the next attempt is not due yet.
    pub open spec fn waits(self, now_ns: u64) -> bool {
        self.retry_at matches Some(due) && now_ns < due
    }

    /// The resolution after an attempt that is to be repeated.
    pub open spec fn put_off(self, now_ns: u64, sleep_ns: u64) -> PendingEbpfFlowResolution {
        PendingEbpfFlowResolution {
            attempts_completed: if self.attempts_completed < u32::MAX {
                (self.attempts_completed + 1) as u32
            } else {
                u32::MAX
            },
            retry_at: Some((now_ns + sleep_ns) as u128),
            ..self
        }
    }

    pub fn new(flow_start: PendingEbpfFlowStart, timestamp: Timestamp) -> (pending:
        PendingEbpfFlowResolution)
        ensures
            pending == PendingEbpfFlowResolution::fresh(flow_start, timestamp),
    {
        PendingEbpfFlowResolution { flow_start, timestamp, attempts_completed: 0, retry_at: None }
    }

    pub fn is_waiting(&self, now_ns: u64) -> (waiting: bool)
        ensures
            waiting == self.waits(now_ns),
    {
        match self.retry_at {
            Some(due) => (now_ns as u128) < due,
            None => false,
        }
    }

    pub fn after_failed_attempt(self, now_ns: u64, sleep_ns: u64) -> (pending:
        PendingEbpfFlowResolution)
        ensures
            pending == self.put_off(now_ns, sleep_ns),
    {
        PendingEbpfFlowResolution {
            flow_start: self.flow_start,
            timestamp: self.timestamp,
            attempts_completed: self.attempts_completed.saturating_add(1),
            retry_at: Some(now_ns as u128 + sleep_ns as u128),
        }
    }
}

} // verus!
