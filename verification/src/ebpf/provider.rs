//! The provider of capture events from the kernel probes.
use vstd::prelude::*;

use crate::provider::{
    capability_views, CapabilityKind, CapabilityState, CapabilityStateView, CapabilityStatusView,
    CaptureError, CaptureErrorView, CapturePoll,
};
use crate::selector::CompiledSelector;

use super::bridge::EbpfSocketFlowResolver;
use super::diagnostics::{
    firing_views, firings_reply, DiagnosticsCacheView, EbpfProcessObservationRuntimeDiagnostics,
    EbpfProcessObservationRuntimeDiagnosticsCache, EbpfProcessObservationTracepointFiring,
    FiringView, FiringsReply,
};
use super::observation_source::EbpfObservationSource;
use super::ledger::{
    answer_view, group_talk, records, ObservationLedger, ResolverLedger, SourceExchange, Talk,
};
use super::observing::{ObservationStateView, PollReplies};
use super::payload_authorization::{selector_view, ProcessPayloadSampleAuthorization};
use super::probe_snapshot::EbpfProcessObservationProbeSnapshot;
use super::state::{poll_view, EbpfObservationState};

verus! {

broadcast use group_talk;

pub const EBPF_CAPABILITY_REASON: &'static str = "eBPF provider emits connect and accept/accept4 flow-start observations with descriptor leases, prefers procfs-resolved socket metadata when available, falls back to degraded observed flows when kernel tracepoints provide a remote endpoint before procfs resolution succeeds, uses direct TGID or unique process-hint procfs matches for process lifecycle payload allowance when observed kernel TGIDs are hidden from host procfs or collide with unrelated host PIDs, binds flow-start payload capture through descriptor/socket allow maps, emits selector-authorized always-degraded outbound single-buffer and bounded multi-iovec prefix syscall argument samples, outbound available sendfile family kernel-transfer byte-count gaps, inbound single-buffer and bounded multi-iovec prefix syscall result samples bound to descriptor generation, descriptor-generation close/plain close_range lifecycle events, TGID-level process exit/exec cancellation of pending flow resolution plus lifecycle boundary gaps for active payload-tracked flows, userspace tracked-flow displacement as event-local terminal provider-state boundary gaps, output ring-buffer failure conversion to degraded capture_loss events, conservative unknown-offset gap fan-out to active tracked payload flows, per-tracepoint kernel firing counters, and safe active pipe read/write tracepoint liveness diagnostics; payload beyond the bounded multi-iovec scan/sample or fixed verifier-friendly append slots, kernel-transfer payload bytes, partial-write retry semantics, precise flow-specific lost-event reconstruction, and kernel socket-object lifetime are not implemented";

/// What the provider can do, and how well.
pub fn ebpf_capabilities() -> (capabilities: Vec<CapabilityState>)
    ensures
        capability_views(capabilities@) == seq![
            CapabilityStateView {
                kind: CapabilityKind::Ebpf,
                status: CapabilityStatusView::Degraded { reason: EBPF_CAPABILITY_REASON@ },
            },
        ],
{
    let mut capabilities: Vec<CapabilityState> = Vec::new();
    capabilities.push(CapabilityState::degraded(CapabilityKind::Ebpf, EBPF_CAPABILITY_REASON));
    assert(capability_views(capabilities@) =~= seq![
        CapabilityStateView {
            kind: CapabilityKind::Ebpf,
            status: CapabilityStatusView::Degraded { reason: EBPF_CAPABILITY_REASON@ },
        },
    ]);
    capabilities
}

/// The provider: a source of observations, a resolver, and the state between them.
pub struct EbpfProcessObservationProvider {
    pub observations: ObservationLedger<Box<dyn EbpfObservationSource>>,
    pub resolver: ResolverLedger<Box<dyn EbpfSocketFlowResolver>>,
    pub state: EbpfObservationState,
    pub probe_snapshot: EbpfProcessObservationProbeSnapshot,
    pub runtime_diagnostics: EbpfProcessObservationRuntimeDiagnosticsCache,
}

impl EbpfProcessObservationProvider {
    pub open spec fn well_formed(&self) -> bool {
        self.state.well_formed()
    }

    /// What was exchanged with the source and with the resolver so far.
    pub open spec fn record(&self) -> Talk {
        records(self.observations, self.resolver)
    }

    /// A provider over probes that are loaded.
    pub fn open(
        observations: Box<dyn EbpfObservationSource>,
        resolver: Box<dyn EbpfSocketFlowResolver>,
        deep_observe_selector: Option<CompiledSelector>,
        process_payload_selector: Option<CompiledSelector>,
        probe_snapshot: EbpfProcessObservationProbeSnapshot,
    ) -> (provider: EbpfProcessObservationProvider)
        ensures
            provider.well_formed(),
            super::laws::sound(provider.state@),
            provider.state@ == ObservationStateView::fresh(
                selector_view(deep_observe_selector),
                selector_view(process_payload_selector),
            ),
            provider.runtime_diagnostics@ == DiagnosticsCacheView::fresh(),
            provider.probe_snapshot == probe_snapshot,
            provider.record() == Talk::none(),
    {
        EbpfProcessObservationProvider {
            observations: ObservationLedger::new(observations),
            resolver: ResolverLedger::new(resolver),
            state: EbpfObservationState::new(deep_observe_selector, process_payload_selector),
            probe_snapshot,
            runtime_diagnostics: EbpfProcessObservationRuntimeDiagnosticsCache::default(),
        }
    }

    pub fn name(&self) -> (name: &'static str)
        ensures
            name@ == "ebpf"@,
    {
        "ebpf"
    }

    pub fn probe_snapshot(&self) -> (snapshot: EbpfProcessObservationProbeSnapshot)
        ensures
            snapshot.link_ownership.programs@ == self.probe_snapshot.link_ownership.programs@,
            snapshot.optional_tracepoint_pairs@ == self.probe_snapshot.optional_tracepoint_pairs@,
    {
        self.probe_snapshot.clone()
    }

    /// Tells the kernel to sample every socket of a process; the answer is that of the source.
    pub fn allow_process_payload_sample(
        &mut self,
        authorization: ProcessPayloadSampleAuthorization,
    ) -> (answer: Result<(), CaptureError>)
        ensures
            final(self).probe_snapshot == old(self).probe_snapshot,
            final(self).runtime_diagnostics == old(self).runtime_diagnostics,
            final(self).state == old(self).state,
            final(self).record() == old(self).record().followed_by(
                Talk::with_source(SourceExchange::AllowProcess(authorization, answer_view(answer))),
            ),
    {
        self.observations.allow_process_payload_sample(authorization)
    }

    /// Tells the kernel to sample the sockets of a process no more; the answer is that of the
    /// source.
    pub fn revoke_process_payload_sample(&mut self, tgid: u32) -> (answer: Result<(), CaptureError>)
        ensures
            final(self).probe_snapshot == old(self).probe_snapshot,
            final(self).runtime_diagnostics == old(self).runtime_diagnostics,
            final(self).state == old(self).state,
            final(self).record() == old(self).record().followed_by(
                Talk::with_source(SourceExchange::RevokeProcess(tgid, answer_view(answer))),
            ),
    {
        self.observations.revoke_process_payload_sample(tgid)
    }

    /// One poll, at a moment of the caller's clocks.
    pub fn poll_next(&mut self, now_ns: u64, wall_time_unix_ns: i64) -> (poll: Result<
        CapturePoll,
        CaptureError,
    >)
        requires
            old(self).well_formed(),
        ensures
            final(self).probe_snapshot == old(self).probe_snapshot,
            final(self).runtime_diagnostics == old(self).runtime_diagnostics,
            final(self).well_formed(),
            exists|replies: PollReplies|
                (#[trigger] old(self).state@.running().polled(
                    now_ns,
                    wall_time_unix_ns,
                    replies,
                )).leads_to(
                    final(self).state@,
                    poll_view(poll),
                    old(self).record(),
                    final(self).record(),
                ),
    {
        self.state.poll_next(
            &mut self.observations,
            &mut self.resolver,
            now_ns,
            wall_time_unix_ns,
        )
    }

    /// One step of a drain before a handoff, at a moment of the caller's clocks.
    pub fn drain_before_handoff(&mut self, now_ns: u64, wall_time_unix_ns: i64) -> (poll: Result<
        CapturePoll,
        CaptureError,
    >)
        requires
            old(self).well_formed(),
        ensures
            final(self).probe_snapshot == old(self).probe_snapshot,
            final(self).runtime_diagnostics == old(self).runtime_diagnostics,
            final(self).well_formed(),
            exists|replies: PollReplies|
                (#[trigger] old(self).state@.drained_for_handoff(
                    now_ns,
                    wall_time_unix_ns,
                    replies,
                )).leads_to(
                    final(self).state@,
                    poll_view(poll),
                    old(self).record(),
                    final(self).record(),
                ),
    {
        self.state.drain_before_handoff(
            &mut self.observations,
            &mut self.resolver,
            now_ns,
            wall_time_unix_ns,
        )
    }

    /// Reads the firing counters, if what is known of them is no longer current. Where system
    /// calls are to move them next, the reading is handed back.
    pub fn begin_runtime_diagnostics(&mut self, now_ns: u64) -> (to_probe: Option<
        Vec<EbpfProcessObservationTracepointFiring>,
    >)
        ensures
            final(self).probe_snapshot == old(self).probe_snapshot,
            final(self).state == old(self).state,
            old(self).runtime_diagnostics@.current_at(now_ns) ==> (to_probe is None
                && final(self).runtime_diagnostics@ == old(self).runtime_diagnostics@
                && final(self).record() == old(self).record()),
            !old(self).runtime_diagnostics@.current_at(now_ns) ==> exists|reply: FiringsReply|
                #![trigger old(self).runtime_diagnostics@.after_reading(now_ns, reply)]
                final(self).runtime_diagnostics@ == old(self).runtime_diagnostics@.after_reading(
                    now_ns,
                    reply,
                ) && to_probe is Some == old(self).runtime_diagnostics@.asks_for_probe(reply)
                    && (to_probe matches Some(firings) ==> reply == Ok::<
                    Option<Seq<FiringView>>,
                    CaptureErrorView,
                >(Some(firing_views(firings@))))
                    && final(self).record() == old(self).record().followed_by(
                    Talk::with_source(SourceExchange::Firings(reply)),
                ),
    {
        if self.runtime_diagnostics.is_current(now_ns) {
            return None;
        }
        let ghost before = self.runtime_diagnostics@;
        let reply = self.observations.process_tracepoint_firings();
        let ghost seen = firings_reply(reply);
        let to_probe = self.runtime_diagnostics.take_reading(now_ns, reply);
        assert(self.runtime_diagnostics@ == before.after_reading(now_ns, seen));
        to_probe
    }

    /// Reads the firing counters again, once system calls that were to move them were made.
    pub fn finish_runtime_diagnostics(
        &mut self,
        before_firings: Vec<EbpfProcessObservationTracepointFiring>,
        triggered: Result<(), String>,
    )
        ensures
            final(self).probe_snapshot == old(self).probe_snapshot,
            final(self).state == old(self).state,
            exists|reply: FiringsReply|
                final(self).runtime_diagnostics@ == #[trigger] old(self).runtime_diagnostics@.after_probe(
                    super::diagnostics::firing_views(before_firings@),
                    super::diagnostics::triggered_view(triggered),
                    reply,
                ) && final(self).record() == old(self).record().followed_by(
                    if triggered is Ok {
                        Talk::with_source(SourceExchange::Firings(reply))
                    } else {
                        Talk::none()
                    },
                ),
    {
        let ghost before = self.runtime_diagnostics@;
        let ghost firings = super::diagnostics::firing_views(before_firings@);
        let ghost outcome = super::diagnostics::triggered_view(triggered);
        let reply = match &triggered {
            Ok(_) => self.observations.process_tracepoint_firings(),
            Err(_) => Ok(None),
        };
        let ghost seen = firings_reply(reply);
        self.runtime_diagnostics.take_probe(before_firings, triggered, reply);
        assert(self.runtime_diagnostics@ == before.after_probe(firings, outcome, seen));
    }

    /// What is known of the running probes.
    pub fn runtime_diagnostics(&self) -> (diagnostics: &EbpfProcessObservationRuntimeDiagnostics)
        ensures
            diagnostics@ == self.runtime_diagnostics@.snapshot,
    {
        &self.runtime_diagnostics.snapshot
    }
}

} // verus!
