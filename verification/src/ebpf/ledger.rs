//! What is asked of a source of observations and of a resolver, and what they reply.
use vstd::prelude::*;

use crate::model::ProcessContext;
use crate::provider::{CaptureError, CaptureErrorView};

use super::bridge::{
    EbpfListenSocketLookup, EbpfListenSocketLookupView, EbpfProcessHint, EbpfProcessHintView,
    EbpfResolvedListenSocket, EbpfResolvedSocketFlow, EbpfSocketFlowLookup,
    EbpfSocketFlowLookupView, EbpfSocketFlowResolver,
};
use super::descriptor_lease::DescriptorLeaseKey;
use super::diagnostics::{firings_reply, EbpfProcessObservationTracepointFiring, FiringsReply};
use super::observation_source::EbpfObservationSource;
use super::payload_authorization::{
    ProcessPayloadSampleAuthorization, SocketPayloadSampleAuthorization,
};
use super::resolution::{
    flow_reply, listen_reply, process_reply, processes_reply, FlowReply, ListenReply, ProcessReply,
    ProcessesReply,
};
use super::types::{EbpfProcessObservation, EbpfProcessObservationView};

verus! {

/// What a request was answered.
pub type Answer = Result<(), CaptureErrorView>;

/// A reply on the next observation.
pub type ObservationReply = Result<Option<EbpfProcessObservationView>, CaptureErrorView>;

/// A reading of the loss counter.
pub type CountReply = Result<u64, CaptureErrorView>;

/// The view of an answer.
pub open spec fn answer_view(answer: Result<(), CaptureError>) -> Answer {
    match answer {
        Ok(_) => Ok(()),
        Err(error) => Err(error@),
    }
}

/// The view of a reply on the next observation.
pub open spec fn observation_reply(
    reply: Result<Option<EbpfProcessObservation>, CaptureError>,
) -> ObservationReply {
    match reply {
        Ok(Some(observation)) => Ok(Some(observation@)),
        Ok(None) => Ok(None),
        Err(error) => Err(error@),
    }
}

/// The view of a reading of the loss counter.
pub open spec fn count_reply(reply: Result<u64, CaptureError>) -> CountReply {
    match reply {
        Ok(count) => Ok(count),
        Err(error) => Err(error@),
    }
}

/// One thing that a source of observations was asked for or told, and its reply.
#[verifier::ext_equal]
pub enum SourceExchange {
    Next(ObservationReply),
    AllowSocket(SocketPayloadSampleAuthorization, Answer),
    RevokeSocket(DescriptorLeaseKey, Answer),
    AllowProcess(ProcessPayloadSampleAuthorization, Answer),
    RevokeProcess(u32, Answer),
    LossCount(CountReply),
    Firings(FiringsReply),
}

/// One thing that a resolver was asked for or told, and its reply.
#[verifier::ext_equal]
pub enum ResolverExchange {
    Flow(EbpfSocketFlowLookupView, FlowReply),
    Process(u32, ProcessReply),
    Hinted(EbpfProcessHintView, ProcessesReply),
    Processes(ProcessesReply),
    Listen(EbpfListenSocketLookupView, ListenReply),
    Invalidate,
}

/// What was exchanged with a source of observations and with a resolver, each in its order.
#[verifier::ext_equal]
pub struct Talk {
    pub source: Seq<SourceExchange>,
    pub resolver: Seq<ResolverExchange>,
}

impl Talk {
    pub open spec fn none() -> Talk {
        Talk { source: Seq::empty(), resolver: Seq::empty() }
    }

    /// A single exchange with the source.
    pub open spec fn with_source(exchange: SourceExchange) -> Talk {
        Talk { source: seq![exchange], resolver: Seq::empty() }
    }

    /// Exchanges with the resolver.
    pub open spec fn with_resolver(exchanges: Seq<ResolverExchange>) -> Talk {
        Talk { source: Seq::empty(), resolver: exchanges }
    }

    /// What was exchanged, and then what was exchanged later.
    pub open spec fn followed_by(self, later: Talk) -> Talk {
        Talk { source: self.source + later.source, resolver: self.resolver + later.resolver }
    }
}

pub broadcast proof fn lemma_source_in_parts(
    first: Seq<SourceExchange>,
    second: Seq<SourceExchange>,
    third: Seq<SourceExchange>,
)
    ensures
        #[trigger] ((first + second) + third) == first + (second + third),
{
    assert((first + second) + third =~= first + (second + third));
}

pub broadcast proof fn lemma_source_then_nothing(first: Seq<SourceExchange>)
    ensures
        #[trigger] (first + Seq::<SourceExchange>::empty()) == first,
{
    assert(first + Seq::<SourceExchange>::empty() =~= first);
}

pub broadcast proof fn lemma_source_from_nothing(second: Seq<SourceExchange>)
    ensures
        #[trigger] (Seq::<SourceExchange>::empty() + second) == second,
{
    assert(Seq::<SourceExchange>::empty() + second =~= second);
}

pub broadcast proof fn lemma_resolver_in_parts(
    first: Seq<ResolverExchange>,
    second: Seq<ResolverExchange>,
    third: Seq<ResolverExchange>,
)
    ensures
        #[trigger] ((first + second) + third) == first + (second + third),
{
    assert((first + second) + third =~= first + (second + third));
}

pub broadcast proof fn lemma_resolver_then_nothing(first: Seq<ResolverExchange>)
    ensures
        #[trigger] (first + Seq::<ResolverExchange>::empty()) == first,
{
    assert(first + Seq::<ResolverExchange>::empty() =~= first);
}

pub broadcast proof fn lemma_resolver_from_nothing(second: Seq<ResolverExchange>)
    ensures
        #[trigger] (Seq::<ResolverExchange>::empty() + second) == second,
{
    assert(Seq::<ResolverExchange>::empty() + second =~= second);
}

pub broadcast group group_talk {
    lemma_source_in_parts,
    lemma_source_then_nothing,
    lemma_source_from_nothing,
    lemma_resolver_in_parts,
    lemma_resolver_then_nothing,
    lemma_resolver_from_nothing,
}

/// A source of observations, with the record of what was exchanged with it. Each exchange is one
/// call of the source, with what was told to it and what it replied.
pub struct ObservationLedger<O> {
    source: O,
    exchanges: Ghost<Seq<SourceExchange>>,
}

impl<O: EbpfObservationSource> ObservationLedger<O> {
    /// What was exchanged with the source so far.
    pub closed spec fn record(&self) -> Seq<SourceExchange> {
        self.exchanges@
    }

    pub closed spec fn inner(&self) -> O {
        self.source
    }

    pub fn new(source: O) -> (ledger: ObservationLedger<O>)
        ensures
            ledger.record() == Seq::<SourceExchange>::empty(),
            ledger.inner() == source,
    {
        ObservationLedger { source, exchanges: Ghost(Seq::empty()) }
    }

    pub fn source(&self) -> (source: &O)
        ensures
            *source == self.inner(),
    {
        &self.source
    }

    pub fn next_observation(&mut self) -> (reply: Result<
        Option<EbpfProcessObservation>,
        CaptureError,
    >)
        ensures
            final(self).record() == old(self).record() + seq![
                SourceExchange::Next(observation_reply(reply)),
            ],
            exists|asked: &mut O| #[trigger]
                call_ensures(O::next_observation, (asked,), reply) && *asked == old(self).inner()
                    && *final(asked) == final(self).inner(),
    {
        let reply = self.source.next_observation();
        self.exchanges = Ghost(
            self.exchanges@ + seq![SourceExchange::Next(observation_reply(reply))],
        );
        reply
    }

    pub fn allow_socket_payload_sample(
        &mut self,
        authorization: SocketPayloadSampleAuthorization,
    ) -> (answer: Result<(), CaptureError>)
        ensures
            final(self).record() == old(self).record() + seq![
                SourceExchange::AllowSocket(authorization, answer_view(answer)),
            ],
            exists|asked: &mut O| #[trigger]
                call_ensures(O::allow_socket_payload_sample, (asked, authorization), answer) && *asked == old(self).inner()
                    && *final(asked) == final(self).inner(),
    {
        let answer = self.source.allow_socket_payload_sample(authorization);
        self.exchanges = Ghost(
            self.exchanges@ + seq![
                SourceExchange::AllowSocket(authorization, answer_view(answer)),
            ],
        );
        answer
    }

    pub fn revoke_socket_payload_sample(&mut self, key: DescriptorLeaseKey) -> (answer: Result<
        (),
        CaptureError,
    >)
        ensures
            final(self).record() == old(self).record() + seq![
                SourceExchange::RevokeSocket(key, answer_view(answer)),
            ],
            exists|asked: &mut O| #[trigger]
                call_ensures(O::revoke_socket_payload_sample, (asked, key), answer) && *asked == old(self).inner()
                    && *final(asked) == final(self).inner(),
    {
        let answer = self.source.revoke_socket_payload_sample(key);
        self.exchanges = Ghost(
            self.exchanges@ + seq![SourceExchange::RevokeSocket(key, answer_view(answer))],
        );
        answer
    }

    pub fn allow_process_payload_sample(
        &mut self,
        authorization: ProcessPayloadSampleAuthorization,
    ) -> (answer: Result<(), CaptureError>)
        ensures
            final(self).record() == old(self).record() + seq![
                SourceExchange::AllowProcess(authorization, answer_view(answer)),
            ],
            exists|asked: &mut O| #[trigger]
                call_ensures(O::allow_process_payload_sample, (asked, authorization), answer) && *asked == old(self).inner()
                    && *final(asked) == final(self).inner(),
    {
        let answer = self.source.allow_process_payload_sample(authorization);
        self.exchanges = Ghost(
            self.exchanges@ + seq![
                SourceExchange::AllowProcess(authorization, answer_view(answer)),
            ],
        );
        answer
    }

    pub fn revoke_process_payload_sample(&mut self, tgid: u32) -> (answer: Result<(), CaptureError>)
        ensures
            final(self).record() == old(self).record() + seq![
                SourceExchange::RevokeProcess(tgid, answer_view(answer)),
            ],
            exists|asked: &mut O| #[trigger]
                call_ensures(O::revoke_process_payload_sample, (asked, tgid), answer) && *asked == old(self).inner()
                    && *final(asked) == final(self).inner(),
    {
        let answer = self.source.revoke_process_payload_sample(tgid);
        self.exchanges = Ghost(
            self.exchanges@ + seq![SourceExchange::RevokeProcess(tgid, answer_view(answer))],
        );
        answer
    }

    pub fn process_output_loss_count(&mut self) -> (reading: Result<u64, CaptureError>)
        ensures
            final(self).record() == old(self).record() + seq![
                SourceExchange::LossCount(count_reply(reading)),
            ],
            exists|asked: &mut O| #[trigger]
                call_ensures(O::process_output_loss_count, (asked,), reading) && *asked == old(self).inner()
                    && *final(asked) == final(self).inner(),
    {
        let reading = self.source.process_output_loss_count();
        self.exchanges = Ghost(
            self.exchanges@ + seq![SourceExchange::LossCount(count_reply(reading))],
        );
        reading
    }

    pub fn process_tracepoint_firings(&mut self) -> (reply: Result<
        Option<Vec<EbpfProcessObservationTracepointFiring>>,
        CaptureError,
    >)
        ensures
            final(self).record() == old(self).record() + seq![
                SourceExchange::Firings(firings_reply(reply)),
            ],
            exists|asked: &mut O| #[trigger]
                call_ensures(O::process_tracepoint_firings, (asked,), reply) && *asked == old(self).inner()
                    && *final(asked) == final(self).inner(),
    {
        let reply = self.source.process_tracepoint_firings();
        self.exchanges = Ghost(
            self.exchanges@ + seq![SourceExchange::Firings(firings_reply(reply))],
        );
        reply
    }
}

/// A resolver, with the record of what was exchanged with it. Each exchange is one call of the
/// resolver, with what it was asked and what it replied.
pub struct ResolverLedger<R> {
    resolver: R,
    exchanges: Ghost<Seq<ResolverExchange>>,
}

impl<R: EbpfSocketFlowResolver> ResolverLedger<R> {
    /// What was exchanged with the resolver so far.
    pub closed spec fn record(&self) -> Seq<ResolverExchange> {
        self.exchanges@
    }

    pub closed spec fn inner(&self) -> R {
        self.resolver
    }

    pub fn new(resolver: R) -> (ledger: ResolverLedger<R>)
        ensures
            ledger.record() == Seq::<ResolverExchange>::empty(),
            ledger.inner() == resolver,
    {
        ResolverLedger { resolver, exchanges: Ghost(Seq::empty()) }
    }

    pub fn resolver(&self) -> (resolver: &R)
        ensures
            *resolver == self.inner(),
    {
        &self.resolver
    }

    pub fn resolve_socket_flow(&mut self, lookup: EbpfSocketFlowLookup) -> (reply: Result<
        Option<EbpfResolvedSocketFlow>,
        CaptureError,
    >)
        ensures
            final(self).record() == old(self).record() + seq![
                ResolverExchange::Flow(lookup@, flow_reply(reply)),
            ],
            exists|asked: &mut R| #[trigger]
                call_ensures(R::resolve_socket_flow, (asked, lookup), reply) && *asked == old(self).inner()
                    && *final(asked) == final(self).inner(),
    {
        let ghost asked = lookup@;
        let reply = self.resolver.resolve_socket_flow(lookup);
        self.exchanges = Ghost(
            self.exchanges@ + seq![ResolverExchange::Flow(asked, flow_reply(reply))],
        );
        reply
    }

    pub fn resolve_process(&mut self, tgid: u32) -> (reply: Result<
        Option<ProcessContext>,
        CaptureError,
    >)
        ensures
            final(self).record() == old(self).record() + seq![
                ResolverExchange::Process(tgid, process_reply(reply)),
            ],
            exists|asked: &mut R| #[trigger]
                call_ensures(R::resolve_process, (asked, tgid), reply) && *asked == old(self).inner()
                    && *final(asked) == final(self).inner(),
    {
        let reply = self.resolver.resolve_process(tgid);
        self.exchanges = Ghost(
            self.exchanges@ + seq![ResolverExchange::Process(tgid, process_reply(reply))],
        );
        reply
    }

    pub fn resolve_processes_by_hint(&mut self, hint: EbpfProcessHint) -> (reply: Result<
        Vec<ProcessContext>,
        CaptureError,
    >)
        ensures
            final(self).record() == old(self).record() + seq![
                ResolverExchange::Hinted(hint@, processes_reply(reply)),
            ],
            exists|asked: &mut R| #[trigger]
                call_ensures(R::resolve_processes_by_hint, (asked, hint), reply) && *asked == old(self).inner()
                    && *final(asked) == final(self).inner(),
    {
        let ghost asked = hint@;
        let reply = self.resolver.resolve_processes_by_hint(hint);
        self.exchanges = Ghost(
            self.exchanges@ + seq![ResolverExchange::Hinted(asked, processes_reply(reply))],
        );
        reply
    }

    pub fn resolve_processes(&mut self) -> (reply: Result<Vec<ProcessContext>, CaptureError>)
        ensures
            final(self).record() == old(self).record() + seq![
                ResolverExchange::Processes(processes_reply(reply)),
            ],
            exists|asked: &mut R| #[trigger]
                call_ensures(R::resolve_processes, (asked,), reply) && *asked == old(self).inner()
                    && *final(asked) == final(self).inner(),
    {
        let reply = self.resolver.resolve_processes();
        self.exchanges = Ghost(
            self.exchanges@ + seq![ResolverExchange::Processes(processes_reply(reply))],
        );
        reply
    }

    pub fn resolve_listen_socket(&mut self, lookup: EbpfListenSocketLookup) -> (reply: Result<
        Option<EbpfResolvedListenSocket>,
        CaptureError,
    >)
        ensures
            final(self).record() == old(self).record() + seq![
                ResolverExchange::Listen(lookup@, listen_reply(reply)),
            ],
            exists|asked: &mut R| #[trigger]
                call_ensures(R::resolve_listen_socket, (asked, lookup), reply) && *asked == old(self).inner()
                    && *final(asked) == final(self).inner(),
    {
        let ghost asked = lookup@;
        let reply = self.resolver.resolve_listen_socket(lookup);
        self.exchanges = Ghost(
            self.exchanges@ + seq![ResolverExchange::Listen(asked, listen_reply(reply))],
        );
        reply
    }

    pub fn invalidate_cached_resolution(&mut self)
        ensures
            final(self).record() == old(self).record() + seq![ResolverExchange::Invalidate],
            exists|asked: &mut R| #[trigger]
                call_ensures(R::invalidate_cached_resolution, (asked,), ()) && *asked == old(self).inner()
                    && *final(asked) == final(self).inner(),
    {
        self.resolver.invalidate_cached_resolution();
        self.exchanges = Ghost(self.exchanges@ + seq![ResolverExchange::Invalidate]);
    }
}

/// What was exchanged with a source and with a resolver so far.
pub open spec fn records<O: EbpfObservationSource, R: EbpfSocketFlowResolver>(
    observations: ObservationLedger<O>,
    resolver: ResolverLedger<R>,
) -> Talk {
    Talk { source: observations.record(), resolver: resolver.record() }
}

} // verus!
