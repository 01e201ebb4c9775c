//! Asking a resolver for the flows and processes behind observations.
use vstd::prelude::*;

use crate::event::{CaptureEvent, CaptureEventView};
use crate::model::{ProcessContext, ProcessContextView, Timestamp};
use crate::provider::{CaptureError, CaptureErrorView};

use super::bridge::{
    accepted_event_from_listen_socket, accepted_flow, fits_hint, flow_lookup, listen_lookup,
    listen_socket_lookup, observed_flow, observed_hint, observed_opened_event, opened, opened_event_from_resolved,
    process_hint_from_observed, process_matches_hint, process_or_observed, process_view,
    resolved_flow, socket_flow_lookup, EbpfResolvedListenSocket, EbpfResolvedListenSocketView,
    EbpfResolvedSocketFlow, EbpfResolvedSocketFlowView, EbpfSocketFlowLookup,
    EbpfSocketFlowLookupView, EbpfSocketFlowResolver,
};
use super::ledger::{group_talk, ResolverExchange, ResolverLedger};
use super::types::{
    EbpfAcceptTracepointObservation, EbpfConnectTracepointObservation, EbpfObservedProcess,
};

verus! {

broadcast use group_talk;

/// A reply on the connection behind a descriptor.
pub type FlowReply = Result<Option<EbpfResolvedSocketFlowView>, CaptureErrorView>;

/// A reply on the listening socket behind a descriptor.
pub type ListenReply = Result<Option<EbpfResolvedListenSocketView>, CaptureErrorView>;

/// A reply on the process with a number.
pub type ProcessReply = Result<Option<ProcessContextView>, CaptureErrorView>;

/// A reply on the processes that a hint fits.
pub type ProcessesReply = Result<Seq<ProcessContextView>, CaptureErrorView>;

/// The view of a reply on a connection.
pub open spec fn flow_reply(
    reply: Result<Option<EbpfResolvedSocketFlow>, CaptureError>,
) -> FlowReply {
    match reply {
        Ok(Some(resolved)) => Ok(Some(resolved@)),
        Ok(None) => Ok(None),
        Err(error) => Err(error@),
    }
}

/// The view of a reply on a listening socket.
pub open spec fn listen_reply(
    reply: Result<Option<EbpfResolvedListenSocket>, CaptureError>,
) -> ListenReply {
    match reply {
        Ok(Some(resolved)) => Ok(Some(resolved@)),
        Ok(None) => Ok(None),
        Err(error) => Err(error@),
    }
}

/// The view of a reply on a process.
pub open spec fn process_reply(reply: Result<Option<ProcessContext>, CaptureError>) -> ProcessReply {
    match reply {
        Ok(Some(process)) => Ok(Some(process@)),
        Ok(None) => Ok(None),
        Err(error) => Err(error@),
    }
}

/// The views of some processes.
pub open spec fn context_views(processes: Seq<ProcessContext>) -> Seq<ProcessContextView> {
    processes.map_values(|process: ProcessContext| process@)
}

/// The view of a reply on several processes.
pub open spec fn processes_reply(
    reply: Result<Vec<ProcessContext>, CaptureError>,
) -> ProcessesReply {
    match reply {
        Ok(processes) => Ok(context_views(processes@)),
        Err(error) => Err(error@),
    }
}

/// The view of an event that may be missing or fail.
pub open spec fn event_result(result: Result<Option<CaptureEvent>, CaptureError>) -> Result<
    Option<CaptureEventView>,
    CaptureErrorView,
> {
    match result {
        Ok(Some(event)) => Ok(Some(event@)),
        Ok(None) => Ok(None),
        Err(error) => Err(error@),
    }
}

/// What a reply on a connection makes of the start of a flow.
pub open spec fn opened_by_reply(reply: FlowReply, timestamp: Timestamp) -> Result<
    Option<CaptureEventView>,
    CaptureErrorView,
> {
    match reply {
        Ok(Some(resolved)) => Ok(
            Some(opened(resolved_flow(resolved, timestamp.monotonic_ns), timestamp)),
        ),
        Ok(None) => Ok(None),
        Err(error) => Err(error),
    }
}

/// What a reply on a connection makes of the start of a flow.
pub fn opened_event_from_reply(
    reply: Result<Option<EbpfResolvedSocketFlow>, CaptureError>,
    timestamp: Timestamp,
) -> (event: Result<Option<CaptureEvent>, CaptureError>)
    ensures
        event_result(event) == opened_by_reply(flow_reply(reply), timestamp),
{
    match reply {
        Ok(Some(resolved)) => Ok(Some(opened_event_from_resolved(resolved, timestamp))),
        Ok(None) => Ok(None),
        Err(error) => Err(error),
    }
}

/// Asks for a connection and makes the start of its flow.
pub fn opened_event_from_lookup<R: EbpfSocketFlowResolver>(
    lookup: EbpfSocketFlowLookup,
    timestamp: Timestamp,
    resolver: &mut ResolverLedger<R>,
) -> (event: Result<Option<CaptureEvent>, CaptureError>)
    ensures
        exists|reply: FlowReply|
            event_result(event) == #[trigger] opened_by_reply(reply, timestamp)
                && final(resolver).record() == old(resolver).record() + asked_flow(lookup@, reply),
{
    let ghost asked = lookup@;
    let ghost before = resolver.record();
    let reply = resolver.resolve_socket_flow(lookup);
    let ghost seen = flow_reply(reply);
    let event = opened_event_from_reply(reply, timestamp);
    assert(event_result(event) == opened_by_reply(seen, timestamp) && resolver.record() == before
        + asked_flow(asked, seen));
    event
}

/// What is asked about a connection.
pub open spec fn asked_flow(lookup: EbpfSocketFlowLookupView, reply: FlowReply) -> Seq<
    ResolverExchange,
> {
    seq![ResolverExchange::Flow(lookup, reply)]
}

/// The connection that a connect is looked up by.
pub open spec fn connect_lookup(
    connect: EbpfConnectTracepointObservation,
) -> EbpfSocketFlowLookupView {
    flow_lookup(connect.process, connect.fd, connect.endpoint.remote())
}

/// The connection that an accept is looked up by.
pub open spec fn accept_lookup(accept: EbpfAcceptTracepointObservation) -> EbpfSocketFlowLookupView {
    flow_lookup(accept.process, accept.fd, accept.endpoint.remote())
}

pub fn connect_opened_event_from_observation<R: EbpfSocketFlowResolver>(
    connect: &EbpfConnectTracepointObservation,
    timestamp: Timestamp,
    resolver: &mut ResolverLedger<R>,
) -> (event: Result<Option<CaptureEvent>, CaptureError>)
    ensures
        exists|reply: FlowReply|
            event_result(event) == #[trigger] opened_by_reply(reply, timestamp)
                && final(resolver).record() == old(resolver).record() + asked_flow(
                connect_lookup(*connect),
                reply,
            ),
{
    let lookup = socket_flow_lookup(
        &connect.process,
        connect.fd,
        connect.endpoint.remote_endpoint(),
    );
    opened_event_from_lookup(lookup, timestamp, resolver)
}

pub fn accept_opened_event_from_observation<R: EbpfSocketFlowResolver>(
    accept: &EbpfAcceptTracepointObservation,
    timestamp: Timestamp,
    resolver: &mut ResolverLedger<R>,
) -> (event: Result<Option<CaptureEvent>, CaptureError>)
    ensures
        exists|reply: FlowReply|
            event_result(event) == #[trigger] opened_by_reply(reply, timestamp)
                && final(resolver).record() == old(resolver).record() + asked_flow(
                accept_lookup(*accept),
                reply,
            ),
{
    let lookup = socket_flow_lookup(&accept.process, accept.fd, accept.endpoint.remote_endpoint());
    opened_event_from_lookup(lookup, timestamp, resolver)
}

/// The process with an observed number, unless the hint shows that it is another one.
pub open spec fn direct_process(
    observed: EbpfObservedProcess,
    reply: ProcessReply,
) -> Option<ProcessContextView> {
    match reply {
        Ok(Some(process)) => match observed_hint(observed) {
            Some(hint) => if fits_hint(process, hint) {
                Some(process)
            } else {
                None
            },
            None => Some(process),
        },
        _ => None,
    }
}

/// The process with an observed number, unless the hint shows that it is another one.
pub fn process_from_reply(
    observed: &EbpfObservedProcess,
    reply: Result<Option<ProcessContext>, CaptureError>,
) -> (process: Option<ProcessContext>)
    ensures
        process_view(process) == direct_process(*observed, process_reply(reply)),
{
    match reply {
        Ok(Some(process)) => match process_hint_from_observed(observed) {
            Some(hint) => {
                if process_matches_hint(&process, &hint) {
                    Some(process)
                } else {
                    None
                }
            },
            None => Some(process),
        },
        Ok(None) => None,
        Err(_) => None,
    }
}

/// Asks for the process with an observed number.
pub fn resolve_observed_process<R: EbpfSocketFlowResolver>(
    resolver: &mut ResolverLedger<R>,
    observed: &EbpfObservedProcess,
) -> (process: Option<ProcessContext>)
    ensures
        exists|reply: ProcessReply|
            process_view(process) == #[trigger] direct_process(*observed, reply)
                && final(resolver).record() == old(resolver).record() + seq![
                ResolverExchange::Process(observed.tgid, reply),
            ],
{
    let ghost before = resolver.record();
    let reply = resolver.resolve_process(observed.tgid);
    let ghost seen = process_reply(reply);
    let process = process_from_reply(observed, reply);
    assert(process_view(process) == direct_process(*observed, seen) && resolver.record() == before
        + seq![ResolverExchange::Process(observed.tgid, seen)]);
    process
}

/// The process with a number, as it was told.
pub open spec fn told_process(reply: ProcessReply) -> Option<ProcessContextView> {
    match reply {
        Ok(Some(process)) => Some(process),
        _ => None,
    }
}

/// What is asked about the process with an observed number.
pub open spec fn asked_number(observed: EbpfObservedProcess, reply: ProcessReply) -> Seq<
    ResolverExchange,
> {
    seq![ResolverExchange::Process(observed.tgid, reply)]
}

/// The process with a number, as it was told.
pub fn told_process_from_reply(reply: Result<Option<ProcessContext>, CaptureError>) -> (process:
    Option<ProcessContext>)
    ensures
        process_view(process) == told_process(process_reply(reply)),
{
    match reply {
        Ok(Some(process)) => Some(process),
        Ok(None) => None,
        Err(_) => None,
    }
}

/// The one process that a hint fits.
pub open spec fn unique_process(reply: ProcessesReply) -> Option<ProcessContextView> {
    match reply {
        Ok(processes) => if processes.len() == 1 {
            Some(processes[0])
        } else {
            None
        },
        Err(_) => None,
    }
}

/// The one process that a hint fits.
pub fn unique_process_from_reply(
    reply: Result<Vec<ProcessContext>, CaptureError>,
) -> (process: Option<ProcessContext>)
    ensures
        process_view(process) == unique_process(processes_reply(reply)),
{
    match reply {
        Ok(mut processes) => {
            if processes.len() == 1 {
                let process = processes.remove(0);
                Some(process)
            } else {
                None
            }
        },
        Err(_) => None,
    }
}

/// The process behind an observed flow: the one with its number, if the hint allows it, or else
/// the one process that the hint fits.
pub open spec fn found_process(
    observed: EbpfObservedProcess,
    direct: ProcessReply,
    hinted: ProcessesReply,
) -> Option<ProcessContextView> {
    match direct_process(observed, direct) {
        Some(process) => Some(process),
        None => if observed_hint(observed) is Some {
            unique_process(hinted)
        } else {
            None
        },
    }
}

/// What is asked about the process behind an observed flow: the one with its number, and if that
/// does not do, those that the hint fits.
pub open spec fn asked_who(
    observed: EbpfObservedProcess,
    direct: ProcessReply,
    hinted: ProcessesReply,
) -> Seq<ResolverExchange> {
    let first = ResolverExchange::Process(observed.tgid, direct);
    if direct_process(observed, direct) is None && observed_hint(observed) is Some {
        seq![first, ResolverExchange::Hinted(observed_hint(observed)->0, hinted)]
    } else {
        seq![first]
    }
}

/// Asks for the process behind an observed flow.
pub fn resolve_flow_start_process<R: EbpfSocketFlowResolver>(
    resolver: &mut ResolverLedger<R>,
    observed: &EbpfObservedProcess,
) -> (process: Option<ProcessContext>)
    ensures
        exists|direct: ProcessReply, hinted: ProcessesReply|
            process_view(process) == #[trigger] found_process(*observed, direct, hinted)
                && final(resolver).record() == old(resolver).record() + asked_who(
                *observed,
                direct,
                hinted,
            ),
{
    let ghost before = resolver.record();
    let reply = resolver.resolve_process(observed.tgid);
    let ghost direct = process_reply(reply);
    match process_from_reply(observed, reply) {
        Some(process) => {
            let ghost hinted: ProcessesReply = Ok(Seq::empty());
            assert(Some(process@) == found_process(*observed, direct, hinted)
                && resolver.record() == before + asked_who(*observed, direct, hinted));
            Some(process)
        },
        None => match process_hint_from_observed(observed) {
            Some(hint) => {
                let candidates = resolver.resolve_processes_by_hint(hint);
                let ghost hinted = processes_reply(candidates);
                let process = unique_process_from_reply(candidates);
                assert(resolver.record() =~= before + asked_who(*observed, direct, hinted));
                assert(process_view(process) == found_process(*observed, direct, hinted)
                    && resolver.record() == before + asked_who(*observed, direct, hinted));
                process
            },
            None => {
                let ghost hinted: ProcessesReply = Ok(Seq::empty());
                assert(found_process(*observed, direct, hinted) is None && resolver.record()
                    == before + asked_who(*observed, direct, hinted));
                None
            },
        },
    }
}

/// What was replied when the connection behind the start of a flow could not be found.
#[verifier::ext_equal]
pub struct FallbackReplies {
    pub listen: ListenReply,
    pub direct: ProcessReply,
    pub hinted: ProcessesReply,
}

/// The start of a flow by a connect, by its observed remote end.
pub open spec fn observed_connect(
    connect: EbpfConnectTracepointObservation,
    timestamp: Timestamp,
    found: Option<ProcessContextView>,
) -> Option<CaptureEventView> {
    match connect.endpoint.remote() {
        Some(remote) => Some(
            opened(
                observed_flow(
                    process_or_observed(connect.process, found),
                    remote,
                    timestamp.monotonic_ns,
                ),
                timestamp,
            ),
        ),
        None => None,
    }
}

/// The start of a flow by an accept, by its observed remote end: the local end is that of the
/// listening socket, where that is found.
pub open spec fn observed_accept(
    accept: EbpfAcceptTracepointObservation,
    timestamp: Timestamp,
    replies: FallbackReplies,
) -> Result<Option<CaptureEventView>, CaptureErrorView> {
    match accept.endpoint.remote() {
        Some(remote) => match replies.listen {
            Ok(Some(listen)) => Ok(
                Some(opened(accepted_flow(listen, remote, timestamp.monotonic_ns), timestamp)),
            ),
            Ok(None) => Ok(
                Some(
                    opened(
                        observed_flow(
                            process_or_observed(
                                accept.process,
                                found_process(accept.process, replies.direct, replies.hinted),
                            ),
                            remote,
                            timestamp.monotonic_ns,
                        ),
                        timestamp,
                    ),
                ),
            ),
            Err(error) => Err(error),
        },
        None => Ok(None),
    }
}

/// The view of an event that may be missing.
pub open spec fn optional_event(event: Option<CaptureEvent>) -> Option<CaptureEventView> {
    match event {
        Some(inner) => Some(inner@),
        None => None,
    }
}

pub fn observed_connect_opened_event_from_observation(
    connect: &EbpfConnectTracepointObservation,
    timestamp: Timestamp,
    resolved_process: Option<ProcessContext>,
) -> (event: Option<CaptureEvent>)
    ensures
        optional_event(event) == observed_connect(
            *connect,
            timestamp,
            process_view(resolved_process),
        ),
{
    match connect.endpoint.remote_endpoint() {
        Some(remote) => Some(
            observed_opened_event(&connect.process, remote, timestamp, resolved_process),
        ),
        None => None,
    }
}

/// The start of a flow by an accept, by its observed remote end, once its listening socket or
/// its process was asked for.
pub fn observed_accept_event(
    accept: &EbpfAcceptTracepointObservation,
    timestamp: Timestamp,
    listen: Option<EbpfResolvedListenSocket>,
    process: Option<ProcessContext>,
) -> (event: Option<CaptureEvent>)
    ensures
        match accept.endpoint.remote() {
            Some(remote) => event is Some && event->0@ == opened(
                match listen {
                    Some(listening) => accepted_flow(listening@, remote, timestamp.monotonic_ns),
                    None => observed_flow(
                        process_or_observed(accept.process, process_view(process)),
                        remote,
                        timestamp.monotonic_ns,
                    ),
                },
                timestamp,
            ),
            None => event is None,
        },
{
    match accept.endpoint.remote_endpoint() {
        Some(remote) => match listen {
            Some(listening) => Some(
                accepted_event_from_listen_socket(listening, remote, timestamp),
            ),
            None => Some(observed_opened_event(&accept.process, remote, timestamp, process)),
        },
        None => None,
    }
}

/// What is asked about an accept whose connection was not found: its listening socket, and the
/// process if that is not found either.
pub open spec fn asked_accept(
    accept: EbpfAcceptTracepointObservation,
    replies: FallbackReplies,
) -> Seq<ResolverExchange> {
    if accept.endpoint.remote() is None {
        Seq::empty()
    } else {
        let first = seq![ResolverExchange::Listen(listen_lookup(accept), replies.listen)];
        if replies.listen == Ok::<_, CaptureErrorView>(None::<EbpfResolvedListenSocketView>) {
            first + asked_who(accept.process, replies.direct, replies.hinted)
        } else {
            first
        }
    }
}

pub fn observed_accept_opened_event_from_observation<R: EbpfSocketFlowResolver>(
    accept: &EbpfAcceptTracepointObservation,
    timestamp: Timestamp,
    resolver: &mut ResolverLedger<R>,
) -> (event: Result<Option<CaptureEvent>, CaptureError>)
    ensures
        exists|replies: FallbackReplies|
            event_result(event) == #[trigger] observed_accept(*accept, timestamp, replies)
                && final(resolver).record() == old(resolver).record() + asked_accept(
                *accept,
                replies,
            ),
{
    let ghost before = resolver.record();
    let ghost unasked = FallbackReplies {
        listen: Ok(None),
        direct: Ok(None),
        hinted: Ok(Seq::empty()),
    };
    if accept.endpoint.remote_endpoint().is_none() {
        let event: Result<Option<CaptureEvent>, CaptureError> = Ok(None);
        assert(event_result(event) == observed_accept(*accept, timestamp, unasked)
                && resolver.record() == before + asked_accept(*accept, unasked));
        return event;
    }
    let reply = resolver.resolve_listen_socket(listen_socket_lookup(accept));
    let ghost listen = listen_reply(reply);
    let ghost asked = resolver.record();
    match reply {
        Ok(Some(listening)) => {
            let event: Result<Option<CaptureEvent>, CaptureError> = Ok(
                observed_accept_event(accept, timestamp, Some(listening), None),
            );
            let ghost replies = FallbackReplies { listen, ..unasked };
            assert(event_result(event) == observed_accept(*accept, timestamp, replies)
                && resolver.record() == before + asked_accept(*accept, replies));
            event
        },
        Ok(None) => {
            let process = resolve_flow_start_process(resolver, &accept.process);
            let ghost (direct, hinted) = choose|direct: ProcessReply, hinted: ProcessesReply|
                process_view(process) == #[trigger] found_process(accept.process, direct, hinted)
                    && resolver.record() == asked + asked_who(accept.process, direct, hinted);
            let event: Result<Option<CaptureEvent>, CaptureError> = Ok(
                observed_accept_event(accept, timestamp, None, process),
            );
            let ghost replies = FallbackReplies { listen, direct, hinted };
            assert(event_result(event) == observed_accept(*accept, timestamp, replies)
                && resolver.record() == before + asked_accept(*accept, replies));
            event
        },
        Err(error) => {
            let event: Result<Option<CaptureEvent>, CaptureError> = Err(error);
            let ghost replies = FallbackReplies { listen, ..unasked };
            assert(event_result(event) == observed_accept(*accept, timestamp, replies)
                && resolver.record() == before + asked_accept(*accept, replies));
            event
        },
    }
}

} // verus!
