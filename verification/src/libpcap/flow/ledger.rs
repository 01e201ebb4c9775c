//! What is asked of a resolver of processes, and what it replies.
use vstd::prelude::*;

use crate::address::{TcpConnection, TcpEndpoint};
use crate::libpcap::flow::candidate::{
    asked_about, reply_view, FlowCandidate, ResolverReply, ResolverReplyView,
};
use crate::provider::ProcessResolver;

verus! {

/// What a resolver can be asked about.
#[derive(Debug, Clone, Copy, PartialEq, Eq, Structural)]
pub enum ProcessQuestion {
    /// The owner of a connection.
    Connection(TcpConnection),
    /// The owner of a listener on an endpoint.
    Listener(TcpEndpoint),
    /// The only owner of listeners on a port.
    Port(u16),
}

/// One thing that a resolver was asked or told, and its reply.
#[verifier::ext_equal]
pub enum ProcessExchange {
    Asked(ProcessQuestion, ResolverReplyView),
    Invalidate,
}

/// What is asked about a reading of a segment: first for the owner of the connection, then for
/// that of a listener on the local end, and last for the only owner of listeners on its port.
pub open spec fn question_about(candidate: FlowCandidate, step: int) -> ProcessQuestion {
    if step < 2 {
        ProcessQuestion::Connection(
            TcpConnection { local: candidate.local_endpoint, remote: candidate.remote_endpoint },
        )
    } else if step < 4 {
        ProcessQuestion::Listener(candidate.local_endpoint)
    } else {
        ProcessQuestion::Port(candidate.local_endpoint.port)
    }
}

/// The questions about two readings of a segment, with their replies.
pub open spec fn questions(
    primary: FlowCandidate,
    secondary: FlowCandidate,
    replies: Seq<ResolverReplyView>,
) -> Seq<ProcessExchange> {
    Seq::new(
        replies.len(),
        |step: int|
            ProcessExchange::Asked(
                question_about(asked_about(primary, secondary, step), step),
                replies[step],
            ),
    )
}

/// A resolver, if there is one, with the record of what was exchanged with it. Each exchange is one
/// call of the resolver.
pub struct ProcessLedger {
    resolver: Option<Box<dyn ProcessResolver>>,
    exchanges: Ghost<Seq<ProcessExchange>>,
}

impl ProcessLedger {
    /// What was exchanged with the resolver so far.
    pub closed spec fn record(&self) -> Seq<ProcessExchange> {
        self.exchanges@
    }

    /// The resolver, if there is one.
    pub closed spec fn inner(&self) -> Option<Box<dyn ProcessResolver>> {
        self.resolver
    }

    pub open spec fn has_resolver(&self) -> bool {
        self.inner() is Some
    }

    pub fn new(resolver: Option<Box<dyn ProcessResolver>>) -> (ledger: ProcessLedger)
        ensures
            ledger.record() == Seq::<ProcessExchange>::empty(),
            ledger.inner() == resolver,
    {
        ProcessLedger { resolver, exchanges: Ghost(Seq::empty()) }
    }

    /// Whether there is a resolver.
    pub fn is_present(&self) -> (present: bool)
        ensures
            present == self.has_resolver(),
    {
        self.resolver.is_some()
    }

    /// Asks the resolver. Where there is none, nothing is known.
    pub fn ask(&mut self, question: ProcessQuestion) -> (reply: ResolverReply)
        ensures
            final(self).has_resolver() == old(self).has_resolver(),
            old(self).has_resolver() ==> final(self).record() == old(self).record().push(
                ProcessExchange::Asked(question, reply_view(reply)),
            ),
            old(self).has_resolver() ==> (question matches ProcessQuestion::Connection(connection)
                ==> exists|asked: &mut Box<dyn ProcessResolver>| #[trigger]
                call_ensures(
                    <Box<dyn ProcessResolver> as ProcessResolver>::resolve_tcp_process,
                    (asked, connection),
                    reply,
                ) && *asked == old(self).inner()->0 && *final(asked) == final(self).inner()->0),
            old(self).has_resolver() ==> (question matches ProcessQuestion::Listener(endpoint)
                ==> exists|asked: &mut Box<dyn ProcessResolver>| #[trigger]
                call_ensures(
                    <Box<dyn ProcessResolver> as ProcessResolver>::resolve_tcp_listener,
                    (asked, endpoint),
                    reply,
                ) && *asked == old(self).inner()->0 && *final(asked) == final(self).inner()->0),
            old(self).has_resolver() ==> (question matches ProcessQuestion::Port(port)
                ==> exists|asked: &mut Box<dyn ProcessResolver>| #[trigger]
                call_ensures(
                    <Box<dyn ProcessResolver> as ProcessResolver>::resolve_unique_tcp_listener_owner_by_port,
                    (asked, port),
                    reply,
                ) && *asked == old(self).inner()->0 && *final(asked) == final(self).inner()->0),
            !old(self).has_resolver() ==> final(self).record() == old(self).record() && reply
                matches Ok(None),
    {
        match &mut self.resolver {
            Some(resolver) => {
                let reply = match question {
                    ProcessQuestion::Connection(connection) => resolver.resolve_tcp_process(
                        connection,
                    ),
                    ProcessQuestion::Listener(endpoint) => resolver.resolve_tcp_listener(endpoint),
                    ProcessQuestion::Port(port) =>
                        resolver.resolve_unique_tcp_listener_owner_by_port(port),
                };
                self.exchanges = Ghost(
                    self.exchanges@.push(ProcessExchange::Asked(question, reply_view(reply))),
                );
                reply
            },
            None => Ok(None),
        }
    }

    /// Tells the resolver to forget what it remembers.
    pub fn invalidate_cached_resolution(&mut self)
        ensures
            final(self).has_resolver() == old(self).has_resolver(),
            final(self).record() == (if old(self).has_resolver() {
                old(self).record().push(ProcessExchange::Invalidate)
            } else {
                old(self).record()
            }),
            old(self).has_resolver() ==> exists|asked: &mut Box<dyn ProcessResolver>| #[trigger]
                call_ensures(
                    <Box<dyn ProcessResolver> as ProcessResolver>::invalidate_cached_resolution,
                    (asked,),
                    (),
                ) && *asked == old(self).inner()->0 && *final(asked) == final(self).inner()->0,
    {
        if let Some(resolver) = &mut self.resolver {
            resolver.invalidate_cached_resolution();
            self.exchanges = Ghost(self.exchanges@.push(ProcessExchange::Invalidate));
        }
    }
}

} // verus!
