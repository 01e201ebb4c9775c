//! Which end of a connection is the local one, and which process owns it.
use vstd::prelude::*;

use crate::address::{address_port, AddressPort, TcpConnection, TcpEndpoint};
use crate::libpcap::decoder::{DecodedTcpSegment, TcpSegmentView};
use crate::model::{
    optional_text, tcp_flow, Direction, FlowContext, FlowContextView, ProcessContext,
    ProcessContextView, ProcessIdentity, ProcessIdentityView,
};
use crate::octets::{starts_with, starts_with_text};
use crate::provider::{CaptureError, ResolvedProcess, ResolvedProcessView};

use super::ledger::{question_about, questions, ProcessExchange, ProcessLedger, ProcessQuestion};

verus! {

/// A way to read a segment: the direction that it travels in, and thereby the local end.
#[derive(Debug, Clone, Copy, PartialEq, Eq, Structural)]
pub struct FlowCandidate {
    pub direction: Direction,
    pub local_endpoint: TcpEndpoint,
    pub remote_endpoint: TcpEndpoint,
}

/// A segment read as travelling in `direction`.
pub open spec fn candidate_of(segment: TcpSegmentView, direction: Direction) -> FlowCandidate {
    match direction {
        Direction::Outbound => FlowCandidate {
            direction,
            local_endpoint: segment.source_end(),
            remote_endpoint: segment.destination_end(),
        },
        Direction::Inbound => FlowCandidate {
            direction,
            local_endpoint: segment.destination_end(),
            remote_endpoint: segment.source_end(),
        },
    }
}

impl FlowCandidate {
    pub fn from_decoded(decoded: &DecodedTcpSegment<'_>, direction: Direction) -> (candidate:
        FlowCandidate)
        ensures
            candidate == candidate_of(decoded@, direction),
    {
        let source = decoded.source_endpoint();
        let destination = decoded.destination_endpoint();
        match direction {
            Direction::Outbound => FlowCandidate {
                direction,
                local_endpoint: source,
                remote_endpoint: destination,
            },
            Direction::Inbound => FlowCandidate {
                direction,
                local_endpoint: destination,
                remote_endpoint: source,
            },
        }
    }
}

/// Whether a payload starts with the method of an HTTP request.
pub open spec fn is_http_request(payload: Seq<u8>) -> bool {
    ||| starts_with_text(payload, "GET "@)
    ||| starts_with_text(payload, "POST "@)
    ||| starts_with_text(payload, "PUT "@)
    ||| starts_with_text(payload, "PATCH "@)
    ||| starts_with_text(payload, "DELETE "@)
    ||| starts_with_text(payload, "HEAD "@)
    ||| starts_with_text(payload, "OPTIONS "@)
    ||| starts_with_text(payload, "CONNECT "@)
    ||| starts_with_text(payload, "TRACE "@)
}

fn looks_like_http_request(payload: &[u8]) -> (request: bool)
    ensures
        request == is_http_request(payload@),
{
    starts_with(payload, "GET ") || starts_with(payload, "POST ")
        || starts_with(payload, "PUT ") || starts_with(payload, "PATCH ")
        || starts_with(payload, "DELETE ") || starts_with(payload, "HEAD ")
        || starts_with(payload, "OPTIONS ") || starts_with(payload, "CONNECT ")
        || starts_with(payload, "TRACE ")
}

/// Whether a port is one that servers listen on.
pub open spec fn is_server_port(port: u16) -> bool {
    port == 80 || port == 443 || port == 8000 || port == 8080 || port == 8443
}

fn looks_like_server_port(port: u16) -> (server: bool)
    ensures
        server == is_server_port(port),
{
    port == 80 || port == 443 || port == 8000 || port == 8080 || port == 8443
}

/// The direction that a first segment most likely travels in: a response comes in, a request goes
/// out, and otherwise what comes from a server's port comes in.
pub open spec fn likely_direction(segment: TcpSegmentView) -> Direction {
    if starts_with_text(segment.payload, "HTTP/"@) {
        Direction::Inbound
    } else if is_http_request(segment.payload) {
        Direction::Outbound
    } else if is_server_port(segment.source_port) && !is_server_port(segment.destination_port) {
        Direction::Inbound
    } else {
        Direction::Outbound
    }
}

pub fn infer_initial_direction(decoded: &DecodedTcpSegment<'_>) -> (direction: Direction)
    ensures
        direction == likely_direction(decoded@),
{
    if starts_with(decoded.payload, "HTTP/") {
        return Direction::Inbound;
    }
    if looks_like_http_request(decoded.payload) {
        return Direction::Outbound;
    }
    if looks_like_server_port(decoded.source_port) && !looks_like_server_port(
        decoded.destination_port,
    ) {
        return Direction::Inbound;
    }
    Direction::Outbound
}

/// What a resolver said when it was asked for a process.
pub type ResolverReply = Result<Option<ResolvedProcess>, CaptureError>;

/// A resolver's reply, with a failure in words.
#[verifier::ext_equal]
pub enum ResolverReplyView {
    Found(ResolvedProcessView),
    Unknown,
    Failed(Seq<char>),
}

pub open spec fn reply_view(reply: ResolverReply) -> ResolverReplyView {
    match reply {
        Ok(Some(resolved)) => ResolverReplyView::Found(resolved@),
        Ok(None) => ResolverReplyView::Unknown,
        Err(error) => ResolverReplyView::Failed(error@.text()),
    }
}

/// The views of a sequence of replies.
pub open spec fn reply_views(replies: Seq<ResolverReply>) -> Seq<ResolverReplyView> {
    replies.map_values(|reply: ResolverReply| reply_view(reply))
}

/// The reading of a segment that was settled on, with the process behind its local end.
#[derive(Debug)]
pub struct SelectedFlowCandidate {
    pub direction: Direction,
    pub local_endpoint: TcpEndpoint,
    pub process: ProcessContext,
    pub confidence: u8,
    pub attribution_failure: Option<String>,
}

#[verifier::ext_equal]
pub struct SelectedFlowCandidateView {
    pub direction: Direction,
    pub local_endpoint: TcpEndpoint,
    pub process: ProcessContextView,
    pub confidence: u8,
    pub attribution_failure: Option<Seq<char>>,
}

impl View for SelectedFlowCandidate {
    type V = SelectedFlowCandidateView;

    open spec fn view(&self) -> SelectedFlowCandidateView {
        SelectedFlowCandidateView {
            direction: self.direction,
            local_endpoint: self.local_endpoint,
            process: self.process@,
            confidence: self.confidence,
            attribution_failure: optional_text(self.attribution_failure),
        }
    }
}

/// The process that stands in where none was found.
pub open spec fn synthetic_process() -> ProcessContextView {
    ProcessContextView {
        identity: ProcessIdentityView {
            pid: 0,
            tgid: 0,
            start_time_ticks: 0,
            boot_id: "libpcap"@,
            exe_path: "unknown"@,
            cmdline_hash: "unknown"@,
            uid: 0,
            gid: 0,
            cgroup: None,
            systemd_service: None,
            container_id: None,
            runtime_hint: Some("libpcap_fallback"@),
        },
        name: "unknown"@,
        cmdline: Seq::empty(),
    }
}

pub fn synthetic_libpcap_process() -> (process: ProcessContext)
    ensures
        process@ == synthetic_process(),
{
    let cmdline: Vec<String> = Vec::new();
    assert(crate::text::texts(cmdline@) =~= Seq::<Seq<char>>::empty());
    ProcessContext {
        identity: ProcessIdentity {
            pid: 0,
            tgid: 0,
            start_time_ticks: 0,
            boot_id: "libpcap".to_owned(),
            exe_path: "unknown".to_owned(),
            cmdline_hash: "unknown".to_owned(),
            uid: 0,
            gid: 0,
            cgroup: None,
            systemd_service: None,
            container_id: None,
            runtime_hint: Some("libpcap_fallback".to_owned()),
        },
        name: "unknown".to_owned(),
        cmdline,
    }
}

/// The first failure among replies.
pub open spec fn first_failure(replies: Seq<ResolverReplyView>) -> Option<Seq<char>>
    decreases replies.len(),
{
    if replies.len() == 0 {
        None
    } else {
        match first_failure(replies.drop_last()) {
            Some(failure) => Some(failure),
            None => match replies.last() {
                ResolverReplyView::Failed(failure) => Some(failure),
                _ => None,
            },
        }
    }
}

/// The index of the first reply that found a process; the length where none did.
pub open spec fn first_found(replies: Seq<ResolverReplyView>) -> nat
    decreases replies.len(),
{
    if replies.len() == 0 || replies[0] is Found {
        0
    } else {
        1 + first_found(replies.drop_first())
    }
}

/// The reading that was asked about `step`-th: the two take turns.
pub open spec fn asked_about(
    primary: FlowCandidate,
    secondary: FlowCandidate,
    step: int,
) -> FlowCandidate {
    if step % 2 == 0 {
        primary
    } else {
        secondary
    }
}

/// The reading that replies lead to: the one about which the first process was found, or else the
/// primary one, with a process that stands in and the first failure.
pub open spec fn selection(
    primary: FlowCandidate,
    secondary: FlowCandidate,
    replies: Seq<ResolverReplyView>,
) -> SelectedFlowCandidateView {
    let step = first_found(replies);
    if step < replies.len() {
        let candidate = asked_about(primary, secondary, step as int);
        let resolved = replies[step as int]->Found_0;
        SelectedFlowCandidateView {
            direction: candidate.direction,
            local_endpoint: candidate.local_endpoint,
            process: resolved.process,
            confidence: resolved.confidence,
            attribution_failure: None,
        }
    } else {
        SelectedFlowCandidateView {
            direction: primary.direction,
            local_endpoint: primary.local_endpoint,
            process: synthetic_process(),
            confidence: 0,
            attribution_failure: first_failure(replies),
        }
    }
}

/// How many questions a resolver is asked at most: three kinds about each of two readings.
pub const MAX_QUESTIONS: usize = 6;

/// Whether `replies` are what a resolver can have said: without one nothing, and otherwise
/// replies to all questions or up to the first process found, after which nothing is asked.
pub open spec fn complete_replies(has_resolver: bool, replies: Seq<ResolverReplyView>) -> bool {
    &&& replies.len() <= MAX_QUESTIONS
    &&& has_resolver ==> replies.len() == MAX_QUESTIONS || (replies.len() > 0 && replies.last()
        is Found)
    &&& !has_resolver ==> replies.len() == 0
    &&& forall|step: int| 0 <= step < replies.len() - 1 ==> !((#[trigger] replies[step]) is Found)
}

/// The reading that replies lead to.
pub fn select_from_replies(
    primary: FlowCandidate,
    secondary: FlowCandidate,
    replies: Vec<ResolverReply>,
) -> (selected: SelectedFlowCandidate)
    ensures
        selected@ == selection(primary, secondary, reply_views(replies@)),
{
    let ghost views = reply_views(replies@);
    let ghost all = replies@;
    let total: usize = replies.len();
    let mut rest = replies;
    let mut attribution_failure: Option<String> = None;
    let mut step: usize = 0;
    assert(rest@ =~= all.skip(0));
    assert(views.skip(0) =~= views);
    assert(views.take(0) =~= Seq::<ResolverReplyView>::empty());
    while rest.len() > 0
        invariant
            step <= all.len() == views.len() == total,
            all == replies@,
            all.len() - step == rest@.len(),
            rest@ == all.skip(step as int),
            views == reply_views(all),
            first_found(views) == step + first_found(views.skip(step as int)),
            optional_text(attribution_failure) == first_failure(views.take(step as int)),
        decreases rest.len(),
    {
        let reply = rest.remove(0);
        proof {
            assert(reply == all[step as int]);
            assert(rest@ =~= all.skip(step + 1));
            assert(views[step as int] == reply_view(reply));
            assert(views.skip(step as int)[0] == reply_view(reply));
            assert(views.skip(step as int).drop_first() =~= views.skip(step + 1));
            assert(views.take(step + 1).drop_last() =~= views.take(step as int));
            assert(views.take(step + 1).last() == reply_view(reply));
        }
        match reply {
            Ok(Some(resolved)) => {
                let candidate = if step % 2 == 0 {
                    primary
                } else {
                    secondary
                };
                return SelectedFlowCandidate {
                    direction: candidate.direction,
                    local_endpoint: candidate.local_endpoint,
                    process: resolved.process,
                    confidence: resolved.confidence,
                    attribution_failure: None,
                };
            },
            Ok(None) => {},
            Err(error) => {
                if attribution_failure.is_none() {
                    attribution_failure = Some(error.message());
                }
            },
        }
        step = step + 1;
    }
    assert(views.take(step as int) =~= views);
    assert(views.skip(step as int).len() == 0);
    SelectedFlowCandidate {
        direction: primary.direction,
        local_endpoint: primary.local_endpoint,
        process: synthetic_libpcap_process(),
        confidence: 0,
        attribution_failure,
    }
}

/// What a resolver is asked `step`-th about a reading of a segment.
fn question_for(candidate: &FlowCandidate, step: usize) -> (question: ProcessQuestion)
    ensures
        question == question_about(*candidate, step as int),
{
    if step < 2 {
        ProcessQuestion::Connection(
            TcpConnection::new(candidate.local_endpoint, candidate.remote_endpoint),
        )
    } else if step < 4 {
        ProcessQuestion::Listener(candidate.local_endpoint)
    } else {
        ProcessQuestion::Port(candidate.local_endpoint.port)
    }
}

/// The reading of a segment that a resolver's replies lead to. Each kind of question is put about
/// the primary reading and then about the secondary one, until a process is found.
pub fn select_flow_candidate(
    primary: FlowCandidate,
    secondary: FlowCandidate,
    process_resolver: &mut ProcessLedger,
) -> (selected: SelectedFlowCandidate)
    ensures
        final(process_resolver).has_resolver() == old(process_resolver).has_resolver(),
        exists|replies: Seq<ResolverReplyView>| #[trigger]
            complete_replies(old(process_resolver).has_resolver(), replies) && selected@
                == selection(primary, secondary, replies) && final(process_resolver).record()
                == old(process_resolver).record() + questions(primary, secondary, replies),
{
    let mut replies: Vec<ResolverReply> = Vec::new();
    let ghost before = process_resolver.record();
    let ghost has_resolver = process_resolver.has_resolver();
    assert(before + questions(primary, secondary, reply_views(replies@)) =~= before);
    if process_resolver.is_present() {
        let mut found = false;
        while replies.len() < MAX_QUESTIONS && !found
            invariant
                replies.len() <= MAX_QUESTIONS,
                found ==> replies.len() > 0 && replies@.last() matches Ok(Some(_)),
                forall|step: int|
                    0 <= step < replies.len() - 1 ==> !((#[trigger] reply_views(replies@)[step])
                        is Found),
                !found && replies.len() > 0 ==> !(reply_views(replies@).last() is Found),
                has_resolver,
                process_resolver.has_resolver(),
                process_resolver.record() == before + questions(
                    primary,
                    secondary,
                    reply_views(replies@),
                ),
            decreases MAX_QUESTIONS - replies.len(),
        {
            let step: usize = replies.len();
            let candidate = if step % 2 == 0 {
                primary
            } else {
                secondary
            };
            let ghost earlier = replies@;
            let reply = process_resolver.ask(question_for(&candidate, step));
            found = matches!(reply, Ok(Some(_)));
            replies.push(reply);
            proof {
                let asked = questions(primary, secondary, reply_views(earlier));
                let longer = questions(primary, secondary, reply_views(replies@));
                assert(longer =~= asked.push(
                    ProcessExchange::Asked(
                        question_about(candidate, step as int),
                        reply_view(replies@[step as int]),
                    ),
                ));
                assert(process_resolver.record() =~= before + longer);
                let seen = reply_views(replies@);
                assert forall|step: int| 0 <= step < seen.len() - 1 implies !(
                (#[trigger] seen[step]) is Found) by {
                    assert(seen[step] == reply_views(earlier)[step]);
                }
            }
        }
    }
    assert(complete_replies(has_resolver, reply_views(replies@)));
    select_from_replies(primary, secondary, replies)
}

/// The flow that a segment, read as travelling in `direction`, belongs to.
pub open spec fn flow_of(
    segment: TcpSegmentView,
    direction: Direction,
    process: ProcessContextView,
    attribution_confidence: u8,
    start_monotonic_ns: u64,
) -> FlowContextView {
    let candidate = candidate_of(segment, direction);
    tcp_flow(
        process,
        address_port(candidate.local_endpoint),
        address_port(candidate.remote_endpoint),
        start_monotonic_ns,
        None,
        attribution_confidence,
    )
}

pub fn flow_from_decoded(
    decoded: &DecodedTcpSegment<'_>,
    direction: Direction,
    process: ProcessContext,
    attribution_confidence: u8,
    start_monotonic_ns: u64,
) -> (flow: FlowContext)
    ensures
        flow@ == flow_of(
            decoded@,
            direction,
            process@,
            attribution_confidence,
            start_monotonic_ns,
        ),
{
    let candidate = FlowCandidate::from_decoded(decoded, direction);
    FlowContext::tcp(
        process,
        AddressPort::from_endpoint(candidate.local_endpoint),
        AddressPort::from_endpoint(candidate.remote_endpoint),
        start_monotonic_ns,
        None,
        attribution_confidence,
    )
}

/// A request going out and its response coming in belong to the same flow: read in opposite
/// directions, two segments between the same ends with their roles exchanged give one flow.
pub proof fn law_opposite_segments_share_flow(
    segment: TcpSegmentView,
    answer: TcpSegmentView,
    direction: Direction,
    process: ProcessContextView,
    attribution_confidence: u8,
    start_monotonic_ns: u64,
)
    requires
        answer.source_end() == segment.destination_end(),
        answer.destination_end() == segment.source_end(),
    ensures
        flow_of(segment, direction, process, attribution_confidence, start_monotonic_ns)
            == flow_of(
            answer,
            direction.opposite_of(),
            process,
            attribution_confidence,
            start_monotonic_ns,
        ),
{
}

} // verus!
