//! Which end of a connection is taken for the local one.
use vstd::prelude::*;

use crate::address::{address_port, TcpConnection, TcpEndpoint};
use crate::libpcap::decoder::TcpSegmentView;
use crate::libpcap::flow::candidate::{
    complete_replies, first_failure, first_found, likely_direction, ResolverReplyView,
};
use crate::libpcap::flow::ledger::{questions, ProcessQuestion};
use crate::libpcap::flow::record::{connection_between, connection_of, FlowRecordView};
use crate::libpcap::flow::tracking::{
    opened_record, primary_reading, secondary_reading, selected_for,
};
use crate::model::{Direction, Timestamp};
use crate::octets::starts_with_text;

verus! {

/// Whether a payload is the start of an HTTP response.
pub open spec fn answers(payload: Seq<u8>) -> bool {
    starts_with_text(payload, "HTTP/"@)
}

/// Whether a payload is the start of an HTTP request with one of nine methods.
pub open spec fn requests(payload: Seq<u8>) -> bool {
    exists|method: Seq<char>| #[trigger]
        is_method(method) && starts_with_text(payload, method + " "@)
}

pub open spec fn is_method(method: Seq<char>) -> bool {
    method == "GET"@ || method == "POST"@ || method == "PUT"@ || method == "PATCH"@ || method
        == "DELETE"@ || method == "HEAD"@ || method == "OPTIONS"@ || method == "CONNECT"@ || method
        == "TRACE"@
}

/// Whether a port is one of those on which servers of HTTP listen.
pub open spec fn serves(port: u16) -> bool {
    set![80u16, 443, 8000, 8080, 8443].contains(port)
}

/// Whether none of the replies found a process.
pub open spec fn nobody_found(replies: Seq<ResolverReplyView>) -> bool {
    forall|step: int| 0 <= step < replies.len() ==> !((#[trigger] replies[step]) is Found)
}

/// The flow that is opened for the first segment of a connection.
pub open spec fn opened_for(
    segment: TcpSegmentView,
    timestamp: Timestamp,
    replies: Seq<ResolverReplyView>,
) -> FlowRecordView {
    opened_record(segment, timestamp, selected_for(segment, replies))
}

/// Whether a connection is taken for one between a local and a remote end: both its flow and the
/// way its segments are read tell so.
pub open spec fn lies_between(
    record: FlowRecordView,
    local: TcpEndpoint,
    remote: TcpEndpoint,
) -> bool {
    &&& record.local_endpoint == local
    &&& record.flow.local == address_port(local)
    &&& record.flow.remote == address_port(remote)
}

proof fn lemma_nobody_found(replies: Seq<ResolverReplyView>)
    requires
        nobody_found(replies),
    ensures
        first_found(replies) == replies.len(),
    decreases replies.len(),
{
    if replies.len() > 0 {
        let rest = replies.drop_first();
        assert forall|step: int| 0 <= step < rest.len() implies !((#[trigger] rest[step])
            is Found) by {
            assert(rest[step] == replies[step + 1]);
        }
        assert(!(replies[0] is Found));
        lemma_nobody_found(rest);
    }
}

proof fn lemma_first_found(replies: Seq<ResolverReplyView>, step: int)
    requires
        0 <= step < replies.len(),
        replies[step] is Found,
        nobody_found(replies.take(step)),
    ensures
        first_found(replies) == step,
    decreases step,
{
    if step > 0 {
        let rest = replies.drop_first();
        assert(replies.take(step)[0] == replies[0]);
        assert forall|index: int| 0 <= index < step - 1 implies !((#[trigger] rest.take(
            step - 1,
        )[index]) is Found) by {
            assert(rest.take(step - 1)[index] == replies.take(step)[index + 1]);
        }
        assert(rest[step - 1] == replies[step]);
        lemma_first_found(rest, step - 1);
    }
}

proof fn lemma_method_texts()
    ensures
        "GET"@ + " "@ == "GET "@,
        "POST"@ + " "@ == "POST "@,
        "PUT"@ + " "@ == "PUT "@,
        "PATCH"@ + " "@ == "PATCH "@,
        "DELETE"@ + " "@ == "DELETE "@,
        "HEAD"@ + " "@ == "HEAD "@,
        "OPTIONS"@ + " "@ == "OPTIONS "@,
        "CONNECT"@ + " "@ == "CONNECT "@,
        "TRACE"@ + " "@ == "TRACE "@,
{
    reveal_strlit(" ");
    reveal_strlit("GET");
    reveal_strlit("GET ");
    reveal_strlit("POST");
    reveal_strlit("POST ");
    reveal_strlit("PUT");
    reveal_strlit("PUT ");
    reveal_strlit("PATCH");
    reveal_strlit("PATCH ");
    reveal_strlit("DELETE");
    reveal_strlit("DELETE ");
    reveal_strlit("HEAD");
    reveal_strlit("HEAD ");
    reveal_strlit("OPTIONS");
    reveal_strlit("OPTIONS ");
    reveal_strlit("CONNECT");
    reveal_strlit("CONNECT ");
    reveal_strlit("TRACE");
    reveal_strlit("TRACE ");
    assert("GET"@ + " "@ =~= "GET "@);
    assert("POST"@ + " "@ =~= "POST "@);
    assert("PUT"@ + " "@ =~= "PUT "@);
    assert("PATCH"@ + " "@ =~= "PATCH "@);
    assert("DELETE"@ + " "@ =~= "DELETE "@);
    assert("HEAD"@ + " "@ =~= "HEAD "@);
    assert("OPTIONS"@ + " "@ =~= "OPTIONS "@);
    assert("CONNECT"@ + " "@ =~= "CONNECT "@);
    assert("TRACE"@ + " "@ =~= "TRACE "@);
}

proof fn lemma_requests(payload: Seq<u8>)
    ensures
        requests(payload) == crate::libpcap::flow::candidate::is_http_request(payload),
{
    lemma_method_texts();
    assert(is_method("GET"@) && is_method("POST"@) && is_method("PUT"@) && is_method("PATCH"@)
        && is_method("DELETE"@) && is_method("HEAD"@) && is_method("OPTIONS"@) && is_method(
        "CONNECT"@,
    ) && is_method("TRACE"@));
}

proof fn lemma_likely_direction(segment: TcpSegmentView)
    ensures
        likely_direction(segment) == (if answers(segment.payload) {
            Direction::Inbound
        } else if requests(segment.payload) {
            Direction::Outbound
        } else if serves(segment.source_port) && !serves(segment.destination_port) {
            Direction::Inbound
        } else {
            Direction::Outbound
        }),
{
    lemma_requests(segment.payload);
}

/// Where no process is found and the payload tells nothing, the end with a server's port is the
/// remote one, whichever end the segment comes from: what goes to it is outbound, what comes from
/// it inbound.
pub proof fn law_server_is_the_remote_end(
    segment: TcpSegmentView,
    timestamp: Timestamp,
    replies: Seq<ResolverReplyView>,
)
    requires
        !answers(segment.payload),
        !requests(segment.payload),
        serves(segment.source_port) != serves(segment.destination_port),
        nobody_found(replies),
    ensures
        serves(segment.destination_port) ==> selected_for(segment, replies).direction
            == Direction::Outbound && lies_between(
            opened_for(segment, timestamp, replies),
            segment.source_end(),
            segment.destination_end(),
        ),
        serves(segment.source_port) ==> selected_for(segment, replies).direction
            == Direction::Inbound && lies_between(
            opened_for(segment, timestamp, replies),
            segment.destination_end(),
            segment.source_end(),
        ),
{
    lemma_nobody_found(replies);
    lemma_likely_direction(segment);
}

/// Where no process is found, a request is taken for one of a local client, and a response for one
/// to a local client, whatever the ports are.
pub proof fn law_client_is_the_local_end(
    segment: TcpSegmentView,
    timestamp: Timestamp,
    replies: Seq<ResolverReplyView>,
)
    requires
        nobody_found(replies),
        answers(segment.payload) || requests(segment.payload),
    ensures
        answers(segment.payload) ==> selected_for(segment, replies).direction == Direction::Inbound
            && lies_between(
            opened_for(segment, timestamp, replies),
            segment.destination_end(),
            segment.source_end(),
        ),
        !answers(segment.payload) ==> selected_for(segment, replies).direction
            == Direction::Outbound && lies_between(
            opened_for(segment, timestamp, replies),
            segment.source_end(),
            segment.destination_end(),
        ),
{
    lemma_nobody_found(replies);
    lemma_likely_direction(segment);
}

/// Where nothing tells the ends apart (neither the payload, nor the ports, nor a process), the
/// sender of the first segment is taken for the local end.
pub proof fn law_first_sender_is_the_local_end(
    segment: TcpSegmentView,
    timestamp: Timestamp,
    replies: Seq<ResolverReplyView>,
)
    requires
        !answers(segment.payload),
        !requests(segment.payload),
        serves(segment.source_port) == serves(segment.destination_port),
        nobody_found(replies),
    ensures
        selected_for(segment, replies).direction == Direction::Outbound,
        lies_between(
            opened_for(segment, timestamp, replies),
            segment.source_end(),
            segment.destination_end(),
        ),
{
    lemma_nobody_found(replies);
    lemma_likely_direction(segment);
}

/// Whether a question is about a process that owns an end of a connection.
pub open spec fn asks_about(
    question: ProcessQuestion,
    local: TcpEndpoint,
    remote: TcpEndpoint,
) -> bool {
    match question {
        ProcessQuestion::Connection(connection) => connection == (TcpConnection { local, remote }),
        ProcessQuestion::Listener(endpoint) => endpoint == local,
        ProcessQuestion::Port(port) => port == local.port,
    }
}

/// The first process that is found decides: the end that the resolver was asked about is the local
/// one, and the flow is that of the process, with the confidence in it.
pub proof fn law_found_process_owns_the_local_end(
    segment: TcpSegmentView,
    timestamp: Timestamp,
    replies: Seq<ResolverReplyView>,
    step: int,
)
    requires
        0 <= step < replies.len(),
        replies[step] is Found,
        nobody_found(replies.take(step)),
    ensures
        ({
            let asked = questions(primary_reading(segment), secondary_reading(segment), replies);
            let found = replies[step]->Found_0;
            let record = opened_for(segment, timestamp, replies);
            let selected = selected_for(segment, replies);
            let (local, remote) = if selected.direction == Direction::Outbound {
                (segment.source_end(), segment.destination_end())
            } else {
                (segment.destination_end(), segment.source_end())
            };
            &&& asks_about(asked[step]->Asked_0, local, remote)
            &&& lies_between(record, local, remote)
            &&& record.flow.process == found.process
            &&& record.flow.attribution_confidence == found.confidence
            &&& record.confidence == found.confidence
            &&& selected.attribution_failure is None
        }),
{
    lemma_first_found(replies, step);
}

/// Where no process is found, every question was put about both ends: first who owns the
/// connection, then who listens at the end, and last who alone listens on its port. The flow has no
/// confidence, and the first failure of the resolver is told.
pub proof fn law_both_ends_are_asked_about(
    segment: TcpSegmentView,
    timestamp: Timestamp,
    replies: Seq<ResolverReplyView>,
)
    requires
        complete_replies(true, replies),
        nobody_found(replies),
    ensures
        ({
            let asked = questions(primary_reading(segment), secondary_reading(segment), replies);
            let source = segment.source_end();
            let destination = segment.destination_end();
            &&& asked.len() == 6
            &&& forall|step: int|
                0 <= step < 6 ==> {
                    &&& (#[trigger] asked[step]) is Asked
                    &&& asked[step]->Asked_1 == replies[step]
                    &&& asked[step]->Asked_0 is Connection <==> step < 2
                    &&& asked[step]->Asked_0 is Listener <==> 2 <= step < 4
                }
            &&& forall|pair: int|
                0 <= pair < 3 ==> {
                    let first = asked[#[trigger] (2 * pair)]->Asked_0;
                    let second = asked[2 * pair + 1]->Asked_0;
                    (asks_about(first, source, destination) && asks_about(
                        second,
                        destination,
                        source,
                    )) || (asks_about(first, destination, source) && asks_about(
                        second,
                        source,
                        destination,
                    ))
                }
            &&& selected_for(segment, replies).confidence == 0
            &&& selected_for(segment, replies).attribution_failure == first_failure(replies)
        }),
{
    lemma_nobody_found(replies);
    if replies.len() == 6 {
    } else {
        assert(replies[replies.len() - 1] is Found);
    }
}

/// The first failure is one of the replies, and no failure comes before it.
pub proof fn law_first_failure_is_told(replies: Seq<ResolverReplyView>)
    ensures
        match first_failure(replies) {
            Some(failure) => exists|step: int|
                0 <= step < replies.len() && (#[trigger] replies[step])
                    == ResolverReplyView::Failed(failure) && forall|earlier: int|
                    0 <= earlier < step ==> !((#[trigger] replies[earlier]) is Failed),
            None => forall|step: int|
                0 <= step < replies.len() ==> !((#[trigger] replies[step]) is Failed),
        },
    decreases replies.len(),
{
    if replies.len() > 0 {
        let shorter = replies.drop_last();
        law_first_failure_is_told(shorter);
        match first_failure(shorter) {
            Some(failure) => {
                let step = choose|step: int|
                    0 <= step < shorter.len() && (#[trigger] shorter[step])
                        == ResolverReplyView::Failed(failure) && forall|earlier: int|
                        0 <= earlier < step ==> !((#[trigger] shorter[earlier]) is Failed);
                assert(replies[step] == ResolverReplyView::Failed(failure));
                assert forall|earlier: int| 0 <= earlier < step implies !((
                #[trigger] replies[earlier]) is Failed) by {
                    assert(!(shorter[earlier] is Failed));
                }
            },
            None => {
                assert forall|earlier: int| 0 <= earlier < shorter.len() implies !((
                #[trigger] replies[earlier]) is Failed) by {
                    assert(!(shorter[earlier] is Failed));
                }
                let last = replies.len() - 1;
                assert(replies[last] == replies.last());
            },
        }
    }
}

/// Once a connection is opened, its segments are read by who sends them: those of the one end
/// travel like the first segment, and those of the other end the opposite way.
pub proof fn law_ends_send_opposite_ways(
    segment: TcpSegmentView,
    timestamp: Timestamp,
    replies: Seq<ResolverReplyView>,
    later: TcpSegmentView,
)
    requires
        segment.source_end() != segment.destination_end(),
    ensures
        later.source_end() == segment.source_end() ==> opened_for(
            segment,
            timestamp,
            replies,
        ).direction_of(later) == selected_for(segment, replies).direction,
        later.source_end() == segment.destination_end() ==> opened_for(
            segment,
            timestamp,
            replies,
        ).direction_of(later) != selected_for(segment, replies).direction,
{
}

/// Two segments belong to the same connection exactly if they travel between the same two ends, in
/// the same or in opposite directions.
pub proof fn law_connection_is_its_two_ends(first: TcpSegmentView, second: TcpSegmentView)
    ensures
        connection_of(first) == connection_of(second) <==> ((first.source_end()
            == second.source_end() && first.destination_end() == second.destination_end()) || (
        first.source_end() == second.destination_end() && first.destination_end()
            == second.source_end())),
{
    assert(connection_of(first) == connection_between(
        first.source_end(),
        first.destination_end(),
    ));
}

} // verus!
