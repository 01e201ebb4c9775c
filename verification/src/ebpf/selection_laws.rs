//! Which payload is sampled, and for whom.
use vstd::prelude::*;

use crate::address::address_port;
use crate::bounded_recency::well_bounded;
use crate::event::CaptureEventView;
use crate::keyed::{holds, lemma_with_value, lemma_without_key, value_of, without_key};
use crate::model::{Direction, FlowContextView, ProcessContextView, Timestamp};
use crate::provider::CaptureErrorView;
use crate::selector::CompiledSelectorView;

use super::bridge::{fits_hint, observed_context};
use super::descriptor_lease::DescriptorLeaseKey;
use super::flow_start::PendingEbpfFlowStart;
use super::ledger::{Answer, SourceExchange};
use super::payload_authorization::{sampled_directions, ProcessPayloadSampleAuthorization};
use super::payload_recovery::{asked_recovery, recovered_by, taken_up, RecoveryView};
use super::process_allowance::{allowance_after, ProcessAllowance};
use super::process_payload_allowance::{
    answers_fit, observed_authorization, running_authorizations, running_outcome, running_talk,
    AllowanceReplies, EbpfProcessPayloadAllowanceDiagnostics,
};
use super::resolution::{
    found_process, FallbackReplies, FlowReply, ProcessReply, ProcessesReply,
};
use super::tracked_flow::{FlowEntries, TrackedFlowView};
use super::types::{
    EbpfObservedProcess, EbpfProcessLifecycleKind, EbpfProcessLifecycleObservation,
};

verus! {

/// A direction of a flow is sampled exactly if there is a selector and it selects the flow in that
/// direction.
pub proof fn law_sampled_directions_are_selected(
    flow: FlowContextView,
    selector: Option<CompiledSelectorView>,
)
    ensures
        sampled_directions(flow, selector).inbound <==> (selector matches Some(inner)
            && inner.selects_flow(flow, Direction::Inbound)),
        sampled_directions(flow, selector).outbound <==> (selector matches Some(inner)
            && inner.selects_flow(flow, Direction::Outbound)),
{
}

/// A new program whose process was found, and that is selected in some direction for all of its
/// flows, is sampled in the selected directions; one that is selected in none is sampled no more,
/// and neither is a process that exits.
pub proof fn law_selected_program_is_sampled(
    lifecycle: EbpfProcessLifecycleObservation,
    found: Option<ProcessContextView>,
    selector: CompiledSelectorView,
)
    ensures
        ({
            let inbound = found matches Some(process) && selector.selects_process(
                process,
                Direction::Inbound,
            );
            let outbound = found matches Some(process) && selector.selects_process(
                process,
                Direction::Outbound,
            );
            let tgid = lifecycle.process.tgid;
            let allowance = allowance_after(lifecycle, found, selector);
            if lifecycle.kind == EbpfProcessLifecycleKind::Exec && tgid != 0 && (inbound
                || outbound) {
                allowance matches ProcessAllowance::Allow(authorization) && authorization.tgid
                    == tgid && authorization.payload_directions.inbound == inbound
                    && authorization.payload_directions.outbound == outbound
            } else {
                allowance == ProcessAllowance::Revoke(tgid)
            }
        }),
{
}

/// Whether a process may be sampled: it has a number, and some flow of it can be selected in some
/// direction.
pub open spec fn may_be_sampled(
    process: ProcessContextView,
    selector: CompiledSelectorView,
) -> bool {
    process.identity.tgid != 0 && (selector.may_select_process(process, Direction::Inbound)
        || selector.may_select_process(process, Direction::Outbound))
}

/// Whether an authorization is that of a process: in the directions in which some flow of it can be
/// selected.
pub open spec fn authorizes(
    authorization: ProcessPayloadSampleAuthorization,
    process: ProcessContextView,
    selector: CompiledSelectorView,
) -> bool {
    &&& authorization.tgid == process.identity.tgid
    &&& authorization.payload_directions.inbound == selector.may_select_process(
        process,
        Direction::Inbound,
    )
    &&& authorization.payload_directions.outbound == selector.may_select_process(
        process,
        Direction::Outbound,
    )
}

/// Every running process that may be sampled is authorized, and no other one.
pub proof fn law_running_processes_are_sampled_as_selected(
    processes: Seq<ProcessContextView>,
    selector: CompiledSelectorView,
)
    ensures
        forall|index: int|
            0 <= index < processes.len() && may_be_sampled(#[trigger] processes[index], selector)
                ==> exists|place: int|
                0 <= place < running_authorizations(processes, selector).len() && authorizes(
                    #[trigger] running_authorizations(processes, selector)[place],
                    processes[index],
                    selector,
                ),
        forall|place: int|
            0 <= place < running_authorizations(processes, selector).len() ==> is_authorized(
                #[trigger] running_authorizations(processes, selector)[place],
                processes,
                selector,
            ),
    decreases processes.len(),
{
    if processes.len() > 0 {
        let shorter = processes.drop_last();
        let earlier = running_authorizations(shorter, selector);
        let all = running_authorizations(processes, selector);
        let last = processes.last();
        assert(last == processes[processes.len() - 1]);
        law_running_processes_are_sampled_as_selected(shorter, selector);
        assert forall|index: int|
            0 <= index < processes.len() && may_be_sampled(
                #[trigger] processes[index],
                selector,
            ) implies exists|place: int|
            0 <= place < all.len() && authorizes(
                #[trigger] all[place],
                processes[index],
                selector,
            ) by {
            if index < shorter.len() {
                assert(shorter[index] == processes[index]);
                let place = choose|place: int|
                    0 <= place < earlier.len() && authorizes(
                        #[trigger] earlier[place],
                        shorter[index],
                        selector,
                    );
                assert(all[place] == earlier[place]);
            } else {
                assert(authorizes(all[all.len() - 1], last, selector));
            }
        }
        assert forall|place: int| 0 <= place < all.len() implies is_authorized(
            #[trigger] all[place],
            processes,
            selector,
        ) by {
            if place < earlier.len() {
                assert(all[place] == earlier[place]);
                let index = choose|index: int|
                    0 <= index < shorter.len() && may_be_sampled(
                        #[trigger] shorter[index],
                        selector,
                    ) && authorizes(earlier[place], shorter[index], selector);
                assert(processes[index] == shorter[index]);
            } else {
                assert(may_be_sampled(processes[processes.len() - 1], selector));
            }
        }
    }
}

/// Whether an authorization is that of one of some processes that may be sampled.
pub open spec fn is_authorized(
    authorization: ProcessPayloadSampleAuthorization,
    processes: Seq<ProcessContextView>,
    selector: CompiledSelectorView,
) -> bool {
    exists|index: int|
        0 <= index < processes.len() && may_be_sampled(#[trigger] processes[index], selector)
            && authorizes(authorization, processes[index], selector)
}

/// A found flow whose payload is selected in the observed direction is told and tracked: its start
/// first, then a gap in that direction from its beginning on, whose end is not known. It is tracked
/// with nothing seen of it yet. One that is not selected so is left alone.
pub proof fn law_recovered_flow_is_told_and_tracked(
    flows: FlowEntries,
    capacity: usize,
    key: DescriptorLeaseKey,
    direction: Direction,
    start: CaptureEventView,
    flow: FlowContextView,
    selector: CompiledSelectorView,
    timestamp: Timestamp,
)
    requires
        well_bounded(flows, capacity),
        flows.len() < capacity,
    ensures
        ({
            let result = taken_up(
                flows,
                capacity,
                key,
                direction,
                start,
                flow,
                selector,
                timestamp,
            );
            if selector.selects_flow(flow, direction) {
                &&& holds(result.flows, key)
                &&& value_of(result.flows, key).flow == flow
                &&& value_of(result.flows, key).inbound_stream_offset == 0
                &&& value_of(result.flows, key).outbound_stream_offset == 0
                &&& value_of(result.flows, key).payload_directions.inbound
                    == selector.selects_flow(flow, Direction::Inbound)
                &&& value_of(result.flows, key).payload_directions.outbound
                    == selector.selects_flow(flow, Direction::Outbound)
                &&& (result.outcome matches Ok(Some(recovered)) && recovered.prefix_events.len()
                    == 2 && recovered.prefix_events[0] == start && (recovered.prefix_events[1]
                    matches CaptureEventView::Gap(gap) && gap.flow == flow && gap.timestamp
                    == timestamp && gap.gap.direction == direction && gap.gap.expected_offset == 0
                    && gap.gap.next_offset is None))
            } else {
                result.flows == flows && result.outcome == Ok::<
                    Option<RecoveryView>,
                    crate::provider::CaptureErrorView,
                >(None)
            }
        }),
{
    let value = TrackedFlowView::fresh(
        flow,
        super::payload_authorization::flow_directions(flow, selector),
    );
    lemma_without_key(flows, key);
    lemma_with_value(without_key(flows, key), key, value);
}

/// The connection behind the start of a flow is looked up by its process, its thread, its
/// descriptor and its remote end; where it is not found, a connect is told with the process of its
/// number, and an accept with the listening socket's process and local end, where that is found.
pub proof fn law_start_is_looked_up_and_told_as_observed(
    start: PendingEbpfFlowStart,
    timestamp: Timestamp,
    replies: FallbackReplies,
)
    ensures
        start.lookup().tgid == start.process().tgid,
        start.lookup().thread_pid == start.process().pid,
        start.lookup().fd == start.descriptor(),
        start matches PendingEbpfFlowStart::Connect(connect) ==> {
            &&& start.lookup().expected_remote_endpoint == connect.endpoint.remote()
            &&& connect.endpoint.remote() matches Some(remote) ==> (start.observed(
                timestamp,
                replies,
            ) matches Ok(
                Some(CaptureEventView::ConnectionOpened { timestamp: told_at, flow, .. }),
            ) && told_at == timestamp && flow.remote == address_port(remote)
                && flow.attribution_confidence == 0 && (replies.direct matches Ok(Some(process))
                ==> flow.process == process))
        },
        start matches PendingEbpfFlowStart::Accept(accept) ==> {
            &&& start.lookup().expected_remote_endpoint == accept.endpoint.remote()
            &&& accept.endpoint.remote() matches Some(remote) ==> (replies.listen matches Ok(
                Some(listen),
            ) ==> (start.observed(timestamp, replies) matches Ok(
                Some(CaptureEventView::ConnectionOpened { timestamp: told_at, flow, .. }),
            ) && told_at == timestamp && flow.remote == address_port(remote) && flow.local
                == address_port(listen.local) && flow.process == listen.process
                && flow.attribution_confidence == listen.confidence))
        },
{
}

/// The process of an accepted flow is the one with the observed number, if the hint fits it or there
/// is none; otherwise the only one that the hint fits; otherwise none.
pub proof fn law_hint_decides_between_processes(
    observed: EbpfObservedProcess,
    direct: ProcessReply,
    hinted: ProcessesReply,
)
    ensures
        ({
            let hint = super::bridge::observed_hint(observed);
            let found = found_process(observed, direct, hinted);
            &&& direct matches Ok(Some(process)) ==> (hint is None || fits_hint(process, hint->0)
                ==> found == Some(process))
            &&& (direct matches Ok(Some(process)) && hint is Some && !fits_hint(process, hint->0))
                || !(direct matches Ok(Some(_))) ==> (hint is Some && (hinted matches Ok(
                processes,
            ) && processes.len() == 1) ==> found == Some(hinted->Ok_0[0])) && (hint is None || !(
            hinted matches Ok(processes) && processes.len() == 1) ==> found is None)
        }),
{
}

/// The process that started a flow is sampled in the directions in which flows of the process found
/// under its number can be selected, if there are any; else in those of the process as the kernel
/// tells of it; and not at all without such directions or without a number.
pub proof fn law_starter_is_sampled_as_selected(
    process: EbpfObservedProcess,
    found: Option<ProcessContextView>,
    selector: CompiledSelectorView,
)
    ensures
        ({
            let by_number = found matches Some(context) && (selector.may_select_process(
                context,
                Direction::Inbound,
            ) || selector.may_select_process(context, Direction::Outbound));
            let known = if by_number {
                found->0
            } else {
                observed_context(process)
            };
            let inbound = selector.may_select_process(known, Direction::Inbound);
            let outbound = selector.may_select_process(known, Direction::Outbound);
            match observed_authorization(process, found, selector) {
                Some(authorization) => process.tgid != 0 && (inbound || outbound)
                    && authorization.tgid == process.tgid
                    && authorization.payload_directions.inbound == inbound
                    && authorization.payload_directions.outbound == outbound,
                None => process.tgid == 0 || (!inbound && !outbound),
            }
        }),
{
}

/// The kernel is told of the running processes that are selected one by one, up to the first refusal,
/// which is what comes of it; where it refuses none, all were told, and their number is reported.
pub proof fn law_first_refusal_ends_the_telling(
    selector: CompiledSelectorView,
    processes: Seq<ProcessContextView>,
    answers: Seq<Answer>,
)
    requires
        answers_fit(running_authorizations(processes, selector), answers),
        processes.len() <= u64::MAX,
    ensures
        ({
            let replies = AllowanceReplies { processes: Ok(processes), answers };
            let outcome = running_outcome(Some(selector), replies);
            let told = running_talk(Some(selector), replies).source;
            let selected = running_authorizations(processes, selector);
            &&& told.len() == answers.len()
            &&& forall|index: int|
                0 <= index < told.len() ==> #[trigger] told[index] == SourceExchange::AllowProcess(
                    selected[index],
                    answers[index],
                )
            &&& (forall|index: int| 0 <= index < answers.len() ==> #[trigger] answers[index] is Ok)
                ==> told.len() == selected.len() && (outcome matches Ok(report)
                && report.selector_configured && report.scanned_processes == processes.len()
                && report.matched_processes == selected.len() && report.allowed_processes
                == selected.len())
            &&& forall|index: int|
                0 <= index < answers.len() && (#[trigger] answers[index]) is Err ==> index
                    == answers.len() - 1 && outcome == Err::<
                    EbpfProcessPayloadAllowanceDiagnostics,
                    CaptureErrorView,
                >(answers[index]->Err_0)
        }),
{
    lemma_no_more_than_processes(processes, selector);
    if answers.len() > 0 {
        assert(answers.last() == answers[answers.len() - 1]);
    }
}

proof fn lemma_no_more_than_processes(
    processes: Seq<ProcessContextView>,
    selector: CompiledSelectorView,
)
    ensures
        running_authorizations(processes, selector).len() <= processes.len(),
    decreases processes.len(),
{
    if processes.len() > 0 {
        lemma_no_more_than_processes(processes.drop_last(), selector);
    }
}

/// Payload on an untracked descriptor changes nothing, and tells nothing, without a valid descriptor,
/// without a selector or where no connection is found. The connection is asked for exactly where
/// there are a valid descriptor and a selector, and a failure to look for it is handed on.
pub proof fn law_nothing_is_recovered_without_a_connection(
    flows: FlowEntries,
    capacity: usize,
    key: Option<DescriptorLeaseKey>,
    direction: Direction,
    selector: Option<CompiledSelectorView>,
    timestamp: Timestamp,
    reply: FlowReply,
    process: EbpfObservedProcess,
    fd: i32,
)
    ensures
        ({
            let result = recovered_by(flows, capacity, key, direction, selector, timestamp, reply);
            let asked = asked_recovery(key, selector, process, fd, reply);
            &&& asked.len() > 0 <==> key is Some && selector is Some
            &&& asked.len() == 0 || (reply matches Ok(None)) ==> result.flows == flows && (
            result.outcome matches Ok(None))
            &&& asked.len() > 0 ==> (reply matches Err(error) ==> result.flows == flows && (
            result.outcome matches Err(told) && told == error))
        }),
{
}

} // verus!
