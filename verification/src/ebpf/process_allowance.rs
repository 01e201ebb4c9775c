//! Which processes the kernel may sample as a whole, as their programs change.
use vstd::prelude::*;

use crate::model::{ProcessContext, ProcessContextView};
use crate::provider::CaptureError;
use crate::selector::{CompiledSelector, CompiledSelectorView};

use super::bridge::{
    observed_hint, process_hint_from_observed, process_view, EbpfSocketFlowResolver,
};
use super::observation_source::EbpfObservationSource;
use super::ledger::{
    answer_view, group_talk, records, Answer, ObservationLedger, ResolverExchange, ResolverLedger,
    SourceExchange, Talk,
};
use super::observing::WhoReplies;
use super::payload_authorization::{
    process_directions, selector_view, ProcessPayloadSampleAuthorization,
};
use super::resolution::{
    process_reply, processes_reply, unique_process, unique_process_from_reply, ProcessReply,
    ProcessesReply,
};
use super::types::{
    EbpfObservedProcess, EbpfProcessLifecycleKind, EbpfProcessLifecycleObservation,
};

verus! {

broadcast use group_talk;

/// The process that an observed program is: where the kernel tells its name, the one process that
/// the name fits, and otherwise the process with its number.
pub open spec fn program_process(
    process: EbpfObservedProcess,
    direct: ProcessReply,
    hinted: ProcessesReply,
) -> Option<ProcessContextView> {
    if observed_hint(process) is Some {
        unique_process(hinted)
    } else {
        match direct {
            Ok(Some(found)) => Some(found),
            _ => None,
        }
    }
}

/// The authorization of an observed program.
pub open spec fn program_authorization(
    tgid: u32,
    found: Option<ProcessContextView>,
    selector: CompiledSelectorView,
) -> Option<ProcessPayloadSampleAuthorization> {
    match found {
        Some(process) => ProcessPayloadSampleAuthorization::of(
            tgid,
            process_directions(process, selector),
        ),
        None => None,
    }
}

/// What the kernel is told about a process.
#[derive(Debug, Clone, Copy, PartialEq, Eq, Structural)]
pub enum ProcessAllowance {
    Allow(ProcessPayloadSampleAuthorization),
    Revoke(u32),
}

/// What the kernel is told at the end of a process's descriptors: a new program is sampled where
/// it is authorized, and what ended is not.
pub open spec fn allowance_after(
    lifecycle: EbpfProcessLifecycleObservation,
    found: Option<ProcessContextView>,
    selector: CompiledSelectorView,
) -> ProcessAllowance {
    match lifecycle.kind {
        EbpfProcessLifecycleKind::Exit => ProcessAllowance::Revoke(lifecycle.process.tgid),
        EbpfProcessLifecycleKind::Exec => match program_authorization(
            lifecycle.process.tgid,
            found,
            selector,
        ) {
            Some(authorization) => ProcessAllowance::Allow(authorization),
            None => ProcessAllowance::Revoke(lifecycle.process.tgid),
        },
    }
}

/// What the kernel is told at the end of a process's descriptors.
pub fn lifecycle_allowance(
    lifecycle: &EbpfProcessLifecycleObservation,
    found: Option<ProcessContext>,
    selector: &CompiledSelector,
) -> (allowance: ProcessAllowance)
    ensures
        allowance == allowance_after(*lifecycle, process_view(found), selector@),
{
    match lifecycle.kind {
        EbpfProcessLifecycleKind::Exit => ProcessAllowance::Revoke(lifecycle.process.tgid),
        EbpfProcessLifecycleKind::Exec => {
            let authorization = match found {
                Some(process) => ProcessPayloadSampleAuthorization::from_unattributed_selector(
                    lifecycle.process.tgid,
                    &process,
                    selector,
                ),
                None => None,
            };
            match authorization {
                Some(authorization) => ProcessAllowance::Allow(authorization),
                None => ProcessAllowance::Revoke(lifecycle.process.tgid),
            }
        },
    }
}

/// What is asked about the process that an observed program is.
pub open spec fn asked_program(process: EbpfObservedProcess, replies: WhoReplies) -> Seq<
    ResolverExchange,
> {
    match observed_hint(process) {
        Some(hint) => seq![ResolverExchange::Hinted(hint, replies.hinted)],
        None => seq![ResolverExchange::Process(process.tgid, replies.direct)],
    }
}

/// Asks for the process that an observed program is.
pub fn resolve_program_process<R: EbpfSocketFlowResolver>(
    resolver: &mut ResolverLedger<R>,
    process: &EbpfObservedProcess,
) -> (found: Option<ProcessContext>)
    ensures
        exists|replies: WhoReplies|
            process_view(found) == program_process(*process, replies.direct, replies.hinted)
                && final(resolver).record() == old(resolver).record() + #[trigger] asked_program(
                *process,
                replies,
            ),
{
    let ghost before = resolver.record();
    match process_hint_from_observed(process) {
        Some(hint) => {
            let reply = resolver.resolve_processes_by_hint(hint);
            let ghost hinted = processes_reply(reply);
            let ghost direct: ProcessReply = Ok(None);
            let found = unique_process_from_reply(reply);
            let ghost replies = WhoReplies { direct, hinted };
            assert(process_view(found) == program_process(*process, direct, hinted)
                && resolver.record() == before + asked_program(*process, replies));
            found
        },
        None => {
            let reply = resolver.resolve_process(process.tgid);
            let ghost direct = process_reply(reply);
            let ghost hinted: ProcessesReply = Ok(Seq::empty());
            let found = match reply {
                Ok(Some(resolved)) => Some(resolved),
                Ok(None) => None,
                Err(_) => None,
            };
            let ghost replies = WhoReplies { direct, hinted };
            assert(process_view(found) == program_process(*process, direct, hinted)
                && resolver.record() == before + asked_program(*process, replies));
            found
        },
    }
}

/// What is exchanged to tell the kernel what to sample of a process whose descriptors came to an
/// end: a new program is looked up, and the kernel is told what follows from that.
pub open spec fn allowance_talk(
    lifecycle: EbpfProcessLifecycleObservation,
    selector: Option<CompiledSelectorView>,
    program: WhoReplies,
    answer: Answer,
) -> Talk {
    match selector {
        None => Talk::none(),
        Some(selector) => Talk {
            source: seq![
                match allowance_after(
                    lifecycle,
                    program_process(lifecycle.process, program.direct, program.hinted),
                    selector,
                ) {
                    ProcessAllowance::Allow(authorization) => SourceExchange::AllowProcess(
                        authorization,
                        answer,
                    ),
                    ProcessAllowance::Revoke(tgid) => SourceExchange::RevokeProcess(tgid, answer),
                },
            ],
            resolver: match lifecycle.kind {
                EbpfProcessLifecycleKind::Exit => Seq::empty(),
                EbpfProcessLifecycleKind::Exec => asked_program(lifecycle.process, program),
            },
        },
    }
}

/// Tells the kernel what to sample of a process whose descriptors came to an end.
pub fn sync_process_payload_allowance_for_lifecycle<
    O: EbpfObservationSource,
    R: EbpfSocketFlowResolver,
>(
    observations: &mut ObservationLedger<O>,
    resolver: &mut ResolverLedger<R>,
    lifecycle: &EbpfProcessLifecycleObservation,
    selector: &Option<CompiledSelector>,
) -> (answer: Result<(), CaptureError>)
    ensures
        *selector is None ==> answer is Ok,
        exists|program: WhoReplies|
            records(*old(observations), *old(resolver)).followed_by(
                #[trigger] allowance_talk(
                    *lifecycle,
                    selector_view(*selector),
                    program,
                    answer_view(answer),
                ),
            ) == records(*final(observations), *final(resolver)),
{
    let ghost before = records(*observations, *resolver);
    let ghost unasked = WhoReplies { direct: Ok(None), hinted: Ok(Seq::empty()) };
    match selector {
        None => {
            assert(before.followed_by(
                allowance_talk(*lifecycle, selector_view(*selector), unasked, Ok(())),
            ) == records(*observations, *resolver));
            Ok(())
        },
        Some(configured) => {
            let ghost mut program = unasked;
            let found = match lifecycle.kind {
                EbpfProcessLifecycleKind::Exit => None,
                EbpfProcessLifecycleKind::Exec => {
                    let found = resolve_program_process(resolver, &lifecycle.process);
                    proof {
                        program = choose|replies: WhoReplies|
                            process_view(found) == program_process(
                                lifecycle.process,
                                replies.direct,
                                replies.hinted,
                            ) && resolver.record() == before.resolver + #[trigger] asked_program(
                                lifecycle.process,
                                replies,
                            );
                    }
                    found
                },
            };
            let answer = match lifecycle_allowance(lifecycle, found, configured) {
                ProcessAllowance::Allow(authorization) =>
                    observations.allow_process_payload_sample(authorization),
                ProcessAllowance::Revoke(tgid) => observations.revoke_process_payload_sample(tgid),
            };
            assert(before.followed_by(
                allowance_talk(
                    *lifecycle,
                    selector_view(*selector),
                    program,
                    answer_view(answer),
                ),
            ) == records(*observations, *resolver));
            answer
        },
    }
}

/// A program that is not selected for all of its flows, or that cannot be told from others, is
/// not sampled as a whole, nor is a process that exits.
pub proof fn law_only_selected_programs_are_sampled(
    lifecycle: EbpfProcessLifecycleObservation,
    found: Option<ProcessContextView>,
    selector: CompiledSelectorView,
)
    ensures
        allowance_after(lifecycle, found, selector) matches ProcessAllowance::Allow(authorization)
            ==> {
            &&& lifecycle.kind == EbpfProcessLifecycleKind::Exec
            &&& found is Some
            &&& authorization.tgid == lifecycle.process.tgid
            &&& forall|direction: crate::model::Direction|
                #![auto]
                authorization.payload_directions.has(direction) == selector.selects_process(
                    found->0,
                    direction,
                )
        },
        allowance_after(lifecycle, found, selector) matches ProcessAllowance::Revoke(tgid) ==> tgid
            == lifecycle.process.tgid,
{
}

} // verus!
