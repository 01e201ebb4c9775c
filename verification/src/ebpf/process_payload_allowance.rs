//! Which of the running processes the kernel may sample as a whole.
use vstd::prelude::*;

use crate::model::{ProcessContext, ProcessContextView};
use crate::provider::{CaptureError, CaptureErrorView};
use crate::selector::{CompiledSelector, CompiledSelectorView};

use super::bridge::{
    observed_context, process_context_from_observed, process_view, EbpfSocketFlowResolver,
};
use super::flow_start::PendingEbpfFlowStart;
use super::observation_source::EbpfObservationSource;
use super::ledger::{
    answer_view, group_talk, records, Answer, ObservationLedger, ResolverExchange, ResolverLedger,
    SourceExchange, Talk,
};
use super::payload_authorization::{
    prefilter_directions, selector_view, ProcessPayloadSampleAuthorization,
};
use super::resolution::{
    context_views, direct_process, processes_reply, resolve_observed_process, ProcessReply,
    ProcessesReply,
};
use super::types::EbpfObservedProcess;

verus! {

broadcast use group_talk;

/// How the kernel was told which processes to sample.
#[derive(Debug, Clone, Copy, PartialEq, Eq, Structural)]
pub struct EbpfProcessPayloadAllowanceDiagnostics {
    pub selector_configured: bool,
    pub scanned_processes: u64,
    pub matched_processes: u64,
    pub allowed_processes: u64,
}

impl Default for EbpfProcessPayloadAllowanceDiagnostics {
    fn default() -> (diagnostics: Self)
        ensures
            diagnostics == (EbpfProcessPayloadAllowanceDiagnostics {
                selector_configured: false,
                scanned_processes: 0,
                matched_processes: 0,
                allowed_processes: 0,
            }),
    {
        EbpfProcessPayloadAllowanceDiagnostics {
            selector_configured: false,
            scanned_processes: 0,
            matched_processes: 0,
            allowed_processes: 0,
        }
    }
}

/// The authorization of a running process.
pub open spec fn running_authorization(
    process: ProcessContextView,
    selector: CompiledSelectorView,
) -> Option<ProcessPayloadSampleAuthorization> {
    ProcessPayloadSampleAuthorization::of(
        process.identity.tgid,
        prefilter_directions(process, selector),
    )
}

/// The authorizations of the running processes, in their order.
pub open spec fn running_authorizations(
    processes: Seq<ProcessContextView>,
    selector: CompiledSelectorView,
) -> Seq<ProcessPayloadSampleAuthorization>
    decreases processes.len(),
{
    if processes.len() == 0 {
        Seq::empty()
    } else {
        let earlier = running_authorizations(processes.drop_last(), selector);
        match running_authorization(processes.last(), selector) {
            Some(authorization) => earlier.push(authorization),
            None => earlier,
        }
    }
}

/// The authorizations of the running processes, in their order.
pub fn authorizations_of_processes(
    processes: &Vec<ProcessContext>,
    selector: &CompiledSelector,
) -> (authorizations: Vec<ProcessPayloadSampleAuthorization>)
    ensures
        authorizations@ == running_authorizations(context_views(processes@), selector@),
        authorizations@.len() <= processes@.len(),
{
    let ghost views = context_views(processes@);
    let mut authorizations: Vec<ProcessPayloadSampleAuthorization> = Vec::new();
    let mut index: usize = 0;
    assert(views.take(0) =~= Seq::empty());
    while index < processes.len()
        invariant
            index <= processes.len(),
            views == context_views(processes@),
            authorizations@ == running_authorizations(views.take(index as int), selector@),
            authorizations@.len() <= index,
        decreases processes.len() - index,
    {
        let process = &processes[index];
        proof {
            assert(views.take(index + 1).drop_last() =~= views.take(index as int));
            assert(views.take(index + 1).last() == process@);
        }
        if let Some(authorization) =
            ProcessPayloadSampleAuthorization::from_process_prefilter_selector(
            process.identity.tgid,
            process,
            selector,
        ) {
            authorizations.push(authorization);
        }
        index = index + 1;
    }
    assert(views.take(index as int) =~= views);
    authorizations
}

/// The answers to authorizations that were told one by one, up to the first refusal.
pub open spec fn answers_fit(
    authorizations: Seq<ProcessPayloadSampleAuthorization>,
    answers: Seq<Answer>,
) -> bool {
    &&& answers.len() <= authorizations.len()
    &&& forall|index: int| 0 <= index < answers.len() - 1 ==> #[trigger] answers[index] is Ok
    &&& answers.len() < authorizations.len() ==> answers.len() > 0 && answers.last() is Err
}

/// The authorizations as they were told, with their answers.
pub open spec fn told_processes(
    authorizations: Seq<ProcessPayloadSampleAuthorization>,
    answers: Seq<Answer>,
) -> Seq<SourceExchange> {
    Seq::new(
        answers.len(),
        |index: int| SourceExchange::AllowProcess(authorizations[index], answers[index]),
    )
}

/// What the running processes are sampled by: a list of them that was asked for, and the answers
/// to what was told of those that are selected.
#[verifier::ext_equal]
pub struct AllowanceReplies {
    pub processes: ProcessesReply,
    pub answers: Seq<Answer>,
}

/// What is exchanged to have every running process sampled that is selected.
pub open spec fn running_talk(
    selector: Option<CompiledSelectorView>,
    replies: AllowanceReplies,
) -> Talk {
    match selector {
        None => Talk::none(),
        Some(selector) => Talk {
            source: match replies.processes {
                Ok(processes) => told_processes(
                    running_authorizations(processes, selector),
                    replies.answers,
                ),
                Err(_) => Seq::empty(),
            },
            resolver: seq![ResolverExchange::Processes(replies.processes)],
        },
    }
}

/// What comes of it: the first failure, or how many processes were found and allowed.
pub open spec fn running_outcome(
    selector: Option<CompiledSelectorView>,
    replies: AllowanceReplies,
) -> Result<EbpfProcessPayloadAllowanceDiagnostics, CaptureErrorView> {
    match selector {
        None => Ok(
            EbpfProcessPayloadAllowanceDiagnostics {
                selector_configured: false,
                scanned_processes: 0,
                matched_processes: 0,
                allowed_processes: 0,
            },
        ),
        Some(selector) => match replies.processes {
            Err(error) => Err(error),
            Ok(processes) => if replies.answers.len() > 0 && replies.answers.last() is Err {
                Err(replies.answers.last()->Err_0)
            } else {
                Ok(all_allowed(processes, selector))
            },
        },
    }
}

/// The view of what came of it.
pub open spec fn diagnostics_view(
    outcome: Result<EbpfProcessPayloadAllowanceDiagnostics, CaptureError>,
) -> Result<EbpfProcessPayloadAllowanceDiagnostics, CaptureErrorView> {
    match outcome {
        Ok(diagnostics) => Ok(diagnostics),
        Err(error) => Err(error@),
    }
}

/// Whether the replies are as many as were asked for.
pub open spec fn replies_fit(
    selector: Option<CompiledSelectorView>,
    replies: AllowanceReplies,
) -> bool {
    match (selector, replies.processes) {
        (Some(selector), Ok(processes)) => answers_fit(
            running_authorizations(processes, selector),
            replies.answers,
        ),
        _ => true,
    }
}

/// Tells the kernel to sample every running process that is selected, up to the first refusal.
/// Without a selector nothing is asked or told.
pub fn sync_current_process_payload_allowance<
    O: EbpfObservationSource,
    R: EbpfSocketFlowResolver,
>(
    resolver: &mut ResolverLedger<R>,
    observations: &mut ObservationLedger<O>,
    selector: &Option<CompiledSelector>,
) -> (outcome: Result<EbpfProcessPayloadAllowanceDiagnostics, CaptureError>)
    ensures
        exists|replies: AllowanceReplies|
            replies_fit(selector_view(*selector), replies) && diagnostics_view(outcome)
                == running_outcome(selector_view(*selector), replies) && records(
                *old(observations),
                *old(resolver),
            ).followed_by(#[trigger] running_talk(selector_view(*selector), replies)) == records(
                *final(observations),
                *final(resolver),
            ),
{
    let ghost before = records(*observations, *resolver);
    let ghost chosen = selector_view(*selector);
    match selector {
        None => {
            let ghost replies = AllowanceReplies {
                processes: Ok(Seq::empty()),
                answers: Seq::empty(),
            };
            assert(before.followed_by(running_talk(chosen, replies)) == before);
            Ok(EbpfProcessPayloadAllowanceDiagnostics::default())
        },
        Some(configured) => {
            let reply = resolver.resolve_processes();
            let ghost listed = processes_reply(reply);
            let processes = match reply {
                Ok(processes) => processes,
                Err(error) => {
                    let ghost replies = AllowanceReplies {
                        processes: listed,
                        answers: Seq::empty(),
                    };
                    assert(before.followed_by(running_talk(chosen, replies)) == records(
                        *observations,
                        *resolver,
                    ));
                    return Err(error);
                },
            };
            let ghost views = context_views(processes@);
            let authorizations = authorizations_of_processes(&processes, configured);
            let ghost mut answers: Seq<Answer> = Seq::empty();
            let mut next: usize = 0;
            assert(told_processes(authorizations@, answers) =~= Seq::empty());
            while next < authorizations.len()
                invariant
                    next <= authorizations.len(),
                    answers.len() == next,
                    chosen == Some(configured@),
                    chosen == selector_view(*selector),
                    listed == Ok::<Seq<ProcessContextView>, CaptureErrorView>(views),
                    authorizations@ == running_authorizations(views, configured@),
                    before == records(*old(observations), *old(resolver)),
                    resolver.record() == before.resolver + seq![
                        ResolverExchange::Processes(listed),
                    ],
                    observations.record() == before.source + told_processes(
                        authorizations@,
                        answers,
                    ),
                    forall|index: int|
                        0 <= index < answers.len() ==> #[trigger] answers[index] is Ok,
                decreases authorizations.len() - next,
            {
                let answer = observations.allow_process_payload_sample(authorizations[next]);
                let ghost earlier = answers;
                proof {
                    answers = answers.push(answer_view(answer));
                    assert(told_processes(authorizations@, answers) =~= told_processes(
                        authorizations@,
                        earlier,
                    ) + seq![
                        SourceExchange::AllowProcess(
                            authorizations@[next as int],
                            answer_view(answer),
                        ),
                    ]);
                }
                if let Err(error) = answer {
                    let ghost replies = AllowanceReplies { processes: listed, answers };
                    assert(replies_fit(chosen, replies));
                    assert(before.followed_by(running_talk(chosen, replies)) == records(
                        *observations,
                        *resolver,
                    ));
                    return Err(error);
                }
                next = next + 1;
            }
            let matched: u64 = authorizations.len() as u64;
            let diagnostics = EbpfProcessPayloadAllowanceDiagnostics {
                selector_configured: true,
                scanned_processes: processes.len() as u64,
                matched_processes: matched,
                allowed_processes: matched,
            };
            let ghost replies = AllowanceReplies { processes: listed, answers };
            assert(diagnostics == all_allowed(views, configured@));
            assert(replies_fit(chosen, replies));
            assert(before.followed_by(running_talk(chosen, replies)) == records(
                *observations,
                *resolver,
            ));
            Ok(diagnostics)
        },
    }
}

/// What is reported where every selected process was allowed.
pub open spec fn all_allowed(
    processes: Seq<ProcessContextView>,
    selector: CompiledSelectorView,
) -> EbpfProcessPayloadAllowanceDiagnostics {
    EbpfProcessPayloadAllowanceDiagnostics {
        selector_configured: true,
        scanned_processes: processes.len() as u64,
        matched_processes: running_authorizations(processes, selector).len() as u64,
        allowed_processes: running_authorizations(processes, selector).len() as u64,
    }
}

/// The authorization of an observed process: by the process with its number, unless the hint
/// shows that it is another one, or else by what the kernel tells of it alone.
pub open spec fn observed_authorization(
    process: EbpfObservedProcess,
    found: Option<ProcessContextView>,
    selector: CompiledSelectorView,
) -> Option<ProcessPayloadSampleAuthorization> {
    let by_number = match found {
        Some(context) => ProcessPayloadSampleAuthorization::of(
            process.tgid,
            prefilter_directions(context, selector),
        ),
        None => None,
    };
    match by_number {
        Some(authorization) => Some(authorization),
        None => ProcessPayloadSampleAuthorization::of(
            process.tgid,
            prefilter_directions(observed_context(process), selector),
        ),
    }
}

/// The authorization of an observed process, once the process with its number was asked for.
pub fn authorization_for_observed_process(
    process: &EbpfObservedProcess,
    found: Option<ProcessContext>,
    selector: &CompiledSelector,
) -> (authorization: Option<ProcessPayloadSampleAuthorization>)
    ensures
        authorization == observed_authorization(*process, process_view(found), selector@),
{
    let by_number = match found {
        Some(context) => ProcessPayloadSampleAuthorization::from_process_prefilter_selector(
            process.tgid,
            &context,
            selector,
        ),
        None => None,
    };
    match by_number {
        Some(authorization) => Some(authorization),
        None => ProcessPayloadSampleAuthorization::from_process_prefilter_selector(
            process.tgid,
            &process_context_from_observed(process),
            selector,
        ),
    }
}

/// Asks for the process with an observed number and authorizes it.
pub fn process_payload_authorization_for_observed_process<R: EbpfSocketFlowResolver>(
    resolver: &mut ResolverLedger<R>,
    process: &EbpfObservedProcess,
    selector: &CompiledSelector,
) -> (authorization: Option<ProcessPayloadSampleAuthorization>)
    ensures
        exists|reply: ProcessReply|
            authorization == observed_authorization(
                *process,
                #[trigger] direct_process(*process, reply),
                selector@,
            ) && final(resolver).record() == old(resolver).record() + seq![
                ResolverExchange::Process(process.tgid, reply),
            ],
{
    let ghost before = resolver.record();
    let found = resolve_observed_process(resolver, process);
    let ghost reply = choose|reply: ProcessReply|
        process_view(found) == #[trigger] direct_process(*process, reply) && resolver.record()
            == before + seq![ResolverExchange::Process(process.tgid, reply)];
    let authorization = authorization_for_observed_process(process, found, selector);
    assert(authorization == observed_authorization(
        *process,
        direct_process(*process, reply),
        selector@,
    ) && resolver.record() == before + seq![ResolverExchange::Process(process.tgid, reply)]);
    authorization
}

/// What is exchanged to have the process sampled that started a flow: it is looked up, and the
/// kernel is told of it where it is selected.
pub open spec fn starter_talk(
    process: EbpfObservedProcess,
    selector: Option<CompiledSelectorView>,
    reply: ProcessReply,
    answer: Answer,
) -> Talk {
    match selector {
        None => Talk::none(),
        Some(selector) => Talk {
            source: match observed_authorization(process, direct_process(process, reply), selector) {
                Some(authorization) => seq![SourceExchange::AllowProcess(authorization, answer)],
                None => Seq::empty(),
            },
            resolver: seq![ResolverExchange::Process(process.tgid, reply)],
        },
    }
}

/// Tells the kernel to sample the process that started a flow, where it is selected. It succeeds
/// where nothing is told.
pub fn sync_process_payload_allowance_for_flow_start<
    O: EbpfObservationSource,
    R: EbpfSocketFlowResolver,
>(
    resolver: &mut ResolverLedger<R>,
    observations: &mut ObservationLedger<O>,
    flow_start: &PendingEbpfFlowStart,
    selector: &Option<CompiledSelector>,
) -> (answer: Result<(), CaptureError>)
    ensures
        exists|reply: ProcessReply|
            records(*old(observations), *old(resolver)).followed_by(
                #[trigger] starter_talk(
                    flow_start.process(),
                    selector_view(*selector),
                    reply,
                    answer_view(answer),
                ),
            ) == records(*final(observations), *final(resolver)),
        final(observations).record() == old(observations).record() ==> answer is Ok,
{
    let ghost before = records(*observations, *resolver);
    let ghost chosen = selector_view(*selector);
    let ghost process = flow_start.process();
    match selector {
        None => {
            let ghost reply: ProcessReply = Ok(None);
            assert(before.followed_by(starter_talk(process, chosen, reply, Ok(()))) == before);
            Ok(())
        },
        Some(selector) => {
            let authorization = process_payload_authorization_for_observed_process(
                resolver,
                flow_start.observed_process(),
                selector,
            );
            let ghost reply = choose|reply: ProcessReply|
                authorization == observed_authorization(
                    process,
                    #[trigger] direct_process(process, reply),
                    selector@,
                ) && resolver.record() == before.resolver + seq![
                    ResolverExchange::Process(process.tgid, reply),
                ];
            let answer = match authorization {
                Some(authorization) => observations.allow_process_payload_sample(authorization),
                None => Ok(()),
            };
            assert(before.followed_by(
                starter_talk(process, chosen, reply, answer_view(answer)),
            ) == records(*observations, *resolver));
            assert(authorization is Some ==> observations.record().len() == before.source.len()
                + 1);
            answer
        },
    }
}

} // verus!
