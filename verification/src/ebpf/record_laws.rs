//! What was exchanged with the source and with the resolver decides what a step leads to.
use vstd::prelude::*;

use crate::event::CaptureEventView;
use crate::model::Timestamp;

use super::flow_start::{PendingEbpfFlowResolution, PendingEbpfFlowStart};
use super::ledger::{group_talk, ResolverExchange, SourceExchange};
use super::observing::{
    asked_cancelled, cancelled_gaps, is_of_process, waiting_in_front, AttemptReplies,
    ObservationStateView, PollReplies, WhoReplies,
};
use super::payload_authorization::{sampled_directions, SocketPayloadSampleAuthorization};
use super::process_allowance::allowance_talk;
use super::resolution::{
    asked_accept, asked_flow, asked_number, asked_who, found_process, opened_by_reply,
    FallbackReplies, ProcessReply,
};
use super::types::{
    EbpfObservedProcess, EbpfProcessLifecycleKind, EbpfProcessLifecycleObservation,
    EbpfProcessObservationView,
};

verus! {

broadcast use group_talk;

proof fn lemma_same_rest<A>(start: Seq<A>, first: Seq<A>, second: Seq<A>)
    requires
        start + first == start + second,
    ensures
        first == second,
{
    assert(first =~= (start + first).skip(start.len() as int));
    assert(second =~= (start + second).skip(start.len() as int));
}

/// What is asked about a process tells what was found, however it goes on.
proof fn lemma_who_is_told(
    observed: EbpfObservedProcess,
    first: WhoReplies,
    second: WhoReplies,
    first_rest: Seq<ResolverExchange>,
    second_rest: Seq<ResolverExchange>,
)
    requires
        asked_who(observed, first.direct, first.hinted) + first_rest == asked_who(
            observed,
            second.direct,
            second.hinted,
        ) + second_rest,
    ensures
        found_process(observed, first.direct, first.hinted) == found_process(
            observed,
            second.direct,
            second.hinted,
        ),
        asked_who(observed, first.direct, first.hinted) == asked_who(
            observed,
            second.direct,
            second.hinted,
        ),
        first_rest == second_rest,
{
    let one = asked_who(observed, first.direct, first.hinted);
    let other = asked_who(observed, second.direct, second.hinted);
    assert((one + first_rest)[0] == one[0]);
    assert((other + second_rest)[0] == other[0]);
    assert(first.direct == second.direct);
    if one.len() == 2 {
        assert((one + first_rest)[1] == one[1]);
        assert((other + second_rest)[1] == other[1]);
        assert(first.hinted == second.hinted);
    }
    assert(one =~= other);
    lemma_same_rest(one, first_rest, second_rest);
}

/// What is asked about the start of a flow whose connection was not found tells what is made of
/// it, however it goes on.
proof fn lemma_fallback_is_told(
    start: PendingEbpfFlowStart,
    timestamp: Timestamp,
    first: FallbackReplies,
    second: FallbackReplies,
    first_rest: Seq<ResolverExchange>,
    second_rest: Seq<ResolverExchange>,
)
    requires
        start.asked_observed(first) + first_rest == start.asked_observed(second) + second_rest,
    ensures
        start.observed(timestamp, first) == start.observed(timestamp, second),
        start.asked_observed(first) == start.asked_observed(second),
        first_rest == second_rest,
{
    let one = WhoReplies { direct: first.direct, hinted: first.hinted };
    let other = WhoReplies { direct: second.direct, hinted: second.hinted };
    match start {
        PendingEbpfFlowStart::Connect(connect) => {
            let asked = asked_number(connect.process, first.direct);
            let also = asked_number(connect.process, second.direct);
            assert((asked + first_rest)[0] == asked[0]);
            assert((also + second_rest)[0] == also[0]);
            assert(asked =~= also);
            lemma_same_rest(asked, first_rest, second_rest);
        },
        PendingEbpfFlowStart::Accept(accept) => {
            if accept.endpoint.remote() is Some {
                let asked = asked_accept(accept, first);
                let also = asked_accept(accept, second);
                assert((asked + first_rest)[0] == asked[0]);
                assert((also + second_rest)[0] == also[0]);
                assert(first.listen == second.listen);
                let head = seq![
                    ResolverExchange::Listen(super::bridge::listen_lookup(accept), first.listen),
                ];
                if first.listen matches Ok(None) {
                    let who = asked_who(accept.process, one.direct, one.hinted);
                    let them = asked_who(accept.process, other.direct, other.hinted);
                    assert(asked == head + who);
                    assert(also == head + them);
                    lemma_same_rest(head, who + first_rest, them + second_rest);
                    lemma_who_is_told(accept.process, one, other, first_rest, second_rest);
                } else {
                    lemma_same_rest(head, first_rest, second_rest);
                }
            }
        },
    }
}

/// What the source answered decides how the flow of a start is tracked.
proof fn lemma_start_is_told(
    state: ObservationStateView,
    start: PendingEbpfFlowStart,
    event: CaptureEventView,
    first: AttemptReplies,
    second: AttemptReplies,
)
    requires
        state.started(start, event, first).talk.source == state.started(
            start,
            event,
            second,
        ).talk.source,
    ensures
        state.started(start, event, first) == state.started(start, event, second),
{
    reveal(ObservationStateView::started);
    if let CaptureEventView::ConnectionOpened { timestamp, flow, .. } = event {
        if let Some(lease) = start.lease() {
            let directions = sampled_directions(flow, state.selector);
            let one = state.inserted(lease, flow, directions, timestamp, first.revoked);
            let other = state.inserted(lease, flow, directions, timestamp, second.revoked);
            let told = state.started(start, event, first).talk.source;
            let also = state.started(start, event, second).talk.source;
            if let Some(authorization) = SocketPayloadSampleAuthorization::of(lease, directions) {
                assert(told[0] == SourceExchange::AllowSocket(authorization, first.allowed));
                assert(also[0] == SourceExchange::AllowSocket(authorization, second.allowed));
                assert(first.allowed == second.allowed);
                if first.allowed is Ok {
                    lemma_same_rest(
                        seq![SourceExchange::AllowSocket(authorization, first.allowed)],
                        one.told,
                        other.told,
                    );
                }
            }
            if one.told == other.told {
                assert(one == other) by {
                    reveal(ObservationStateView::inserted);
                    if one.told.len() > 0 {
                        assert(one.told[0] == other.told[0]);
                    }
                }
            }
        }
    }
}

/// What is asked about a number tells the reply, however it goes on.
proof fn lemma_number_is_told(
    observed: EbpfObservedProcess,
    first: ProcessReply,
    second: ProcessReply,
    first_rest: Seq<ResolverExchange>,
    second_rest: Seq<ResolverExchange>,
)
    requires
        asked_number(observed, first) + first_rest == asked_number(observed, second) + second_rest,
    ensures
        first == second,
        first_rest == second_rest,
{
    let one = asked_number(observed, first);
    let other = asked_number(observed, second);
    assert((one + first_rest)[0] == one[0]);
    assert((other + second_rest)[0] == other[0]);
    lemma_same_rest(one, first_rest, second_rest);
}

/// What was asked about a start that has to wait decides what comes of that.
proof fn lemma_waiting_is_told(
    state: ObservationStateView,
    pending: PendingEbpfFlowResolution,
    first: ProcessReply,
    second: ProcessReply,
)
    requires
        state.waiting(pending, first).talk.resolver == state.waiting(
            pending,
            second,
        ).talk.resolver,
    ensures
        state.waiting(pending, first) == state.waiting(pending, second),
{
    let nothing = Seq::<ResolverExchange>::empty();
    if state.waiting(pending, first).talk.resolver.len() > 0 {
        lemma_number_is_told(pending.flow_start.process(), first, second, nothing, nothing);
    }
}

proof fn lemma_fallen_back_is_told(
    state: ObservationStateView,
    pending: PendingEbpfFlowResolution,
    first: AttemptReplies,
    second: AttemptReplies,
)
    requires
        state.fallen_back(pending, first).talk == state.fallen_back(pending, second).talk,
    ensures
        state.fallen_back(pending, first) == state.fallen_back(pending, second),
{
    reveal(ObservationStateView::fallen_back);
    let start = pending.flow_start;
    let nothing = Seq::<ResolverExchange>::empty();
    let one = state.fallen_back(pending, first);
    let other = state.fallen_back(pending, second);
    let first_rest = fallback_rest(state, pending, first);
    let second_rest = fallback_rest(state, pending, second);
    lemma_start_asks_nobody(state, pending, first);
    lemma_start_asks_nobody(state, pending, second);
    assert(one.talk.resolver == start.asked_observed(first.fallback) + first_rest);
    assert(other.talk.resolver == start.asked_observed(second.fallback) + second_rest);
    lemma_fallback_is_told(
        start,
        pending.timestamp,
        first.fallback,
        second.fallback,
        first_rest,
        second_rest,
    );
    match start.observed(pending.timestamp, first.fallback) {
        Err(_) => {},
        Ok(Some(event)) => {
            lemma_start_is_told(state, start, event, first, second);
        },
        Ok(None) => {
            lemma_number_is_told(start.process(), first.gap, second.gap, nothing, nothing);
        },
    }
}

/// What is asked once it is known what to make of a flow whose connection was not found.
spec fn fallback_rest(
    state: ObservationStateView,
    pending: PendingEbpfFlowResolution,
    replies: AttemptReplies,
) -> Seq<ResolverExchange> {
    match pending.flow_start.observed(pending.timestamp, replies.fallback) {
        Ok(None) => asked_number(pending.flow_start.process(), replies.gap),
        _ => Seq::empty(),
    }
}

proof fn lemma_start_asks_nobody(
    state: ObservationStateView,
    pending: PendingEbpfFlowResolution,
    replies: AttemptReplies,
)
    ensures
        forall|event: CaptureEventView|
            (#[trigger] state.started(pending.flow_start, event, replies)).talk.resolver == Seq::<
                ResolverExchange,
            >::empty(),
{
    reveal(ObservationStateView::started);
}

proof fn lemma_attempt_is_told(
    state: ObservationStateView,
    pending: PendingEbpfFlowResolution,
    respect_delay: bool,
    now_ns: u64,
    first: AttemptReplies,
    second: AttemptReplies,
)
    requires
        state.attempted(pending, respect_delay, now_ns, first).talk == state.attempted(
            pending,
            respect_delay,
            now_ns,
            second,
        ).talk,
    ensures
        state.attempted(pending, respect_delay, now_ns, first) == state.attempted(
            pending,
            respect_delay,
            now_ns,
            second,
        ),
{
    reveal(ObservationStateView::attempted);
    let one = state.attempted(pending, respect_delay, now_ns, first);
    let other = state.attempted(pending, respect_delay, now_ns, second);
    if respect_delay && pending.waits(now_ns) {
        lemma_waiting_is_told(state, pending, first.gap, second.gap);
    } else {
        let lookup = pending.flow_start.lookup();
        assert(one.talk.resolver[0] == ResolverExchange::Flow(lookup, first.flow));
        assert(other.talk.resolver[0] == ResolverExchange::Flow(lookup, second.flow));
        assert(first.flow == second.flow);
        let asked = asked_flow(lookup, first.flow);
        match opened_by_reply(first.flow, pending.timestamp) {
            Err(_) => {},
            Ok(Some(event)) => {
                lemma_start_is_told(state, pending.flow_start, event, first, second);
            },
            Ok(None) => {
                if pending.attempts_completed < state.retries {
                    let later = pending.put_off(now_ns, state.retry_sleep_ns);
                    let told = seq![ResolverExchange::Invalidate];
                    let rest = state.waiting(later, first.gap).talk.resolver;
                    let others = state.waiting(later, second.gap).talk.resolver;
                    lemma_same_rest(asked, told + rest, told + others);
                    lemma_same_rest(told, rest, others);
                    lemma_waiting_is_told(state, later, first.gap, second.gap);
                } else {
                    let rest = state.fallen_back(pending, first).talk;
                    let others = state.fallen_back(pending, second).talk;
                    lemma_same_rest(asked, rest.resolver, others.resolver);
                    assert(rest == others);
                    lemma_fallen_back_is_told(state, pending, first, second);
                }
            },
        }
    }
}

/// What is asked about resolutions that are given up tells what was found about each.
proof fn lemma_cancelled_are_told(
    cancelled: Seq<PendingEbpfFlowResolution>,
    first: Seq<ProcessReply>,
    second: Seq<ProcessReply>,
    first_rest: Seq<ResolverExchange>,
    second_rest: Seq<ResolverExchange>,
)
    requires
        asked_cancelled(cancelled, first) + first_rest == asked_cancelled(cancelled, second)
            + second_rest,
    ensures
        forall|index: int|
            0 <= index < cancelled.len() ==> #[trigger] first[index] == second[index],
        first_rest == second_rest,
    decreases cancelled.len(),
{
    if cancelled.len() > 0 {
        let shorter = cancelled.drop_last();
        let last = cancelled.len() - 1;
        let process = cancelled[last].flow_start.process();
        let who = asked_number(process, first[last]);
        let them = asked_number(process, second[last]);
        assert(asked_cancelled(cancelled, first) == asked_cancelled(shorter, first) + who);
        assert(asked_cancelled(cancelled, second) == asked_cancelled(shorter, second) + them);
        lemma_cancelled_are_told(shorter, first, second, who + first_rest, them + second_rest);
        lemma_number_is_told(process, first[last], second[last], first_rest, second_rest);
        assert(first[last] == second[last]);
    }
}

proof fn lemma_lifecycle_is_told(
    state: ObservationStateView,
    lifecycle: EbpfProcessLifecycleObservation,
    wall_time_unix_ns: i64,
    first: Seq<ProcessReply>,
    second: Seq<ProcessReply>,
)
    requires
        state.lifecycle_ended(lifecycle, wall_time_unix_ns, first).talk == state.lifecycle_ended(
            lifecycle,
            wall_time_unix_ns,
            second,
        ).talk,
    ensures
        state.lifecycle_ended(lifecycle, wall_time_unix_ns, first) == state.lifecycle_ended(
            lifecycle,
            wall_time_unix_ns,
            second,
        ),
{
    let nothing = Seq::<ResolverExchange>::empty();
    let cancelled = state.pending_flows.filter(is_of_process(lifecycle.process.tgid));
    let timestamp = state.stamp(wall_time_unix_ns);
    if cancelled.len() > 0 {
        lemma_cancelled_are_told(cancelled, first, second, nothing, nothing);
        let gaps = cancelled_gaps(cancelled, lifecycle, timestamp, first);
        let others = cancelled_gaps(cancelled, lifecycle, timestamp, second);
        assert forall|index: int| 0 <= index < gaps.len() implies gaps[index] == others[index] by {
            assert(first[index] == second[index]);
        }
        assert(gaps =~= others);
    } else {
        assert(cancelled_gaps(cancelled, lifecycle, timestamp, first) =~= cancelled_gaps(
            cancelled,
            lifecycle,
            timestamp,
            second,
        ));
    }
}

proof fn lemma_begun_is_told(
    state: ObservationStateView,
    start: PendingEbpfFlowStart,
    now_ns: u64,
    wall_time_unix_ns: i64,
    first: AttemptReplies,
    second: AttemptReplies,
)
    requires
        state.begun(start, now_ns, wall_time_unix_ns, first).talk == state.begun(
            start,
            now_ns,
            wall_time_unix_ns,
            second,
        ).talk,
    ensures
        state.begun(start, now_ns, wall_time_unix_ns, first) == state.begun(
            start,
            now_ns,
            wall_time_unix_ns,
            second,
        ),
{
    reveal(ObservationStateView::begun);
    let nothing = Seq::<ResolverExchange>::empty();
    if start.lease() is None {
        lemma_number_is_told(start.process(), first.gap, second.gap, nothing, nothing);
    } else {
        lemma_attempt_is_told(
            state.ticked(),
            PendingEbpfFlowResolution::fresh(start, state.stamp(wall_time_unix_ns)),
            true,
            now_ns,
            first,
            second,
        );
    }
}

proof fn lemma_observation_is_told(
    state: ObservationStateView,
    observation: EbpfProcessObservationView,
    now_ns: u64,
    wall_time_unix_ns: i64,
    first: PollReplies,
    second: PollReplies,
)
    requires
        state.observed(observation, now_ns, wall_time_unix_ns, first).talk == state.observed(
            observation,
            now_ns,
            wall_time_unix_ns,
            second,
        ).talk,
    ensures
        state.observed(observation, now_ns, wall_time_unix_ns, first) == state.observed(
            observation,
            now_ns,
            wall_time_unix_ns,
            second,
        ),
{
    reveal(ObservationStateView::observed);
    match observation {
        EbpfProcessObservationView::Connect(connect) => {
            lemma_begun_is_told(
                state,
                PendingEbpfFlowStart::Connect(connect),
                now_ns,
                wall_time_unix_ns,
                first.attempt,
                second.attempt,
            );
        },
        EbpfProcessObservationView::Accept(accept) => {
            lemma_begun_is_told(
                state,
                PendingEbpfFlowStart::Accept(accept),
                now_ns,
                wall_time_unix_ns,
                first.attempt,
                second.attempt,
            );
        },
        EbpfProcessObservationView::ProcessLifecycle(lifecycle) => {
            lemma_lifecycle_observation_is_told(
                state,
                lifecycle,
                now_ns,
                wall_time_unix_ns,
                first,
                second,
            );
        },
        _ => {},
    }
}

proof fn lemma_lifecycle_observation_is_told(
    state: ObservationStateView,
    lifecycle: EbpfProcessLifecycleObservation,
    now_ns: u64,
    wall_time_unix_ns: i64,
    first: PollReplies,
    second: PollReplies,
)
    requires
        state.observed(
            EbpfProcessObservationView::ProcessLifecycle(lifecycle),
            now_ns,
            wall_time_unix_ns,
            first,
        ).talk == state.observed(
            EbpfProcessObservationView::ProcessLifecycle(lifecycle),
            now_ns,
            wall_time_unix_ns,
            second,
        ).talk,
    ensures
        state.observed(
            EbpfProcessObservationView::ProcessLifecycle(lifecycle),
            now_ns,
            wall_time_unix_ns,
            first,
        ) == state.observed(
            EbpfProcessObservationView::ProcessLifecycle(lifecycle),
            now_ns,
            wall_time_unix_ns,
            second,
        ),
{
    reveal(ObservationStateView::observed);
    let observation = EbpfProcessObservationView::ProcessLifecycle(lifecycle);
    let one = state.observed(observation, now_ns, wall_time_unix_ns, first).talk;
    let other = state.observed(observation, now_ns, wall_time_unix_ns, second).talk;
    let synced = allowance_talk(lifecycle, state.process_selector, first.program, first.allowance);
    let also = allowance_talk(lifecycle, state.process_selector, second.program, second.allowance);
    let rest = state.lifecycle_ended(lifecycle, wall_time_unix_ns, first.cancelled).talk;
    let others = state.lifecycle_ended(lifecycle, wall_time_unix_ns, second.cancelled).talk;
    assert(rest.source =~= others.source);
    if state.process_selector is Some {
        assert(one.source[0] == synced.source[0]);
        assert(other.source[0] == also.source[0]);
        assert(first.allowance == second.allowance);
        if lifecycle.kind == EbpfProcessLifecycleKind::Exec {
            assert(one.resolver[0] == synced.resolver[0]);
            assert(other.resolver[0] == also.resolver[0]);
        }
        assert(synced.resolver =~= also.resolver);
        assert(synced.source =~= also.source);
    }
    assert(synced.resolver =~= also.resolver);
    if !(state.process_selector is Some && first.allowance is Err) {
        lemma_same_rest(synced.resolver, rest.resolver, others.resolver);
        assert(rest == others);
        lemma_lifecycle_is_told(
            state,
            lifecycle,
            wall_time_unix_ns,
            first.cancelled,
            second.cancelled,
        );
    }
}

proof fn lemma_drained_is_told(
    state: ObservationStateView,
    now_ns: u64,
    wall_time_unix_ns: i64,
    first: PollReplies,
    second: PollReplies,
)
    requires
        state.drained(now_ns, wall_time_unix_ns, first).talk == state.drained(
            now_ns,
            wall_time_unix_ns,
            second,
        ).talk,
    ensures
        state.drained(now_ns, wall_time_unix_ns, first) == state.drained(
            now_ns,
            wall_time_unix_ns,
            second,
        ),
{
    reveal(ObservationStateView::drained);
    let one = state.drained(now_ns, wall_time_unix_ns, first).talk;
    let other = state.drained(now_ns, wall_time_unix_ns, second).talk;
    if state.pending_flows.len() > 0 {
        reveal(ObservationStateView::resumed);
        let skipped = waiting_in_front(state.pending_flows, now_ns) as int;
        if skipped < state.pending_flows.len() {
            let turned = ObservationStateView {
                pending_flows: state.pending_flows.skip(skipped + 1) + state.pending_flows.take(
                    skipped,
                ),
                ..state
            };
            lemma_attempt_is_told(
                turned,
                state.pending_flows[skipped],
                true,
                now_ns,
                first.attempt,
                second.attempt,
            );
        }
    } else {
        assert(one.source[0] == SourceExchange::Next(first.observation));
        assert(other.source[0] == SourceExchange::Next(second.observation));
        assert(first.observation == second.observation);
        let asked = seq![SourceExchange::Next(first.observation)];
        match first.observation {
            Err(_) => {},
            Ok(Some(observation)) => {
                let counted = ObservationStateView { loss: state.loss.observed(), ..state };
                let rest = counted.observed(observation, now_ns, wall_time_unix_ns, first).talk;
                let others = counted.observed(observation, now_ns, wall_time_unix_ns, second).talk;
                lemma_same_rest(asked, rest.source, others.source);
                assert(rest == others);
                lemma_observation_is_told(
                    counted,
                    observation,
                    now_ns,
                    wall_time_unix_ns,
                    first,
                    second,
                );
            },
            Ok(None) => {
                assert(one.source[1] == SourceExchange::LossCount(first.last_count));
                assert(other.source[1] == SourceExchange::LossCount(second.last_count));
            },
        }
    }
}

proof fn lemma_emptied_is_told(
    state: ObservationStateView,
    now_ns: u64,
    wall_time_unix_ns: i64,
    first: PollReplies,
    second: PollReplies,
)
    requires
        state.emptied(now_ns, wall_time_unix_ns, first).talk == state.emptied(
            now_ns,
            wall_time_unix_ns,
            second,
        ).talk,
    ensures
        state.emptied(now_ns, wall_time_unix_ns, first) == state.emptied(
            now_ns,
            wall_time_unix_ns,
            second,
        ),
{
    reveal(ObservationStateView::emptied);
    let one = state.emptied(now_ns, wall_time_unix_ns, first).talk;
    let other = state.emptied(now_ns, wall_time_unix_ns, second).talk;
    if state.pending_flows.len() > 0 {
        lemma_attempt_is_told(
            state.without_first_start(),
            state.pending_flows[0],
            false,
            now_ns,
            first.attempt,
            second.attempt,
        );
    } else {
        assert(one.source[0] == SourceExchange::LossCount(first.last_count));
        assert(other.source[0] == SourceExchange::LossCount(second.last_count));
    }
}

/// What a poll leads to is decided by the state, the clocks and what was exchanged with the source
/// and with the resolver: where the exchanges are the same, so are the next state and what the
/// poll brings.
pub proof fn law_exchanges_decide_poll(
    state: ObservationStateView,
    now_ns: u64,
    wall_time_unix_ns: i64,
    first: PollReplies,
    second: PollReplies,
)
    requires
        state.polled(now_ns, wall_time_unix_ns, first).talk == state.polled(
            now_ns,
            wall_time_unix_ns,
            second,
        ).talk,
    ensures
        state.polled(now_ns, wall_time_unix_ns, first) == state.polled(
            now_ns,
            wall_time_unix_ns,
            second,
        ),
{
    let one = state.polled(now_ns, wall_time_unix_ns, first).talk;
    let other = state.polled(now_ns, wall_time_unix_ns, second).talk;
    if state.pending_events.len() == 0 {
        if state.loss.due() {
            assert(one.source[0] == SourceExchange::LossCount(first.first_count));
            assert(other.source[0] == SourceExchange::LossCount(second.first_count));
            if let Ok(count) = first.first_count {
                let next = state.loss_checked(count, wall_time_unix_ns);
                if next.event is None {
                    let asked = seq![SourceExchange::LossCount(first.first_count)];
                    let rest = next.state.drained(now_ns, wall_time_unix_ns, first).talk;
                    let others = next.state.drained(now_ns, wall_time_unix_ns, second).talk;
                    lemma_same_rest(asked, rest.source, others.source);
                    assert(rest == others);
                    lemma_drained_is_told(next.state, now_ns, wall_time_unix_ns, first, second);
                }
            }
        } else {
            lemma_drained_is_told(state, now_ns, wall_time_unix_ns, first, second);
        }
    }
}

/// What a step of a drain leads to is decided in the same way.
pub proof fn law_exchanges_decide_drain(
    state: ObservationStateView,
    now_ns: u64,
    wall_time_unix_ns: i64,
    first: PollReplies,
    second: PollReplies,
)
    requires
        state.drained_for_handoff(now_ns, wall_time_unix_ns, first).talk
            == state.drained_for_handoff(now_ns, wall_time_unix_ns, second).talk,
    ensures
        state.drained_for_handoff(now_ns, wall_time_unix_ns, first) == state.drained_for_handoff(
            now_ns,
            wall_time_unix_ns,
            second,
        ),
{
    let one = state.drained_for_handoff(now_ns, wall_time_unix_ns, first).talk;
    let other = state.drained_for_handoff(now_ns, wall_time_unix_ns, second).talk;
    if state.pending_events.len() == 0 {
        if state.loss.due() {
            assert(one.source[0] == SourceExchange::LossCount(first.first_count));
            assert(other.source[0] == SourceExchange::LossCount(second.first_count));
            if let Ok(count) = first.first_count {
                let next = state.loss_checked(count, wall_time_unix_ns);
                if next.event is None {
                    let asked = seq![SourceExchange::LossCount(first.first_count)];
                    let rest = next.state.emptied(now_ns, wall_time_unix_ns, first).talk;
                    let others = next.state.emptied(now_ns, wall_time_unix_ns, second).talk;
                    lemma_same_rest(asked, rest.source, others.source);
                    assert(rest == others);
                    lemma_emptied_is_told(next.state, now_ns, wall_time_unix_ns, first, second);
                }
            }
        } else {
            lemma_emptied_is_told(state, now_ns, wall_time_unix_ns, first, second);
        }
    }
}

} // verus!
