//! What providers replied decides what a round of them leads to.
use vstd::prelude::*;

use crate::multiplex::{
    all_capabilities, disabled_reason, MultiplexFailurePolicy, MultiplexView, MultiplexedProviderView, ProviderExchange,
    ProviderStateView, TurnReply, TurnView,
};
use crate::provider::{CapabilityStateView, CapabilityStatusView, CapturePollView};

verus! {

/// Whether each provider's record goes on from where it was.
pub open spec fn records_go_on(
    earlier: Seq<MultiplexedProviderView>,
    later: Seq<MultiplexedProviderView>,
) -> bool {
    &&& earlier.len() == later.len()
    &&& forall|index: int|
        #![trigger later[index]]
        0 <= index < later.len() ==> earlier[index].exchanges.is_prefix_of(later[index].exchanges)
}

proof fn lemma_prefix_of_prefix<A>(first: Seq<A>, second: Seq<A>, third: Seq<A>)
    requires
        first.is_prefix_of(second),
        second.is_prefix_of(third),
    ensures
        first.is_prefix_of(third),
{
    assert(third.take(first.len() as int) =~= second.take(first.len() as int));
}

proof fn lemma_turn_goes_on(provider: MultiplexedProviderView, reply: TurnReply)
    ensures
        provider.exchanges.is_prefix_of(provider.after_turn(reply).exchanges),
{
    let later = provider.after_turn(reply).exchanges;
    assert(later.take(provider.exchanges.len() as int) =~= provider.exchanges);
}

proof fn lemma_current_is_one(multiplex: MultiplexView)
    requires
        multiplex.providers.len() > 0,
        0 <= multiplex.next_index,
    ensures
        0 <= multiplex.current() < multiplex.providers.len(),
        0 <= multiplex.passed_on().next_index,
{
    let count = multiplex.providers.len() as int;
    let index = multiplex.current();
    assert(0 <= index < count) by (nonlinear_arith)
        requires
            index == multiplex.next_index % count,
            count > 0,
    ;
    assert(0 <= (index + 1) % count) by (nonlinear_arith)
        requires
            count > 0,
            0 <= index,
    ;
}

/// The providers after the turn of the current one.
spec fn after_current(multiplex: MultiplexView, reply: TurnReply) -> MultiplexView {
    MultiplexView {
        providers: multiplex.providers.update(
            multiplex.current(),
            multiplex.providers[multiplex.current()].after_turn(reply),
        ),
        ..multiplex.passed_on()
    }
}

proof fn lemma_round_goes_on(
    multiplex: MultiplexView,
    turns: nat,
    made_progress: bool,
    replies: Seq<TurnReply>,
)
    requires
        multiplex.providers.len() > 0,
        0 <= multiplex.next_index,
    ensures
        records_go_on(
            multiplex.providers,
            multiplex.rest_of_round(turns, made_progress, replies).multiplex.providers,
        ),
    decreases turns,
{
    let earlier = multiplex.providers;
    let later = multiplex.rest_of_round(turns, made_progress, replies).multiplex.providers;
    if turns == 0 {
        assert forall|index: int| #![trigger later[index]] 0 <= index < later.len() implies earlier[
            index
        ].exchanges.is_prefix_of(later[index].exchanges) by {
            let whole = earlier[index].exchanges;
            assert(whole.take(whole.len() as int) =~= whole);
        }
    } else {
        lemma_current_is_one(multiplex);
        let current = multiplex.current();
        let provider = earlier[current];
        if !(provider.state is Active) {
            lemma_round_goes_on(
                multiplex.passed_on(),
                (turns - 1) as nat,
                made_progress,
                replies,
            );
        } else {
            let next = after_current(multiplex, replies[0]);
            lemma_turn_goes_on(provider, replies[0]);
            match provider.turn(replies[0]) {
                TurnView::Return(_) => {},
                TurnView::Progress => {
                    lemma_round_goes_on(next, (turns - 1) as nat, true, replies.drop_first());
                },
                TurnView::Quiet => {
                    lemma_round_goes_on(
                        next,
                        (turns - 1) as nat,
                        made_progress,
                        replies.drop_first(),
                    );
                },
            }
            assert forall|index: int|
                #![trigger later[index]]
                0 <= index < later.len() implies earlier[index].exchanges.is_prefix_of(
                later[index].exchanges,
            ) by {
                let whole = earlier[index].exchanges;
                assert(whole.take(whole.len() as int) =~= whole);
                if !(provider.turn(replies[0]) is Return) {
                    if index == current {
                        lemma_prefix_of_prefix(
                            whole,
                            next.providers[index].exchanges,
                            later[index].exchanges,
                        );
                    }
                }
            }
        }
    }
}

/// The record of a provider tells what it replied in its turn, however it goes on.
proof fn lemma_turn_is_told(
    provider: MultiplexedProviderView,
    first: TurnReply,
    second: TurnReply,
    later: MultiplexedProviderView,
)
    requires
        provider.after_turn(first).exchanges.is_prefix_of(later.exchanges),
        provider.after_turn(second).exchanges.is_prefix_of(later.exchanges),
    ensures
        provider.after_turn(first) == provider.after_turn(second),
        provider.turn(first) == provider.turn(second),
{
    let one = provider.after_turn(first).exchanges;
    let other = provider.after_turn(second).exchanges;
    let place = provider.exchanges.len() as int;
    assert(one[place] == later.exchanges[place]);
    assert(other[place] == later.exchanges[place]);
    assert(first.poll == second.poll);
    assert(one.len() == other.len());
    if one.len() > place + 1 {
        assert(one[place + 1] == later.exchanges[place + 1]);
        assert(other[place + 1] == later.exchanges[place + 1]);
    }
    if one.len() > place + 2 {
        assert(one[place + 2] == later.exchanges[place + 2]);
        assert(other[place + 2] == later.exchanges[place + 2]);
    }
    assert(provider.after_turn(first) =~= provider.after_turn(second));
}

proof fn lemma_round_is_told(
    multiplex: MultiplexView,
    turns: nat,
    made_progress: bool,
    first: Seq<TurnReply>,
    second: Seq<TurnReply>,
)
    requires
        multiplex.providers.len() > 0,
        0 <= multiplex.next_index,
        multiplex.rest_of_round(turns, made_progress, first).multiplex
            == multiplex.rest_of_round(turns, made_progress, second).multiplex,
    ensures
        multiplex.rest_of_round(turns, made_progress, first) == multiplex.rest_of_round(
            turns,
            made_progress,
            second,
        ),
    decreases turns,
{
    if turns > 0 {
        lemma_current_is_one(multiplex);
        let current = multiplex.current();
        let provider = multiplex.providers[current];
        let fewer = (turns - 1) as nat;
        if !(provider.state is Active) {
            lemma_round_is_told(multiplex.passed_on(), fewer, made_progress, first, second);
        } else {
            let later = multiplex.rest_of_round(turns, made_progress, first).multiplex.providers;
            lemma_turn_leads_on(multiplex, turns, made_progress, first);
            lemma_turn_leads_on(multiplex, turns, made_progress, second);
            lemma_turn_is_told(provider, first[0], second[0], later[current]);
            let next = after_current(multiplex, first[0]);
            assert(next == after_current(multiplex, second[0]));
            match provider.turn(first[0]) {
                TurnView::Return(_) => {},
                TurnView::Progress => {
                    lemma_round_is_told(next, fewer, true, first.drop_first(), second.drop_first());
                },
                TurnView::Quiet => {
                    lemma_round_is_told(
                        next,
                        fewer,
                        made_progress,
                        first.drop_first(),
                        second.drop_first(),
                    );
                },
            }
        }
    }
}

/// What the current provider's record is after its turn is where it goes on from.
proof fn lemma_turn_leads_on(
    multiplex: MultiplexView,
    turns: nat,
    made_progress: bool,
    replies: Seq<TurnReply>,
)
    requires
        multiplex.providers.len() > 0,
        0 <= multiplex.next_index,
        turns > 0,
        multiplex.providers[multiplex.current()].state is Active,
    ensures
        multiplex.providers[multiplex.current()].after_turn(
            replies[0],
        ).exchanges.is_prefix_of(
            multiplex.rest_of_round(turns, made_progress, replies).multiplex.providers[
            multiplex.current()].exchanges,
        ),
{
    lemma_current_is_one(multiplex);
    let current = multiplex.current();
    let next = after_current(multiplex, replies[0]);
    let later = multiplex.rest_of_round(turns, made_progress, replies).multiplex.providers;
    let whole = next.providers[current].exchanges;
    assert(whole.take(whole.len() as int) =~= whole);
    match multiplex.providers[current].turn(replies[0]) {
        TurnView::Return(_) => {},
        TurnView::Progress => {
            lemma_round_goes_on(next, (turns - 1) as nat, true, replies.drop_first());
            assert(whole.is_prefix_of(later[current].exchanges));
        },
        TurnView::Quiet => {
            lemma_round_goes_on(next, (turns - 1) as nat, made_progress, replies.drop_first());
            assert(whole.is_prefix_of(later[current].exchanges));
        },
    }
}

/// What a round brings is decided by what the providers replied in it, as their records tell:
/// rounds that leave the providers with the same records bring the same.
pub proof fn law_exchanges_decide_round(
    multiplex: MultiplexView,
    first: Seq<TurnReply>,
    second: Seq<TurnReply>,
)
    requires
        0 <= multiplex.next_index,
        multiplex.round(first).multiplex == multiplex.round(second).multiplex,
    ensures
        multiplex.round(first) == multiplex.round(second),
{
    if !multiplex.all_done() {
        lemma_round_is_told(multiplex, multiplex.providers.len(), false, first, second);
    }
}

/// How many turns pass before that of a provider.
pub open spec fn turns_before(multiplex: MultiplexView, index: int) -> int {
    (index - multiplex.next_index) % multiplex.providers.len() as int
}

/// Whether a provider had its turn: one that is polled was polled once more, and any other one is
/// as it was.
pub open spec fn had_its_turn(
    before: MultiplexedProviderView,
    after: MultiplexedProviderView,
) -> bool {
    if before.state is Active {
        exists|reply: TurnReply|
            #![trigger before.after_turn(reply)]
            after == before.after_turn(reply) && after.exchanges[before.exchanges.len() as int]
                == ProviderExchange::Polled(reply.poll)
    } else {
        after == before
    }
}

proof fn lemma_turns_pass(multiplex: MultiplexView, index: int)
    requires
        0 <= multiplex.next_index < multiplex.providers.len(),
        0 <= index < multiplex.providers.len(),
    ensures
        multiplex.current() == multiplex.next_index,
        0 <= turns_before(multiplex, index) < multiplex.providers.len(),
        turns_before(multiplex, index) == 0 <==> index == multiplex.next_index,
        turns_before(multiplex, index) > 0 ==> turns_before(multiplex.passed_on(), index)
            == turns_before(multiplex, index) - 1,
        index == multiplex.next_index ==> turns_before(multiplex.passed_on(), index)
            == multiplex.providers.len() - 1,
        0 <= multiplex.passed_on().next_index < multiplex.providers.len(),
{
    let count = multiplex.providers.len() as int;
    let next = multiplex.next_index;
    assert(multiplex.current() == next) by {
        vstd::arithmetic::div_mod::lemma_small_mod(next as nat, count as nat);
    }
    let ahead = if index >= next {
        index - next
    } else {
        index - next + count
    };
    assert((index - next) % count == ahead) by {
        if index < next {
            vstd::arithmetic::div_mod::lemma_mod_add_multiples_vanish(index - next, count);
        }
        vstd::arithmetic::div_mod::lemma_small_mod(ahead as nat, count as nat);
    }
    let moved = if next + 1 < count {
        next + 1
    } else {
        0
    };
    assert((next + 1) % count == moved) by {
        if next + 1 < count {
            vstd::arithmetic::div_mod::lemma_small_mod((next + 1) as nat, count as nat);
        } else {
            vstd::arithmetic::div_mod::lemma_mod_self_0(count);
        }
    }
    let later = if index >= moved {
        index - moved
    } else {
        index - moved + count
    };
    assert((index - moved) % count == later) by {
        if index < moved {
            vstd::arithmetic::div_mod::lemma_mod_add_multiples_vanish(index - moved, count);
        }
        vstd::arithmetic::div_mod::lemma_small_mod(later as nat, count as nat);
    }
}

proof fn lemma_turns_are_had(
    multiplex: MultiplexView,
    turns: nat,
    made_progress: bool,
    replies: Seq<TurnReply>,
    index: int,
)
    requires
        turns <= multiplex.providers.len(),
        0 <= multiplex.next_index < multiplex.providers.len(),
        0 <= index < multiplex.providers.len(),
    ensures
        ({
            let round = multiplex.rest_of_round(turns, made_progress, replies);
            let before = multiplex.providers[index];
            let after = round.multiplex.providers[index];
            &&& round.multiplex.providers.len() == multiplex.providers.len()
            &&& turns_before(multiplex, index) >= turns ==> after == before
            &&& turns_before(multiplex, index) < turns && !(round.poll is Err) && !(
            round.poll matches Ok(CapturePollView::Event(_))) ==> had_its_turn(before, after)
        }),
    decreases turns,
{
    lemma_turns_pass(multiplex, index);
    if turns > 0 {
        let current = multiplex.current();
        let provider = multiplex.providers[current];
        let fewer = (turns - 1) as nat;
        if !(provider.state is Active) {
            lemma_turns_are_had(multiplex.passed_on(), fewer, made_progress, replies, index);
        } else {
            let next = MultiplexView {
                providers: multiplex.providers.update(current, provider.after_turn(replies[0])),
                ..multiplex.passed_on()
            };
            assert(turns_before(next, index) == turns_before(multiplex.passed_on(), index));
            let after = provider.after_turn(replies[0]);
            assert(after.exchanges[provider.exchanges.len() as int]
                == ProviderExchange::Polled(replies[0].poll));
            lemma_turns_are_had(next, fewer, true, replies.drop_first(), index);
            lemma_turns_are_had(next, fewer, made_progress, replies.drop_first(), index);
        }
    }
}

/// Every provider has its turn: a round that brings neither an event nor a failure polled each one
/// that is polled once, and left the others alone.
pub proof fn law_every_provider_has_its_turn(
    multiplex: MultiplexView,
    replies: Seq<TurnReply>,
    index: int,
)
    requires
        0 <= multiplex.next_index < multiplex.providers.len(),
        0 <= index < multiplex.providers.len(),
    ensures
        ({
            let round = multiplex.round(replies);
            let before = multiplex.providers[index];
            let after = round.multiplex.providers[index];
            !(round.poll is Err) && !(round.poll matches Ok(CapturePollView::Event(_)))
                ==> had_its_turn(before, after)
        }),
{
    lemma_turns_pass(multiplex, index);
    if !multiplex.all_done() {
        lemma_turns_are_had(multiplex, multiplex.providers.len(), false, replies, index);
    }
}

/// What a turn leads to: an event is brought, and so is the failure of a provider that is required,
/// which is polled further; one that has failed at best effort, or has nothing left, is not polled
/// any more. What it could do is kept, and after a failure told to be unavailable.
pub proof fn law_turn_goes_by_the_poll(provider: MultiplexedProviderView, reply: TurnReply)
    requires
        provider.state is Active,
    ensures
        ({
            let after = provider.after_turn(reply);
            let turn = provider.turn(reply);
            let required = provider.failure_policy == MultiplexFailurePolicy::Required;
            &&& reply.poll matches Ok(CapturePollView::Event(event)) ==> turn == TurnView::Return(
                Ok(CapturePollView::Event(event)),
            ) && after.state is Active
            &&& reply.poll == Ok::<_, crate::provider::CaptureErrorView>(CapturePollView::Progress)
                ==> turn == TurnView::Progress && after.state is Active
            &&& reply.poll == Ok::<_, crate::provider::CaptureErrorView>(CapturePollView::Idle)
                ==> turn == TurnView::Quiet && after.state is Active
            &&& reply.poll == Ok::<_, crate::provider::CaptureErrorView>(CapturePollView::Finished)
                ==> turn == TurnView::Quiet && after.state == (ProviderStateView::Finished {
                capabilities: reply.capabilities,
            })
            &&& reply.poll matches Err(error) ==> (required ==> turn == TurnView::Return(
                Err(error),
            ) && after.state is Active) && (!required ==> turn == TurnView::Progress && (after.state
                matches ProviderStateView::Disabled { capabilities } && capabilities.len()
                == reply.capabilities.len() && forall|index: int|
                0 <= index < capabilities.len() ==> (#[trigger] capabilities[index]).kind
                    == reply.capabilities[index].kind && capabilities[index].status == (
                CapabilityStatusView::Unavailable {
                    reason: "best-effort capture provider "@ + reply.name
                        + " disabled after error: "@ + error.text(),
                })))
        }),
{
}

/// Whether a reply brings nothing: its provider is idle or has nothing left.
pub open spec fn is_quiet(reply: TurnReply) -> bool {
    reply.poll matches Ok(poll) && (poll is Idle || poll is Finished)
}

proof fn lemma_round_tells_progress(
    multiplex: MultiplexView,
    turns: nat,
    made_progress: bool,
    replies: Seq<TurnReply>,
)
    ensures
        ({
            let round = multiplex.rest_of_round(turns, made_progress, replies);
            &&& made_progress ==> !(round.poll matches Ok(CapturePollView::Idle))
            &&& !made_progress && turns <= replies.len() && (forall|index: int|
                0 <= index < replies.len() ==> is_quiet(#[trigger] replies[index])) ==> (
            round.poll matches Ok(poll) && (poll is Idle || poll is Finished))
            &&& (round.poll matches Ok(poll) && (poll is Idle || poll is Progress))
                ==> !round.multiplex.all_done()
        }),
    decreases turns,
{
    if turns > 0 {
        let current = multiplex.current();
        let provider = multiplex.providers[current];
        let fewer = (turns - 1) as nat;
        if !(provider.state is Active) {
            lemma_round_tells_progress(multiplex.passed_on(), fewer, made_progress, replies);
        } else {
            let next = MultiplexView {
                providers: multiplex.providers.update(current, provider.after_turn(replies[0])),
                ..multiplex.passed_on()
            };
            let rest = replies.drop_first();
            lemma_round_tells_progress(next, fewer, true, rest);
            lemma_round_tells_progress(next, fewer, made_progress, rest);
            if turns <= replies.len() && (forall|index: int|
                0 <= index < replies.len() ==> is_quiet(#[trigger] replies[index])) {
                assert(is_quiet(replies[0]));
                assert forall|index: int| 0 <= index < rest.len() implies is_quiet(
                    #[trigger] rest[index],
                ) by {
                    assert(rest[index] == replies[index + 1]);
                    assert(is_quiet(replies[index + 1]));
                }
            }
        }
    }
}

/// A round is idle, or finished, if all that its providers reply is quiet; it is not idle if the
/// first one polled makes progress; and it is idle or makes progress only where a provider is left.
pub proof fn law_round_is_as_busy_as_its_providers(
    multiplex: MultiplexView,
    replies: Seq<TurnReply>,
)
    requires
        0 <= multiplex.next_index < multiplex.providers.len(),
        multiplex.providers.len() <= replies.len(),
    ensures
        ({
            let round = multiplex.round(replies);
            &&& (forall|index: int|
                0 <= index < replies.len() ==> is_quiet(#[trigger] replies[index])) ==> (
            round.poll matches Ok(poll) && (poll is Idle || poll is Finished))
            &&& multiplex.providers[multiplex.next_index].state is Active && (
            replies[0].poll matches Ok(CapturePollView::Progress)) ==> !(round.poll matches Ok(
                CapturePollView::Idle,
            ))
            &&& (round.poll matches Ok(poll) && (poll is Idle || poll is Progress))
                ==> !round.multiplex.all_done()
        }),
{
    let count = multiplex.providers.len();
    vstd::arithmetic::div_mod::lemma_small_mod(multiplex.next_index as nat, count);
    let current = multiplex.current();
    assert(current == multiplex.next_index);
    lemma_round_tells_progress(multiplex, count, false, replies);
    let provider = multiplex.providers[current];
    let next = MultiplexView {
        providers: multiplex.providers.update(current, provider.after_turn(replies[0])),
        ..multiplex.passed_on()
    };
    lemma_round_tells_progress(next, (count - 1) as nat, true, replies.drop_first());
}

/// The handler of a provider that has failed at best effort is told why, once, and last of all; in
/// any other turn no handler is told anything.
pub proof fn law_handler_is_told_of_the_failure(
    provider: MultiplexedProviderView,
    reply: TurnReply,
)
    requires
        provider.state is Active,
    ensures
        ({
            let after = provider.after_turn(reply);
            let before = provider.exchanges.len() as int;
            let fails = reply.poll is Err && provider.failure_policy
                == MultiplexFailurePolicy::BestEffort;
            &&& after.exchanges.len() > before
            &&& forall|index: int|
                before <= index < after.exchanges.len() ==> ((
                #[trigger] after.exchanges[index]) is HandlerTold <==> fails && provider.has_handler
                    && index == after.exchanges.len() - 1)
            &&& fails && provider.has_handler ==> (after.exchanges.last() matches
                ProviderExchange::HandlerTold(reason) && reason == "best-effort capture provider "@
                + reply.name + " disabled after error: "@ + reply.poll->Err_0.text())
        }),
{
    assert("best-effort capture provider "@ + reply.name + " disabled after error: "@
        + reply.poll->Err_0.text() =~= disabled_reason(reply.name, reply.poll->Err_0));
}

/// What a provider can do: what it tells while it is polled, and what was kept of it afterwards.
pub open spec fn abilities_of(
    provider: MultiplexedProviderView,
    told: Seq<CapabilityStateView>,
) -> Seq<CapabilityStateView> {
    match provider.state {
        ProviderStateView::Active => told,
        ProviderStateView::Finished { capabilities } => capabilities,
        ProviderStateView::Disabled { capabilities } => capabilities,
    }
}

/// What the providers can do together is what each of them can do: nothing is left out, and nothing
/// is added.
pub proof fn law_capabilities_are_those_of_all(
    providers: Seq<MultiplexedProviderView>,
    told: Seq<Seq<CapabilityStateView>>,
    state: CapabilityStateView,
)
    ensures
        all_capabilities(providers, told).contains(state) <==> exists|index: int|
            0 <= index < providers.len() && #[trigger] abilities_of(
                providers[index],
                told[index],
            ).contains(state),
    decreases providers.len(),
{
    if providers.len() > 0 {
        let fewer = providers.drop_last();
        let last = providers.len() - 1;
        let own = abilities_of(providers[last], told[last]);
        let earlier = all_capabilities(fewer, told);
        law_capabilities_are_those_of_all(fewer, told, state);
        let all = all_capabilities(providers, told);
        assert(all == earlier + own);
        if all.contains(state) {
            let place = choose|place: int| 0 <= place < all.len() && all[place] == state;
            if place < earlier.len() {
                assert(earlier[place] == state);
                let index = choose|index: int|
                    0 <= index < fewer.len() && #[trigger] abilities_of(
                        fewer[index],
                        told[index],
                    ).contains(state);
                assert(abilities_of(providers[index], told[index]).contains(state));
            } else {
                assert(own[place - earlier.len()] == state);
                assert(abilities_of(providers[last], told[last]).contains(state));
            }
        }
        if exists|index: int|
            0 <= index < providers.len() && #[trigger] abilities_of(
                providers[index],
                told[index],
            ).contains(state) {
            let index = choose|index: int|
                0 <= index < providers.len() && #[trigger] abilities_of(
                    providers[index],
                    told[index],
                ).contains(state);
            if index < last {
                assert(abilities_of(fewer[index], told[index]).contains(state));
                let place = choose|place: int| 0 <= place < earlier.len() && earlier[place] == state;
                assert(all[place] == state);
            } else {
                let place = choose|place: int| 0 <= place < own.len() && own[place] == state;
                assert(all[earlier.len() + place] == state);
            }
        }
    }
}

} // verus!
