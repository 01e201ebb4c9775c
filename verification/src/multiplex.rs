//! Several providers polled as one.
use vstd::prelude::*;
use vstd::string::StringExecFns;

use crate::event::CaptureEventView;
use crate::provider::{
    capability_views, CapabilityState, CapabilityStateView, CapabilityStatusView, CaptureError,
    CaptureErrorView, CapturePoll, CapturePollView, CaptureProvider,
};
use crate::text::joined;

verus! {

/// What becomes of the others when a provider fails: they fail too, or go on without it.
#[derive(Debug, Clone, Copy, PartialEq, Eq, Structural)]
pub enum MultiplexFailurePolicy {
    Required,
    BestEffort,
}

/// Is told when a provider is disabled.
pub trait DisableHandler {
    fn disabled(&mut self, reason: &str);
}

impl DisableHandler for Box<dyn DisableHandler> {
    fn disabled(&mut self, reason: &str) {
        (**self).disabled(reason)
    }
}

/// What a provider could do that is not polled any more, and why it is not.
pub enum EndedProvider {
    Finished { capabilities: Vec<CapabilityState> },
    Disabled { capabilities: Vec<CapabilityState> },
}

#[verifier::ext_equal]
pub enum ProviderStateView {
    Active,
    Finished { capabilities: Seq<CapabilityStateView> },
    Disabled { capabilities: Seq<CapabilityStateView> },
}

impl View for EndedProvider {
    type V = ProviderStateView;

    open spec fn view(&self) -> ProviderStateView {
        match *self {
            EndedProvider::Finished { capabilities } => ProviderStateView::Finished {
                capabilities: capability_views(capabilities@),
            },
            EndedProvider::Disabled { capabilities } => ProviderStateView::Disabled {
                capabilities: capability_views(capabilities@),
            },
        }
    }
}

/// One thing that a provider was asked for and replied, or that its handler was told.
#[verifier::ext_equal]
pub enum ProviderExchange {
    Polled(Result<CapturePollView, CaptureErrorView>),
    Named(Seq<char>),
    Listed(Seq<CapabilityStateView>),
    HandlerTold(Seq<char>),
}

/// A provider among others, with the record of what was exchanged with it in its turns. Each
/// exchange is one call of the provider or of its handler.
pub struct MultiplexedProvider {
    failure_policy: MultiplexFailurePolicy,
    provider: Option<Box<dyn CaptureProvider>>,
    ended: EndedProvider,
    disable_handler: Option<Box<dyn DisableHandler>>,
    exchanges: Ghost<Seq<ProviderExchange>>,
}

#[verifier::ext_equal]
pub struct MultiplexedProviderView {
    pub failure_policy: MultiplexFailurePolicy,
    pub state: ProviderStateView,
    pub has_handler: bool,
    pub exchanges: Seq<ProviderExchange>,
}

impl View for MultiplexedProvider {
    type V = MultiplexedProviderView;

    closed spec fn view(&self) -> MultiplexedProviderView {
        MultiplexedProviderView {
            failure_policy: self.failure_policy,
            state: if self.provider is Some {
                ProviderStateView::Active
            } else {
                self.ended@
            },
            has_handler: self.disable_handler is Some,
            exchanges: self.exchanges@,
        }
    }
}

/// What was replied when a provider was polled: the poll itself, and where it is not polled any
/// more, its name and what it could do.
#[verifier::ext_equal]
pub struct TurnReply {
    pub poll: Result<CapturePollView, CaptureErrorView>,
    pub name: Seq<char>,
    pub capabilities: Seq<CapabilityStateView>,
}

/// What a provider's turn leads to: something to return at once, progress, or nothing.
#[verifier::ext_equal]
pub enum TurnView {
    Return(Result<CapturePollView, CaptureErrorView>),
    Progress,
    Quiet,
}

/// Why a provider is disabled.
pub open spec fn disabled_reason(name: Seq<char>, error: CaptureErrorView) -> Seq<char> {
    "best-effort capture provider "@ + name + " disabled after error: "@ + error.text()
}

/// What a disabled provider can no longer do.
pub open spec fn all_unavailable(
    capabilities: Seq<CapabilityStateView>,
    reason: Seq<char>,
) -> Seq<CapabilityStateView> {
    capabilities.map_values(
        |state: CapabilityStateView|
            CapabilityStateView {
                kind: state.kind,
                status: CapabilityStatusView::Unavailable { reason },
            },
    )
}

impl MultiplexedProviderView {
    /// A provider that is polled and was not asked for anything yet.
    pub open spec fn fresh(failure_policy: MultiplexFailurePolicy, has_handler: bool) -> (
        MultiplexedProviderView) {
        MultiplexedProviderView {
            failure_policy,
            state: ProviderStateView::Active,
            has_handler,
            exchanges: Seq::empty(),
        }
    }

    /// The provider once something more was exchanged.
    pub open spec fn with_exchange(self, exchange: ProviderExchange) -> MultiplexedProviderView {
        MultiplexedProviderView { exchanges: self.exchanges.push(exchange), ..self }
    }

    /// The provider once it was polled for the last time, because it has nothing left.
    pub open spec fn finished(self, capabilities: Seq<CapabilityStateView>) -> (
        MultiplexedProviderView) {
        MultiplexedProviderView { state: ProviderStateView::Finished { capabilities }, ..self }
    }

    /// The provider once it was polled for the last time, because it has failed: its handler is
    /// told why.
    pub open spec fn disabled(
        self,
        capabilities: Seq<CapabilityStateView>,
        reason: Seq<char>,
    ) -> MultiplexedProviderView {
        let done = MultiplexedProviderView {
            state: ProviderStateView::Disabled {
                capabilities: all_unavailable(capabilities, reason),
            },
            ..self
        };
        if self.has_handler {
            done.with_exchange(ProviderExchange::HandlerTold(reason))
        } else {
            done
        }
    }

    /// The provider once what its poll brought was taken.
    pub open spec fn settled(self, reply: TurnReply) -> MultiplexedProviderView {
        match reply.poll {
            Ok(CapturePollView::Finished) => self.with_exchange(
                ProviderExchange::Listed(reply.capabilities),
            ).finished(reply.capabilities),
            Err(error) => match self.failure_policy {
                MultiplexFailurePolicy::Required => self,
                MultiplexFailurePolicy::BestEffort => self.with_exchange(
                    ProviderExchange::Named(reply.name),
                ).with_exchange(ProviderExchange::Listed(reply.capabilities)).disabled(
                    reply.capabilities,
                    disabled_reason(reply.name, error),
                ),
            },
            _ => self,
        }
    }

    /// The provider after its turn.
    pub open spec fn after_turn(self, reply: TurnReply) -> MultiplexedProviderView {
        self.with_exchange(ProviderExchange::Polled(reply.poll)).settled(reply)
    }

    /// What its turn leads to.
    pub open spec fn turn(self, reply: TurnReply) -> TurnView {
        match reply.poll {
            Ok(CapturePollView::Event(event)) => TurnView::Return(Ok(CapturePollView::Event(event))),
            Ok(CapturePollView::Progress) => TurnView::Progress,
            Ok(CapturePollView::Idle) => TurnView::Quiet,
            Ok(CapturePollView::Finished) => TurnView::Quiet,
            Err(error) => match self.failure_policy {
                MultiplexFailurePolicy::Required => TurnView::Return(Err(error)),
                MultiplexFailurePolicy::BestEffort => TurnView::Progress,
            },
        }
    }
}

/// What a provider's turn leads to.
pub enum ProviderTurn {
    Return(Result<CapturePoll, CaptureError>),
    Progress,
    Quiet,
}

/// The view of what is polled.
pub open spec fn polled_view(poll: Result<CapturePoll, CaptureError>) -> Result<
    CapturePollView,
    CaptureErrorView,
> {
    match poll {
        Ok(brought) => Ok(brought@),
        Err(error) => Err(error@),
    }
}

impl View for ProviderTurn {
    type V = TurnView;

    open spec fn view(&self) -> TurnView {
        match *self {
            ProviderTurn::Return(poll) => TurnView::Return(polled_view(poll)),
            ProviderTurn::Progress => TurnView::Progress,
            ProviderTurn::Quiet => TurnView::Quiet,
        }
    }
}

/// A copy of a list of capabilities.
fn copy_capabilities(capabilities: &Vec<CapabilityState>) -> (copy: Vec<CapabilityState>)
    ensures
        capability_views(copy@) == capability_views(capabilities@),
{
    let mut copy: Vec<CapabilityState> = Vec::new();
    let ghost views = capability_views(capabilities@);
    let mut index: usize = 0;
    assert(capability_views(copy@) =~= views.take(0));
    while index < capabilities.len()
        invariant
            index <= capabilities.len(),
            views == capability_views(capabilities@),
            capability_views(copy@) == views.take(index as int),
        decreases capabilities.len() - index,
    {
        let ghost before = copy@;
        copy.push(capabilities[index].clone());
        proof {
            assert(views[index as int] == capabilities@[index as int]@);
            assert(capability_views(copy@) =~= capability_views(before).push(views[index as int]));
            assert(views.take(index + 1) =~= views.take(index as int).push(views[index as int]));
        }
        index = index + 1;
    }
    assert(views.take(index as int) =~= views);
    copy
}

/// What a disabled provider can no longer do.
fn unavailable_capabilities(capabilities: &Vec<CapabilityState>, reason: &str) -> (unavailable: Vec<
    CapabilityState,
>)
    ensures
        capability_views(unavailable@) == all_unavailable(capability_views(capabilities@), reason@),
{
    let mut unavailable: Vec<CapabilityState> = Vec::new();
    let ghost views = all_unavailable(capability_views(capabilities@), reason@);
    let mut index: usize = 0;
    assert(capability_views(unavailable@) =~= views.take(0));
    while index < capabilities.len()
        invariant
            index <= capabilities.len(),
            views == all_unavailable(capability_views(capabilities@), reason@),
            capability_views(unavailable@) == views.take(index as int),
        decreases capabilities.len() - index,
    {
        let ghost before = unavailable@;
        unavailable.push(CapabilityState::unavailable(capabilities[index].kind, reason));
        proof {
            assert(capability_views(capabilities@)[index as int] == capabilities@[index as int]@);
            assert(capability_views(unavailable@) =~= capability_views(before).push(
                views[index as int],
            ));
            assert(views.take(index + 1) =~= views.take(index as int).push(views[index as int]));
        }
        index = index + 1;
    }
    assert(views.take(index as int) =~= views);
    unavailable
}

impl MultiplexedProvider {
    /// The provider that is polled, if one still is.
    pub closed spec fn polled_provider(&self) -> Option<Box<dyn CaptureProvider>> {
        self.provider
    }

    /// The handler that is told if the provider is disabled.
    pub closed spec fn handler(&self) -> Option<Box<dyn DisableHandler>> {
        self.disable_handler
    }

    pub fn required(provider: Box<dyn CaptureProvider>) -> (multiplexed: MultiplexedProvider)
        ensures
            multiplexed@ == MultiplexedProviderView::fresh(
                MultiplexFailurePolicy::Required,
                false,
            ),
            multiplexed.polled_provider() == Some(provider),
    {
        let polled = Some(provider);
        MultiplexedProvider::new(polled, MultiplexFailurePolicy::Required, None)
    }

    pub fn best_effort(provider: Box<dyn CaptureProvider>) -> (multiplexed: MultiplexedProvider)
        ensures
            multiplexed@ == MultiplexedProviderView::fresh(
                MultiplexFailurePolicy::BestEffort,
                false,
            ),
            multiplexed.polled_provider() == Some(provider),
    {
        let polled = Some(provider);
        MultiplexedProvider::new(polled, MultiplexFailurePolicy::BestEffort, None)
    }

    pub fn best_effort_with_disable_handler(
        provider: Box<dyn CaptureProvider>,
        handler: Box<dyn DisableHandler>,
    ) -> (multiplexed: MultiplexedProvider)
        ensures
            multiplexed@ == MultiplexedProviderView::fresh(
                MultiplexFailurePolicy::BestEffort,
                true,
            ),
            multiplexed.polled_provider() == Some(provider),
            multiplexed.handler() == Some(handler),
    {
        let polled = Some(provider);
        let told = Some(handler);
        MultiplexedProvider::new(polled, MultiplexFailurePolicy::BestEffort, told)
    }

    fn new(
        provider: Option<Box<dyn CaptureProvider>>,
        failure_policy: MultiplexFailurePolicy,
        disable_handler: Option<Box<dyn DisableHandler>>,
    ) -> (multiplexed: MultiplexedProvider)
        requires
            provider is Some,
        ensures
            multiplexed@ == MultiplexedProviderView::fresh(
                failure_policy,
                disable_handler is Some,
            ),
            multiplexed.polled_provider() == provider,
            multiplexed.handler() == disable_handler,
    {
        MultiplexedProvider {
            failure_policy,
            provider,
            ended: EndedProvider::Finished { capabilities: Vec::new() },
            disable_handler,
            exchanges: Ghost(Seq::empty()),
        }
    }

    pub fn is_active(&self) -> (active: bool)
        ensures
            active == (self@.state is Active),
    {
        self.provider.is_some()
    }

    /// What the provider can do, or could before it was not polled any more.
    pub fn capabilities(&self) -> (capabilities: Vec<CapabilityState>)
        ensures
            match self@.state {
                ProviderStateView::Active => self.polled_provider() is Some && call_ensures(
                    <Box<dyn CaptureProvider> as CaptureProvider>::capabilities,
                    (&self.polled_provider()->0,),
                    capabilities,
                ),
                ProviderStateView::Finished { capabilities: kept } => capability_views(
                    capabilities@,
                ) == kept,
                ProviderStateView::Disabled { capabilities: kept } => capability_views(
                    capabilities@,
                ) == kept,
            },
    {
        match &self.provider {
            Some(provider) => provider.capabilities(),
            None => match &self.ended {
                EndedProvider::Finished { capabilities } => copy_capabilities(capabilities),
                EndedProvider::Disabled { capabilities } => copy_capabilities(capabilities),
            },
        }
    }

    /// Polls the provider.
    fn poll_provider(&mut self) -> (poll: Result<CapturePoll, CaptureError>)
        requires
            old(self)@.state is Active,
        ensures
            final(self)@ == old(self)@.with_exchange(ProviderExchange::Polled(polled_view(poll))),
            final(self).handler() == old(self).handler(),
            exists|asked: &mut Box<dyn CaptureProvider>| #[trigger]
                call_ensures(
                    <Box<dyn CaptureProvider> as CaptureProvider>::poll_next,
                    (asked,),
                    poll,
                ) && Some(*asked) == old(self).polled_provider() && Some(*final(asked))
                    == final(self).polled_provider(),
    {
        let poll = match &mut self.provider {
            Some(provider) => provider.poll_next(),
            None => Ok(CapturePoll::Finished),
        };
        self.exchanges = Ghost(
            self.exchanges@.push(ProviderExchange::Polled(polled_view(poll))),
        );
        poll
    }

    /// Asks the provider for its name.
    fn ask_name(&mut self) -> (name: &'static str)
        requires
            old(self)@.state is Active,
        ensures
            final(self)@ == old(self)@.with_exchange(ProviderExchange::Named(name@)),
            final(self).handler() == old(self).handler(),
            final(self).polled_provider() == old(self).polled_provider(),
            old(self).polled_provider() is Some && call_ensures(
                <Box<dyn CaptureProvider> as CaptureProvider>::name,
                (&old(self).polled_provider()->0,),
                name,
            ),
    {
        let name = match &self.provider {
            Some(provider) => provider.name(),
            None => "",
        };
        self.exchanges = Ghost(self.exchanges@.push(ProviderExchange::Named(name@)));
        name
    }

    /// Asks the provider what it can do.
    fn ask_capabilities(&mut self) -> (capabilities: Vec<CapabilityState>)
        requires
            old(self)@.state is Active,
        ensures
            final(self)@ == old(self)@.with_exchange(
                ProviderExchange::Listed(capability_views(capabilities@)),
            ),
            final(self).handler() == old(self).handler(),
            final(self).polled_provider() == old(self).polled_provider(),
            old(self).polled_provider() is Some && call_ensures(
                <Box<dyn CaptureProvider> as CaptureProvider>::capabilities,
                (&old(self).polled_provider()->0,),
                capabilities,
            ),
    {
        let capabilities = self.capabilities();
        self.exchanges = Ghost(
            self.exchanges@.push(ProviderExchange::Listed(capability_views(capabilities@))),
        );
        capabilities
    }

    /// The provider is not polled any more: it has nothing left.
    fn finish(&mut self, capabilities: Vec<CapabilityState>)
        ensures
            final(self)@ == old(self)@.finished(capability_views(capabilities@)),
            final(self).handler() == old(self).handler(),
            final(self).polled_provider() is None,
    {
        self.provider = None;
        self.ended = EndedProvider::Finished { capabilities };
    }

    /// The provider is not polled any more: it has failed. Its handler is told why.
    fn disable_after_error(
        &mut self,
        name: &str,
        capabilities: Vec<CapabilityState>,
        error: &CaptureError,
    )
        ensures
            final(self)@ == old(self)@.disabled(
                capability_views(capabilities@),
                disabled_reason(name@, error@),
            ),
            final(self).polled_provider() is None,
            old(self).handler() is None ==> final(self).handler() is None,
            old(self).handler() is Some ==> exists|
                asked: &mut Box<dyn DisableHandler>,
                reason: &str,
            | #[trigger]
                call_ensures(
                    <Box<dyn DisableHandler> as DisableHandler>::disabled,
                    (asked, reason),
                    (),
                ) && reason@ == disabled_reason(name@, error@) && Some(*asked)
                    == old(self).handler() && Some(*final(asked)) == final(self).handler(),
    {
        let mut reason = joined("best-effort capture provider ", name);
        reason.append(" disabled after error: ");
        reason.append(error.message().as_str());
        let unavailable = unavailable_capabilities(&capabilities, reason.as_str());
        self.provider = None;
        self.ended = EndedProvider::Disabled { capabilities: unavailable };
        if let Some(handler) = &mut self.disable_handler {
            handler.disabled(reason.as_str());
            self.exchanges = Ghost(self.exchanges@.push(ProviderExchange::HandlerTold(reason@)));
        }
    }

    /// Takes what polling the provider brought.
    pub fn settle(&mut self, poll: Result<CapturePoll, CaptureError>) -> (turn: ProviderTurn)
        requires
            old(self)@.state is Active,
        ensures
            exists|reply: TurnReply|
                #![trigger old(self)@.settled(reply)]
                reply.poll == polled_view(poll) && final(self)@ == old(self)@.settled(reply)
                    && turn@ == old(self)@.turn(reply) && is_asked_in_the_end(*old(self), reply),
    {
        let ghost before = self@;
        let ghost quiet = TurnReply {
            poll: polled_view(poll),
            name: Seq::empty(),
            capabilities: Seq::empty(),
        };
        match poll {
            Ok(CapturePoll::Event(event)) => {
                assert(self@ == before.settled(quiet));
                ProviderTurn::Return(Ok(CapturePoll::Event(event)))
            },
            Ok(CapturePoll::Progress) => {
                assert(self@ == before.settled(quiet));
                ProviderTurn::Progress
            },
            Ok(CapturePoll::Idle) => {
                assert(self@ == before.settled(quiet));
                ProviderTurn::Quiet
            },
            Ok(CapturePoll::Finished) => {
                let capabilities = self.ask_capabilities();
                let ghost reply = TurnReply {
                    capabilities: capability_views(capabilities@),
                    ..quiet
                };
                self.finish(capabilities);
                assert(self@ == before.settled(reply));
                ProviderTurn::Quiet
            },
            Err(error) => match self.failure_policy {
                MultiplexFailurePolicy::Required => {
                    assert(self@ == before.settled(quiet));
                    ProviderTurn::Return(Err(error))
                },
                MultiplexFailurePolicy::BestEffort => {
                    let name = self.ask_name();
                    let capabilities = self.ask_capabilities();
                    let ghost reply = TurnReply {
                        name: name@,
                        capabilities: capability_views(capabilities@),
                        ..quiet
                    };
                    self.disable_after_error(name, capabilities, &error);
                    assert(self@ == before.settled(reply));
                    ProviderTurn::Progress
                },
            },
        }
    }

    /// Polls the provider and takes what came of it.
    fn take_turn(&mut self) -> (turn: ProviderTurn)
        requires
            old(self)@.state is Active,
        ensures
            exists|reply: TurnReply|
                #![trigger old(self)@.after_turn(reply)]
                final(self)@ == old(self)@.after_turn(reply) && turn@ == old(self)@.turn(reply)
                    && is_brought(*old(self), reply),
    {
        let ghost before = self@;
        let poll = self.poll_provider();
        let ghost polled = self@;
        let turn = self.settle(poll);
        proof {
            let reply = choose|reply: TurnReply|
                #![trigger polled.settled(reply)]
                reply.poll == polled_view(poll) && self@ == polled.settled(reply) && turn@
                    == polled.turn(reply);
            assert(self@ == before.after_turn(reply));
            assert(is_brought(*old(self), reply));
        }
        turn
    }
}

/// The providers, and whose turn is next.
#[verifier::ext_equal]
pub struct MultiplexView {
    pub providers: Seq<MultiplexedProviderView>,
    pub next_index: int,
}

/// The providers after a round, with what the round brought.
#[verifier::ext_equal]
pub struct RoundView {
    pub multiplex: MultiplexView,
    pub poll: Result<CapturePollView, CaptureErrorView>,
}

impl MultiplexView {
    /// Whether no provider is polled any more.
    pub open spec fn all_done(self) -> bool {
        forall|index: int|
            0 <= index < self.providers.len() ==> !((#[trigger] self.providers[index]).state
                is Active)
    }

    /// Whose turn it is.
    pub open spec fn current(self) -> int {
        self.next_index % self.providers.len() as int
    }

    /// The turn goes to the next provider.
    pub open spec fn passed_on(self) -> MultiplexView {
        MultiplexView {
            next_index: (self.current() + 1) % self.providers.len() as int,
            ..self
        }
    }

    /// The rest of a round in which `turns` turns are left. A provider that is not polled any
    /// more lets its turn pass.
    pub open spec fn rest_of_round(
        self,
        turns: nat,
        made_progress: bool,
        replies: Seq<TurnReply>,
    ) -> RoundView
        decreases turns,
    {
        if turns == 0 {
            RoundView {
                multiplex: self,
                poll: Ok(
                    if self.all_done() {
                        CapturePollView::Finished
                    } else if made_progress {
                        CapturePollView::Progress
                    } else {
                        CapturePollView::Idle
                    },
                ),
            }
        } else {
            let index = self.current();
            let provider = self.providers[index];
            if !(provider.state is Active) {
                self.passed_on().rest_of_round((turns - 1) as nat, made_progress, replies)
            } else {
                let next = MultiplexView {
                    providers: self.providers.update(index, provider.after_turn(replies[0])),
                    ..self.passed_on()
                };
                match provider.turn(replies[0]) {
                    TurnView::Return(poll) => RoundView { multiplex: next, poll },
                    TurnView::Progress => next.rest_of_round(
                        (turns - 1) as nat,
                        true,
                        replies.drop_first(),
                    ),
                    TurnView::Quiet => next.rest_of_round(
                        (turns - 1) as nat,
                        made_progress,
                        replies.drop_first(),
                    ),
                }
            }
        }
    }

    /// A round: every provider has a turn, until one brings an event or a failure that counts.
    pub open spec fn round(self, replies: Seq<TurnReply>) -> RoundView {
        if self.all_done() {
            RoundView { multiplex: self, poll: Ok(CapturePollView::Finished) }
        } else {
            self.rest_of_round(self.providers.len(), false, replies)
        }
    }
}

/// Several providers polled in turn.
pub struct CaptureMultiplexer {
    pub providers: Vec<MultiplexedProvider>,
    pub next_index: usize,
}

impl View for CaptureMultiplexer {
    type V = MultiplexView;

    open spec fn view(&self) -> MultiplexView {
        MultiplexView {
            providers: self.providers@.map_values(|provider: MultiplexedProvider| provider@),
            next_index: self.next_index as int,
        }
    }
}

impl CaptureMultiplexer {
    /// Providers that must not fail.
    pub fn new(providers: Vec<Box<dyn CaptureProvider>>) -> (multiplexer: CaptureMultiplexer)
        ensures
            multiplexer@.next_index == 0,
            multiplexer@.providers.len() == providers@.len(),
            forall|index: int|
                0 <= index < multiplexer@.providers.len() ==> (
                #[trigger] multiplexer@.providers[index]) == MultiplexedProviderView::fresh(
                    MultiplexFailurePolicy::Required,
                    false,
                ),
            multiplexer.providers@.len() == providers@.len(),
            forall|index: int|
                0 <= index < providers@.len() ==> (
                #[trigger] multiplexer.providers@[index]).polled_provider() == Some(
                    providers@[index],
                ),
    {
        let ghost given = providers@;
        let total: usize = providers.len();
        let mut rest = providers;
        let mut multiplexed: Vec<MultiplexedProvider> = Vec::new();
        while rest.len() > 0
            invariant
                rest@.len() + multiplexed@.len() == total == given.len(),
                rest@ == given.skip(multiplexed@.len() as int),
                forall|index: int|
                    0 <= index < multiplexed@.len() ==> (
                    #[trigger] multiplexed@[index]).polled_provider() == Some(given[index]),
                forall|index: int|
                    0 <= index < multiplexed@.len() ==> (#[trigger] multiplexed@[index])@
                        == MultiplexedProviderView::fresh(MultiplexFailurePolicy::Required, false),
            decreases rest.len(),
        {
            let ghost before = rest@;
            let polled = Some(rest.remove(0));
            assert(polled == Some(before[0]));
            assert(rest@ =~= given.skip((multiplexed@.len() + 1) as int));
            multiplexed.push(
                MultiplexedProvider::new(polled, MultiplexFailurePolicy::Required, None),
            );
        }
        CaptureMultiplexer::from_providers(multiplexed)
    }

    pub fn from_providers(providers: Vec<MultiplexedProvider>) -> (multiplexer: CaptureMultiplexer)
        ensures
            multiplexer@ == (MultiplexView {
                providers: providers@.map_values(|provider: MultiplexedProvider| provider@),
                next_index: 0,
            }),
            multiplexer.providers@ == providers@,
    {
        CaptureMultiplexer { providers, next_index: 0 }
    }

    fn nothing_active(&self) -> (done: bool)
        ensures
            done == self@.all_done(),
    {
        let mut index: usize = 0;
        while index < self.providers.len()
            invariant
                index <= self.providers.len(),
                forall|earlier: int|
                    0 <= earlier < index ==> !((#[trigger] self@.providers[earlier]).state
                        is Active),
            decreases self.providers.len() - index,
        {
            assert(self@.providers[index as int] == self.providers@[index as int]@);
            if self.providers[index].is_active() {
                return false;
            }
            index = index + 1;
        }
        true
    }

    /// A round: every provider has a turn, until one brings an event or a failure that counts.
    pub fn poll_round(&mut self) -> (poll: Result<CapturePoll, CaptureError>)
        ensures
            exists|replies: Seq<TurnReply>|
                (RoundView { multiplex: final(self)@, poll: polled_view(poll) })
                    == #[trigger] old(self)@.round(replies) && are_brought(replies),
    {
        let ghost before = self@;
        let ghost mut seen: Seq<TurnReply> = Seq::empty();
        if self.nothing_active() {
            let poll: Result<CapturePoll, CaptureError> = Ok(CapturePoll::Finished);
            assert((RoundView { multiplex: self@, poll: polled_view(poll) }) == before.round(seen));
            return poll;
        }
        let provider_count: usize = self.providers.len();
        let mut made_progress = false;
        let mut turns: usize = provider_count;
        assert forall|rest: Seq<TurnReply>|
            #[trigger] before.rest_of_round(provider_count as nat, false, seen + rest)
                == before.rest_of_round(provider_count as nat, false, rest) by {
            assert(seen + rest =~= rest);
        }
        while turns > 0
            invariant
                turns <= provider_count,
                provider_count == self@.providers.len(),
                provider_count == before.providers.len(),
                provider_count > 0,
                before == old(self)@,
                !before.all_done(),
                are_brought(seen),
                forall|rest: Seq<TurnReply>|
                    #[trigger] before.rest_of_round(provider_count as nat, false, seen + rest)
                        == self@.rest_of_round(turns as nat, made_progress, rest),
            decreases turns,
        {
            let ghost current = self@;
            let ghost progress = made_progress;
            let ghost earlier = seen;
            let index: usize = self.next_index % provider_count;
            self.next_index = (index + 1) % provider_count;
            assert(self@ == current.passed_on());
            assert(current.providers[index as int] == self.providers@[index as int]@);
            if self.providers[index].is_active() {
                let ghost polled = self.providers@[index as int];
                let ghost provider = polled@;
                let turn = self.providers[index].take_turn();
                let ghost reply = choose|reply: TurnReply|
                    #![trigger provider.after_turn(reply)]
                    self.providers@[index as int]@ == provider.after_turn(reply) && turn@
                        == provider.turn(reply) && is_brought(polled, reply);
                proof {
                    seen = seen.push(reply);
                    assert(is_brought_by_some(reply));
                    assert(are_brought(seen));
                    assert(self@ =~= (MultiplexView {
                        providers: current.providers.update(
                            index as int,
                            provider.after_turn(reply),
                        ),
                        ..current.passed_on()
                    }));
                    assert forall|rest: Seq<TurnReply>|
                        #[trigger] before.rest_of_round(provider_count as nat, false, seen + rest)
                            == current.rest_of_round(turns as nat, progress, seq![reply] + rest) by {
                        assert(seen + rest =~= earlier + (seq![reply] + rest));
                    }
                    assert forall|rest: Seq<TurnReply>|
                        #![trigger seq![reply] + rest]
                        (seq![reply] + rest).drop_first() == rest && (seq![reply] + rest)[0]
                            == reply by {
                        assert((seq![reply] + rest).drop_first() =~= rest);
                    }
                }
                match turn {
                    ProviderTurn::Return(poll) => {
                        proof {
                            let none = Seq::<TurnReply>::empty();
                            assert(seen + none =~= seen);
                            assert(before.rest_of_round(
                                provider_count as nat,
                                false,
                                seen + none,
                            ) == current.rest_of_round(turns as nat, progress, seq![reply] + none));
                        }
                        assert((RoundView { multiplex: self@, poll: polled_view(poll) })
                            == before.round(seen));
                        return poll;
                    },
                    ProviderTurn::Progress => {
                        made_progress = true;
                    },
                    ProviderTurn::Quiet => {},
                }
            }
            turns = turns - 1;
        }
        proof {
            let none = Seq::<TurnReply>::empty();
            assert(seen + none =~= seen);
            assert(before.rest_of_round(provider_count as nat, false, seen + none)
                == self@.rest_of_round(0, made_progress, none));
        }
        let poll: Result<CapturePoll, CaptureError> = if self.nothing_active() {
            Ok(CapturePoll::Finished)
        } else if made_progress {
            Ok(CapturePoll::Progress)
        } else {
            Ok(CapturePoll::Idle)
        };
        assert((RoundView { multiplex: self@, poll: polled_view(poll) }) == before.round(seen));
        poll
    }
}

/// What the providers can do together, in their order. What the polled ones told is in `told`.
pub open spec fn all_capabilities(
    providers: Seq<MultiplexedProviderView>,
    told: Seq<Seq<CapabilityStateView>>,
) -> Seq<CapabilityStateView>
    decreases providers.len(),
{
    if providers.len() == 0 {
        Seq::empty()
    } else {
        all_capabilities(providers.drop_last(), told) + match providers.last().state {
            ProviderStateView::Active => told[providers.len() - 1],
            ProviderStateView::Finished { capabilities } => capabilities,
            ProviderStateView::Disabled { capabilities } => capabilities,
        }
    }
}

/// Whether a provider, if it is polled, told what it can do.
pub open spec fn is_told(provider: MultiplexedProvider, told: Seq<CapabilityStateView>) -> bool {
    provider@.state is Active ==> provider.polled_provider() is Some && exists|
        list: Vec<CapabilityState>,
    | #[trigger]
        call_ensures(
            <Box<dyn CaptureProvider> as CaptureProvider>::capabilities,
            (&provider.polled_provider()->0,),
            list,
        ) && told == capability_views(list@)
}

/// Whether a provider, if it is polled, told its name.
pub open spec fn is_named(provider: MultiplexedProvider, told: Seq<char>) -> bool {
    provider@.state is Active ==> provider.polled_provider() is Some && exists|name: &'static str|
        #[trigger] call_ensures(
            <Box<dyn CaptureProvider> as CaptureProvider>::name,
            (&provider.polled_provider()->0,),
            name,
        ) && told == name@
}

/// Whether a provider that is not polled any more told what it could do, and where it has failed,
/// its name.
pub open spec fn is_asked_in_the_end(provider: MultiplexedProvider, reply: TurnReply) -> bool {
    match reply.poll {
        Ok(CapturePollView::Finished) => is_told(provider, reply.capabilities),
        Err(_) => provider@.failure_policy == MultiplexFailurePolicy::BestEffort ==> is_told(
            provider,
            reply.capabilities,
        ) && is_named(provider, reply.name),
        _ => true,
    }
}

/// Whether a poll of a provider brought what a reply tells of it.
pub open spec fn is_brought(provider: MultiplexedProvider, reply: TurnReply) -> bool {
    exists|asked: &mut Box<dyn CaptureProvider>, poll: Result<CapturePoll, CaptureError>| #[trigger]
        call_ensures(
            <Box<dyn CaptureProvider> as CaptureProvider>::poll_next,
            (asked,),
            poll,
        ) && Some(*asked) == provider.polled_provider() && reply.poll == polled_view(poll)
}

/// Whether a poll of some provider brought what a reply tells of it.
pub open spec fn is_brought_by_some(reply: TurnReply) -> bool {
    exists|provider: MultiplexedProvider| #[trigger] is_brought(provider, reply)
}

/// Whether the polls of some providers brought what replies tell of them.
pub open spec fn are_brought(replies: Seq<TurnReply>) -> bool {
    forall|index: int|
        0 <= index < replies.len() ==> is_brought_by_some(#[trigger] replies[index])
}

/// Whether each of the providers that are polled told what it can do.
pub open spec fn are_told(
    providers: Seq<MultiplexedProvider>,
    told: Seq<Seq<CapabilityStateView>>,
) -> bool {
    &&& told.len() == providers.len()
    &&& forall|index: int|
        0 <= index < providers.len() ==> is_told(#[trigger] providers[index], told[index])
}

proof fn lemma_told_of_others(
    providers: Seq<MultiplexedProviderView>,
    first: Seq<Seq<CapabilityStateView>>,
    second: Seq<Seq<CapabilityStateView>>,
)
    requires
        forall|index: int| 0 <= index < providers.len() ==> #[trigger] first[index] == second[index],
    ensures
        all_capabilities(providers, first) == all_capabilities(providers, second),
    decreases providers.len(),
{
    if providers.len() > 0 {
        lemma_told_of_others(providers.drop_last(), first, second);
        assert(first[providers.len() - 1] == second[providers.len() - 1]);
    }
}

impl CaptureMultiplexer {
    /// What the providers can do together.
    pub fn listed_capabilities(&self) -> (capabilities: Vec<CapabilityState>)
        ensures
            exists|told: Seq<Seq<CapabilityStateView>>|
                capability_views(capabilities@) == #[trigger] all_capabilities(
                    self@.providers,
                    told,
                ) && are_told(self.providers@, told),
    {
        let mut capabilities: Vec<CapabilityState> = Vec::new();
        let ghost providers = self@.providers;
        let ghost mut told: Seq<Seq<CapabilityStateView>> = Seq::empty();
        let mut index: usize = 0;
        assert(capability_views(capabilities@) =~= all_capabilities(providers.take(0), told));
        while index < self.providers.len()
            invariant
                index <= self.providers.len(),
                providers == self@.providers,
                told.len() == index,
                are_told(self.providers@.take(index as int), told),
                capability_views(capabilities@) == all_capabilities(
                    providers.take(index as int),
                    told,
                ),
            decreases self.providers.len() - index,
        {
            let ghost earlier = told;
            let ghost before = capabilities@;
            assert(providers[index as int] == self.providers@[index as int]@);
            let mut more = self.providers[index].capabilities();
            let ghost added = more@;
            assert(is_told(self.providers@[index as int], capability_views(added)));
            capabilities.append(&mut more);
            proof {
                told = told.push(capability_views(added));
                assert(self.providers@.take(index + 1) =~= self.providers@.take(index as int).push(
                    self.providers@[index as int],
                ));
                let taken = providers.take(index as int);
                assert(providers.take(index + 1).drop_last() =~= taken);
                assert forall|place: int| 0 <= place < taken.len() implies #[trigger] told[place]
                    == earlier[place] by {}
                lemma_told_of_others(taken, told, earlier);
                assert(capability_views(capabilities@) =~= capability_views(before)
                    + capability_views(added));
            }
            index = index + 1;
        }
        assert(providers.take(index as int) =~= providers);
        assert(self.providers@.take(index as int) =~= self.providers@);
        capabilities
    }
}

impl CaptureProvider for CaptureMultiplexer {
    fn name(&self) -> (name: &'static str)
        ensures
            name@ == "multiplex"@,
    {
        "multiplex"
    }

    fn capabilities(&self) -> (capabilities: Vec<CapabilityState>)
        ensures
            exists|told: Seq<Seq<CapabilityStateView>>|
                capability_views(capabilities@) == #[trigger] all_capabilities(
                    self@.providers,
                    told,
                ) && are_told(self.providers@, told),
    {
        self.listed_capabilities()
    }

    fn poll_next(&mut self) -> (poll: Result<CapturePoll, CaptureError>)
        ensures
            exists|replies: Seq<TurnReply>|
                (RoundView { multiplex: final(self)@, poll: polled_view(poll) })
                    == #[trigger] old(self)@.round(replies) && are_brought(replies),
    {
        self.poll_round()
    }
}

/// Whether a failure of any of the providers is put up with.
pub open spec fn all_best_effort(providers: Seq<MultiplexedProviderView>) -> bool {
    forall|index: int|
        0 <= index < providers.len() ==> (#[trigger] providers[index]).failure_policy
            == MultiplexFailurePolicy::BestEffort
}

/// Whether providers are the same ones later, and none that was done is polled again.
pub open spec fn follows(
    earlier: Seq<MultiplexedProviderView>,
    later: Seq<MultiplexedProviderView>,
) -> bool {
    &&& later.len() == earlier.len()
    &&& forall|index: int|
        #![trigger later[index]]
        0 <= index < later.len() ==> later[index].failure_policy == earlier[index].failure_policy
            && (!(earlier[index].state is Active) ==> later[index] == earlier[index])
}

proof fn lemma_rest_of_round(
    multiplex: MultiplexView,
    turns: nat,
    made_progress: bool,
    replies: Seq<TurnReply>,
)
    requires
        multiplex.providers.len() > 0,
        0 <= multiplex.next_index,
    ensures
        ({
            let round = multiplex.rest_of_round(turns, made_progress, replies);
            &&& follows(multiplex.providers, round.multiplex.providers)
            &&& all_best_effort(multiplex.providers) ==> round.poll is Ok
            &&& round.poll matches Ok(CapturePollView::Finished) ==> round.multiplex.all_done()
        }),
    decreases turns,
{
    if turns > 0 {
        let index = multiplex.current();
        let count = multiplex.providers.len() as int;
        assert(0 <= index < count) by (nonlinear_arith)
            requires
                index == multiplex.next_index % count,
                count > 0,
        ;
        assert(0 <= (index + 1) % count) by (nonlinear_arith)
            requires
                count > 0,
                0 <= index,
        ;
        let provider = multiplex.providers[index];
        if !(provider.state is Active) {
            lemma_rest_of_round(
                multiplex.passed_on(),
                (turns - 1) as nat,
                made_progress,
                replies,
            );
        } else {
            let next = MultiplexView {
                providers: multiplex.providers.update(index, provider.after_turn(replies[0])),
                ..multiplex.passed_on()
            };
            assert(follows(multiplex.providers, next.providers));
            if all_best_effort(multiplex.providers) {
                assert(provider.failure_policy == MultiplexFailurePolicy::BestEffort);
                assert forall|place: int| 0 <= place < next.providers.len() implies (
                #[trigger] next.providers[place]).failure_policy
                    == MultiplexFailurePolicy::BestEffort by {
                    assert(multiplex.providers[place].failure_policy
                        == MultiplexFailurePolicy::BestEffort);
                }
            }
            match provider.turn(replies[0]) {
                TurnView::Return(_) => {},
                TurnView::Progress => {
                    lemma_rest_of_round(next, (turns - 1) as nat, true, replies.drop_first());
                    lemma_follows_on(
                        multiplex.providers,
                        next.providers,
                        next.rest_of_round(
                            (turns - 1) as nat,
                            true,
                            replies.drop_first(),
                        ).multiplex.providers,
                    );
                },
                TurnView::Quiet => {
                    lemma_rest_of_round(
                        next,
                        (turns - 1) as nat,
                        made_progress,
                        replies.drop_first(),
                    );
                    lemma_follows_on(
                        multiplex.providers,
                        next.providers,
                        next.rest_of_round(
                            (turns - 1) as nat,
                            made_progress,
                            replies.drop_first(),
                        ).multiplex.providers,
                    );
                },
            }
        }
    }
}

proof fn lemma_follows_on(
    first: Seq<MultiplexedProviderView>,
    second: Seq<MultiplexedProviderView>,
    third: Seq<MultiplexedProviderView>,
)
    requires
        follows(first, second),
        follows(second, third),
    ensures
        follows(first, third),
{
    assert forall|index: int|
        #![trigger third[index]]
        0 <= index < third.len() implies third[index].failure_policy == first[index].failure_policy
        && (!(first[index].state is Active) ==> third[index] == first[index]) by {
        assert(second[index].failure_policy == first[index].failure_policy);
    }
}

/// A provider whose failure is put up with never makes a round fail, a provider that is done
/// stays done with what it could do, and a round says that everything is finished only where no
/// provider is left.
pub proof fn law_round_outlives_best_effort_failures(
    multiplex: MultiplexView,
    replies: Seq<TurnReply>,
)
    requires
        0 <= multiplex.next_index,
    ensures
        follows(multiplex.providers, multiplex.round(replies).multiplex.providers),
        all_best_effort(multiplex.providers) ==> multiplex.round(replies).poll is Ok,
        multiplex.round(replies).poll matches Ok(CapturePollView::Finished) ==> multiplex.round(
            replies,
        ).multiplex.all_done(),
{
    if !multiplex.all_done() {
        lemma_rest_of_round(multiplex, multiplex.providers.len(), false, replies);
    }
}

/// A provider that brings an event passes the turn on, so that a busy one does not keep the
/// others waiting.
pub proof fn law_event_passes_the_turn_on(
    multiplex: MultiplexView,
    event: CaptureEventView,
    replies: Seq<TurnReply>,
)
    requires
        0 <= multiplex.next_index,
        multiplex.providers.len() > 0,
        multiplex.providers[multiplex.current()].state is Active,
        replies[0].poll == Ok::<CapturePollView, CaptureErrorView>(CapturePollView::Event(event)),
    ensures
        multiplex.round(replies) == (RoundView {
            multiplex: MultiplexView {
                providers: multiplex.providers.update(
                    multiplex.current(),
                    multiplex.providers[multiplex.current()].with_exchange(
                        ProviderExchange::Polled(Ok(CapturePollView::Event(event))),
                    ),
                ),
                ..multiplex.passed_on()
            },
            poll: Ok(CapturePollView::Event(event)),
        }),
{
    let index = multiplex.current();
    let count = multiplex.providers.len() as int;
    assert(0 <= index < count) by (nonlinear_arith)
        requires
            index == multiplex.next_index % count,
            count > 0,
    ;
}

} // verus!
