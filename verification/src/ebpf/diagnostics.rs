//! What is reported of the probes themselves: how often they fire, and whether they are alive.
use vstd::prelude::*;

use crate::provider::{CaptureError, CaptureErrorView};
use crate::text::{joined, same_text};

use super::tracepoints::{
    all_specs, process_tracepoint_specs, spec_views, EbpfProcessTracepointRole,
    EbpfProcessTracepointSpec, TracepointSpecView,
};

verus! {

/// How often one tracepoint has fired.
#[derive(Debug, Clone, Copy, PartialEq, Eq)]
pub struct EbpfProcessObservationTracepointFiring {
    pub program_name: &'static str,
    pub category: &'static str,
    pub tracepoint_name: &'static str,
    pub firing_count: u64,
}

#[verifier::ext_equal]
pub struct FiringView {
    pub program_name: Seq<char>,
    pub category: Seq<char>,
    pub tracepoint_name: Seq<char>,
    pub firing_count: u64,
}

impl View for EbpfProcessObservationTracepointFiring {
    type V = FiringView;

    open spec fn view(&self) -> FiringView {
        FiringView {
            program_name: self.program_name@,
            category: self.category@,
            tracepoint_name: self.tracepoint_name@,
            firing_count: self.firing_count,
        }
    }
}

/// The views of some firings.
pub open spec fn firing_views(
    firings: Seq<EbpfProcessObservationTracepointFiring>,
) -> Seq<FiringView> {
    firings.map_values(|firing: EbpfProcessObservationTracepointFiring| firing@)
}

/// The sum of per-processor counters, held at the largest number that fits.
pub open spec fn counter_total(counters: Seq<u64>) -> u64
    decreases counters.len(),
{
    if counters.len() == 0 {
        0
    } else {
        let rest = counter_total(counters.drop_last());
        if rest + counters.last() <= u64::MAX {
            (rest + counters.last()) as u64
        } else {
            u64::MAX
        }
    }
}

/// The sum of per-processor counters, held at the largest number that fits.
pub fn total_of_counters(counters: &Vec<u64>) -> (total: u64)
    ensures
        total == counter_total(counters@),
{
    let mut total: u64 = 0;
    let mut index: usize = 0;
    while index < counters.len()
        invariant
            index <= counters.len(),
            total == counter_total(counters@.take(index as int)),
        decreases counters.len() - index,
    {
        total = total.saturating_add(counters[index]);
        assert(counters@.take(index + 1).drop_last() =~= counters@.take(index as int));
        index = index + 1;
    }
    assert(counters@.take(index as int) =~= counters@);
    total
}

impl EbpfProcessObservationTracepointFiring {
    pub fn from_tracepoint_spec(listed: EbpfProcessTracepointSpec, firing_count: u64) -> (firing:
        EbpfProcessObservationTracepointFiring)
        ensures
            firing@ == (FiringView {
                program_name: listed@.program_name,
                category: listed@.category,
                tracepoint_name: listed@.tracepoint_name,
                firing_count,
            }),
    {
        EbpfProcessObservationTracepointFiring {
            program_name: listed.program_name,
            category: listed.category,
            tracepoint_name: listed.tracepoint_name,
            firing_count,
        }
    }
}

/// Whether a counter moved while system calls were made to move it.
#[derive(Debug, Clone, Copy, PartialEq, Eq, Structural)]
pub enum EbpfProcessObservationActiveTracepointLivenessState {
    Advanced,
    NotAdvanced,
    Unsupported,
}

pub const ACTIVE_LIVENESS_ADVANCED_REASON: &'static str = "safe active syscall probe advanced this tracepoint firing counter";

pub const ACTIVE_LIVENESS_NOT_ADVANCED_REASON: &'static str = "safe active syscall probe ran but this tracepoint firing counter did not advance";

pub const ACTIVE_LIVENESS_UNSUPPORTED_REASON: &'static str = "this tracepoint is outside the current safe active syscall probe set";

/// How one probe answered to system calls that were made to move its counter.
#[derive(Debug, Clone, Copy, PartialEq, Eq)]
pub struct EbpfProcessObservationActiveTracepointLivenessProgram {
    pub program_name: &'static str,
    pub category: &'static str,
    pub tracepoint_name: &'static str,
    pub state: EbpfProcessObservationActiveTracepointLivenessState,
    pub before_firing_count: u64,
    pub after_firing_count: u64,
    pub reason: &'static str,
}

#[verifier::ext_equal]
pub struct LivenessProgramView {
    pub program_name: Seq<char>,
    pub category: Seq<char>,
    pub tracepoint_name: Seq<char>,
    pub state: EbpfProcessObservationActiveTracepointLivenessState,
    pub before_firing_count: u64,
    pub after_firing_count: u64,
    pub reason: Seq<char>,
}

impl View for EbpfProcessObservationActiveTracepointLivenessProgram {
    type V = LivenessProgramView;

    open spec fn view(&self) -> LivenessProgramView {
        LivenessProgramView {
            program_name: self.program_name@,
            category: self.category@,
            tracepoint_name: self.tracepoint_name@,
            state: self.state,
            before_firing_count: self.before_firing_count,
            after_firing_count: self.after_firing_count,
            reason: self.reason@,
        }
    }
}

/// The views of some programs.
pub open spec fn program_views(
    programs: Seq<EbpfProcessObservationActiveTracepointLivenessProgram>,
) -> Seq<LivenessProgramView> {
    programs.map_values(|program: EbpfProcessObservationActiveTracepointLivenessProgram| program@)
}

/// How all probes answered to system calls that were made to move their counters.
#[derive(Debug, PartialEq, Eq)]
pub struct EbpfProcessObservationActiveTracepointLiveness {
    pub programs: Vec<EbpfProcessObservationActiveTracepointLivenessProgram>,
}

impl View for EbpfProcessObservationActiveTracepointLiveness {
    type V = Seq<LivenessProgramView>;

    open spec fn view(&self) -> Seq<LivenessProgramView> {
        program_views(self.programs@)
    }
}

impl Clone for EbpfProcessObservationActiveTracepointLiveness {
    fn clone(&self) -> (copy: Self)
        ensures
            copy@ == self@,
    {
        let mut programs: Vec<EbpfProcessObservationActiveTracepointLivenessProgram> = Vec::new();
        let mut index: usize = 0;
        while index < self.programs.len()
            invariant
                index <= self.programs.len(),
                programs@ == self.programs@.take(index as int),
            decreases self.programs.len() - index,
        {
            programs.push(self.programs[index]);
            assert(programs@ =~= self.programs@.take(index + 1));
            index = index + 1;
        }
        assert(self.programs@.take(index as int) =~= self.programs@);
        EbpfProcessObservationActiveTracepointLiveness { programs }
    }
}

/// Whether the counter of a role can be moved without harm.
pub open spec fn is_safe_to_trigger(role: EbpfProcessTracepointRole) -> bool {
    match role {
        EbpfProcessTracepointRole::WriteEnter
        | EbpfProcessTracepointRole::WriteExit
        | EbpfProcessTracepointRole::WritevEnter
        | EbpfProcessTracepointRole::WritevExit
        | EbpfProcessTracepointRole::ReadEnter
        | EbpfProcessTracepointRole::ReadExit
        | EbpfProcessTracepointRole::ReadvEnter
        | EbpfProcessTracepointRole::ReadvExit => true,
        _ => false,
    }
}

/// Whether a firing is of a probe.
pub open spec fn is_firing_of(firing: FiringView, listed: TracepointSpecView) -> bool {
    firing.program_name == listed.program_name && firing.category == listed.category
        && firing.tracepoint_name == listed.tracepoint_name
}

/// How often a probe has fired: the first count that is of it, or none.
pub open spec fn count_of(firings: Seq<FiringView>, listed: TracepointSpecView) -> Option<u64>
    decreases firings.len(),
{
    if firings.len() == 0 {
        None
    } else if is_firing_of(firings[0], listed) {
        Some(firings[0].firing_count)
    } else {
        count_of(firings.drop_first(), listed)
    }
}

/// A count, or zero where there is none.
pub open spec fn count_or_zero(count: Option<u64>) -> u64 {
    match count {
        Some(value) => value,
        None => 0,
    }
}

/// How a probe answered, by its counts before and after the system calls.
pub open spec fn liveness_of(
    listed: TracepointSpecView,
    before: Seq<FiringView>,
    after: Seq<FiringView>,
) -> LivenessProgramView {
    let before_firing_count = count_or_zero(count_of(before, listed));
    let after_firing_count = count_or_zero(count_of(after, listed));
    let (state, reason) = if !is_safe_to_trigger(listed.role) {
        (
            EbpfProcessObservationActiveTracepointLivenessState::Unsupported,
            ACTIVE_LIVENESS_UNSUPPORTED_REASON@,
        )
    } else if after_firing_count > before_firing_count {
        (
            EbpfProcessObservationActiveTracepointLivenessState::Advanced,
            ACTIVE_LIVENESS_ADVANCED_REASON@,
        )
    } else {
        (
            EbpfProcessObservationActiveTracepointLivenessState::NotAdvanced,
            ACTIVE_LIVENESS_NOT_ADVANCED_REASON@,
        )
    };
    LivenessProgramView {
        program_name: listed.program_name,
        category: listed.category,
        tracepoint_name: listed.tracepoint_name,
        state,
        before_firing_count,
        after_firing_count,
        reason,
    }
}

/// How all probes answered.
pub open spec fn liveness_of_all(
    before: Seq<FiringView>,
    after: Seq<FiringView>,
) -> Seq<LivenessProgramView> {
    all_specs().map_values(|listed: TracepointSpecView| liveness_of(listed, before, after))
}

fn firing_count(
    firings: &Vec<EbpfProcessObservationTracepointFiring>,
    listed: &EbpfProcessTracepointSpec,
) -> (count: Option<u64>)
    ensures
        count == count_of(firing_views(firings@), listed@),
{
    let ghost views = firing_views(firings@);
    let mut index: usize = 0;
    assert(views.skip(0) =~= views);
    while index < firings.len()
        invariant
            index <= firings.len(),
            views == firing_views(firings@),
            count_of(views, listed@) == count_of(views.skip(index as int), listed@),
        decreases firings.len() - index,
    {
        let firing = &firings[index];
        proof {
            assert(views.skip(index as int)[0] == firing@);
            assert(views.skip(index as int).drop_first() =~= views.skip(index + 1));
        }
        if same_text(firing.program_name, listed.program_name) && same_text(
            firing.category,
            listed.category,
        ) && same_text(firing.tracepoint_name, listed.tracepoint_name) {
            return Some(firing.firing_count);
        }
        index = index + 1;
    }
    None
}

fn can_be_triggered(role: EbpfProcessTracepointRole) -> (safe: bool)
    ensures
        safe == is_safe_to_trigger(role),
{
    match role {
        EbpfProcessTracepointRole::WriteEnter
        | EbpfProcessTracepointRole::WriteExit
        | EbpfProcessTracepointRole::WritevEnter
        | EbpfProcessTracepointRole::WritevExit
        | EbpfProcessTracepointRole::ReadEnter
        | EbpfProcessTracepointRole::ReadExit
        | EbpfProcessTracepointRole::ReadvEnter
        | EbpfProcessTracepointRole::ReadvExit => true,
        _ => false,
    }
}

fn active_liveness_program(
    listed: &EbpfProcessTracepointSpec,
    before: &Vec<EbpfProcessObservationTracepointFiring>,
    after: &Vec<EbpfProcessObservationTracepointFiring>,
) -> (program: EbpfProcessObservationActiveTracepointLivenessProgram)
    ensures
        program@ == liveness_of(listed@, firing_views(before@), firing_views(after@)),
{
    let before_firing_count: u64 = match firing_count(before, listed) {
        Some(count) => count,
        None => 0,
    };
    let after_firing_count: u64 = match firing_count(after, listed) {
        Some(count) => count,
        None => 0,
    };
    let (state, reason) = if !can_be_triggered(listed.role) {
        (
            EbpfProcessObservationActiveTracepointLivenessState::Unsupported,
            ACTIVE_LIVENESS_UNSUPPORTED_REASON,
        )
    } else if after_firing_count > before_firing_count {
        (
            EbpfProcessObservationActiveTracepointLivenessState::Advanced,
            ACTIVE_LIVENESS_ADVANCED_REASON,
        )
    } else {
        (
            EbpfProcessObservationActiveTracepointLivenessState::NotAdvanced,
            ACTIVE_LIVENESS_NOT_ADVANCED_REASON,
        )
    };
    EbpfProcessObservationActiveTracepointLivenessProgram {
        program_name: listed.program_name,
        category: listed.category,
        tracepoint_name: listed.tracepoint_name,
        state,
        before_firing_count,
        after_firing_count,
        reason,
    }
}

/// How all probes answered, by their counts before and after the system calls.
pub fn active_tracepoint_liveness_from_firings(
    before: &Vec<EbpfProcessObservationTracepointFiring>,
    after: &Vec<EbpfProcessObservationTracepointFiring>,
) -> (liveness: EbpfProcessObservationActiveTracepointLiveness)
    ensures
        liveness@ == liveness_of_all(firing_views(before@), firing_views(after@)),
{
    let specs = process_tracepoint_specs();
    let ghost answers = liveness_of_all(firing_views(before@), firing_views(after@));
    let mut programs: Vec<EbpfProcessObservationActiveTracepointLivenessProgram> = Vec::new();
    let mut index: usize = 0;
    assert(program_views(programs@) =~= answers.take(0));
    assert(all_specs().len() == specs@.len());
    while index < specs.len()
        invariant
            index <= specs.len(),
            spec_views(specs@) == all_specs(),
            answers == liveness_of_all(firing_views(before@), firing_views(after@)),
            answers.len() == specs@.len(),
            program_views(programs@) == answers.take(index as int),
        decreases specs.len() - index,
    {
        let ghost earlier = programs@;
        let program = active_liveness_program(&specs[index], before, after);
        programs.push(program);
        proof {
            assert(spec_views(specs@)[index as int] == specs@[index as int]@);
            assert(answers[index as int] == program@);
            assert(program_views(programs@) =~= program_views(earlier).push(program@));
            assert(answers.take(index + 1) =~= answers.take(index as int).push(program@));
        }
        index = index + 1;
    }
    assert(answers.take(index as int) =~= answers);
    EbpfProcessObservationActiveTracepointLiveness { programs }
}

/// A counter that did not move is never reported as moved, and one that nothing was done to move
/// is never reported as still.
pub proof fn law_liveness_is_by_the_counters(
    before: Seq<FiringView>,
    after: Seq<FiringView>,
    index: int,
)
    requires
        0 <= index < all_specs().len(),
    ensures
        ({
            let listed = all_specs()[index];
            let program = liveness_of_all(before, after)[index];
            &&& program.state == EbpfProcessObservationActiveTracepointLivenessState::Advanced <==> (
            is_safe_to_trigger(listed.role) && count_or_zero(count_of(after, listed))
                > count_or_zero(count_of(before, listed)))
            &&& program.state == EbpfProcessObservationActiveTracepointLivenessState::Unsupported
                <==> !is_safe_to_trigger(listed.role)
        }),
{
}

/// What is known of the tracepoints.
#[derive(Debug, PartialEq, Eq)]
pub struct EbpfProcessObservationTracepointDiagnostics {
    pub firings: Vec<EbpfProcessObservationTracepointFiring>,
    pub active_liveness: Result<EbpfProcessObservationActiveTracepointLiveness, String>,
}

#[verifier::ext_equal]
pub struct TracepointDiagnosticsView {
    pub firings: Seq<FiringView>,
    pub active_liveness: Result<Seq<LivenessProgramView>, Seq<char>>,
}

/// The view of a liveness that may be unknown.
pub open spec fn liveness_view(
    liveness: Result<EbpfProcessObservationActiveTracepointLiveness, String>,
) -> Result<Seq<LivenessProgramView>, Seq<char>> {
    match liveness {
        Ok(known) => Ok(known@),
        Err(reason) => Err(reason@),
    }
}

impl View for EbpfProcessObservationTracepointDiagnostics {
    type V = TracepointDiagnosticsView;

    open spec fn view(&self) -> TracepointDiagnosticsView {
        TracepointDiagnosticsView {
            firings: firing_views(self.firings@),
            active_liveness: liveness_view(self.active_liveness),
        }
    }
}

/// What is known of the running probes.
#[derive(Debug, PartialEq, Eq)]
pub struct EbpfProcessObservationRuntimeDiagnostics {
    pub tracepoints: Result<EbpfProcessObservationTracepointDiagnostics, String>,
}

impl View for EbpfProcessObservationRuntimeDiagnostics {
    type V = Result<TracepointDiagnosticsView, Seq<char>>;

    open spec fn view(&self) -> Result<TracepointDiagnosticsView, Seq<char>> {
        match self.tracepoints {
            Ok(known) => Ok(known@),
            Err(reason) => Err(reason@),
        }
    }
}

/// How long what is known of the probes is taken as current.
pub const DEFAULT_RUNTIME_DIAGNOSTICS_REFRESH_INTERVAL_NS: u64 = 1_000_000_000;

pub const DIAGNOSTICS_NOT_READ_REASON: &'static str = "process tracepoint diagnostics have not been read yet";

pub const DIAGNOSTICS_UNAVAILABLE_REASON: &'static str = "process tracepoint firing diagnostics are not available for this observation source";

pub const DIAGNOSTICS_LOST_REASON: &'static str = "process tracepoint firing diagnostics became unavailable after active liveness probe";

/// What is known of the probes and since when.
#[derive(Debug)]
pub struct EbpfProcessObservationRuntimeDiagnosticsCache {
    pub refresh_interval_ns: u64,
    pub last_refresh_ns: Option<u64>,
    pub snapshot: EbpfProcessObservationRuntimeDiagnostics,
    pub active_liveness: Option<EbpfProcessObservationActiveTracepointLiveness>,
}

#[verifier::ext_equal]
pub struct DiagnosticsCacheView {
    pub refresh_interval_ns: u64,
    pub last_refresh_ns: Option<u64>,
    pub snapshot: Result<TracepointDiagnosticsView, Seq<char>>,
    pub active_liveness: Option<Seq<LivenessProgramView>>,
}

impl View for EbpfProcessObservationRuntimeDiagnosticsCache {
    type V = DiagnosticsCacheView;

    open spec fn view(&self) -> DiagnosticsCacheView {
        DiagnosticsCacheView {
            refresh_interval_ns: self.refresh_interval_ns,
            last_refresh_ns: self.last_refresh_ns,
            snapshot: self.snapshot@,
            active_liveness: match self.active_liveness {
                Some(known) => Some(known@),
                None => None,
            },
        }
    }
}

/// A reading of the firing counters.
pub type FiringsReply = Result<Option<Seq<FiringView>>, CaptureErrorView>;

/// The view of a reading of the firing counters.
pub open spec fn firings_reply(
    reply: Result<Option<Vec<EbpfProcessObservationTracepointFiring>>, CaptureError>,
) -> FiringsReply {
    match reply {
        Ok(Some(firings)) => Ok(Some(firing_views(firings@))),
        Ok(None) => Ok(None),
        Err(error) => Err(error@),
    }
}

impl DiagnosticsCacheView {
    /// A cache in which nothing was read yet.
    pub open spec fn fresh() -> DiagnosticsCacheView {
        DiagnosticsCacheView {
            refresh_interval_ns: DEFAULT_RUNTIME_DIAGNOSTICS_REFRESH_INTERVAL_NS,
            last_refresh_ns: None,
            snapshot: Err(DIAGNOSTICS_NOT_READ_REASON@),
            active_liveness: None,
        }
    }

    /// Whether what is known is still current.
    pub open spec fn current_at(self, now_ns: u64) -> bool {
        self.last_refresh_ns matches Some(last) && (if now_ns >= last {
            now_ns - last
        } else {
            0
        }) < self.refresh_interval_ns
    }

    /// Whether a reading of the counters is to be followed by system calls that move them.
    pub open spec fn asks_for_probe(self, reply: FiringsReply) -> bool {
        reply matches Ok(Some(_)) && self.active_liveness is None
    }

    /// What is known after a reading of the counters that nothing follows.
    pub open spec fn after_reading(self, now_ns: u64, reply: FiringsReply) -> DiagnosticsCacheView {
        DiagnosticsCacheView {
            last_refresh_ns: Some(now_ns),
            snapshot: match reply {
                Ok(Some(firings)) => match self.active_liveness {
                    Some(known) => Ok(
                        TracepointDiagnosticsView { firings, active_liveness: Ok(known) },
                    ),
                    None => self.snapshot,
                },
                Ok(None) => Err(DIAGNOSTICS_UNAVAILABLE_REASON@),
                Err(error) => Err(error.text()),
            },
            ..self
        }
    }

    /// What is known after system calls that were to move the counters: where they could be made
    /// and the counters read again, how the probes answered, for good.
    pub open spec fn after_probe(
        self,
        before: Seq<FiringView>,
        triggered: Result<(), Seq<char>>,
        reply: FiringsReply,
    ) -> DiagnosticsCacheView {
        let (firings, active_liveness) = probe_outcome(before, triggered, reply);
        DiagnosticsCacheView {
            snapshot: Ok(TracepointDiagnosticsView { firings, active_liveness }),
            active_liveness: match active_liveness {
                Ok(known) => Some(known),
                Err(_) => self.active_liveness,
            },
            ..self
        }
    }
}

/// What the system calls that were to move the counters showed.
pub open spec fn probe_outcome(
    before: Seq<FiringView>,
    triggered: Result<(), Seq<char>>,
    reply: FiringsReply,
) -> (Seq<FiringView>, Result<Seq<LivenessProgramView>, Seq<char>>) {
    match triggered {
        Err(reason) => (
            before,
            Err("safe active process eBPF tracepoint liveness probe failed: "@ + reason),
        ),
        Ok(_) => match reply {
            Ok(Some(after)) => (after, Ok(liveness_of_all(before, after))),
            Ok(None) => (before, Err(DIAGNOSTICS_LOST_REASON@)),
            Err(error) => (
                before,
                Err(
                    "process tracepoint firing diagnostics failed after active liveness probe: "@
                        + error.text(),
                ),
            ),
        },
    }
}

impl Default for EbpfProcessObservationRuntimeDiagnosticsCache {
    fn default() -> (cache: Self)
        ensures
            cache@ == DiagnosticsCacheView::fresh(),
    {
        EbpfProcessObservationRuntimeDiagnosticsCache {
            refresh_interval_ns: DEFAULT_RUNTIME_DIAGNOSTICS_REFRESH_INTERVAL_NS,
            last_refresh_ns: None,
            snapshot: EbpfProcessObservationRuntimeDiagnostics {
                tracepoints: Err(DIAGNOSTICS_NOT_READ_REASON.to_owned()),
            },
            active_liveness: None,
        }
    }
}

/// The view of an outcome that may be a reason for failure.
pub open spec fn triggered_view(triggered: Result<(), String>) -> Result<(), Seq<char>> {
    match triggered {
        Ok(_) => Ok(()),
        Err(reason) => Err(reason@),
    }
}

/// What the system calls that were to move the counters showed.
fn active_liveness_outcome(
    before: Vec<EbpfProcessObservationTracepointFiring>,
    triggered: Result<(), String>,
    reply: Result<Option<Vec<EbpfProcessObservationTracepointFiring>>, CaptureError>,
) -> (outcome: (
    Vec<EbpfProcessObservationTracepointFiring>,
    Result<EbpfProcessObservationActiveTracepointLiveness, String>,
))
    ensures
        (firing_views(outcome.0@), liveness_view(outcome.1)) == probe_outcome(
            firing_views(before@),
            triggered_view(triggered),
            firings_reply(reply),
        ),
{
    match triggered {
        Err(reason) => (
            before,
            Err(
                joined(
                    "safe active process eBPF tracepoint liveness probe failed: ",
                    reason.as_str(),
                ),
            ),
        ),
        Ok(_) => match reply {
            Ok(Some(after)) => {
                let liveness = active_tracepoint_liveness_from_firings(&before, &after);
                (after, Ok(liveness))
            },
            Ok(None) => (before, Err(DIAGNOSTICS_LOST_REASON.to_owned())),
            Err(error) => (
                before,
                Err(
                    joined(
                        "process tracepoint firing diagnostics failed after active liveness probe: ",
                        error.message().as_str(),
                    ),
                ),
            ),
        },
    }
}

impl EbpfProcessObservationRuntimeDiagnosticsCache {
    pub fn is_current(&self, now_ns: u64) -> (current: bool)
        ensures
            current == self@.current_at(now_ns),
    {
        match self.last_refresh_ns {
            Some(last) => now_ns.saturating_sub(last) < self.refresh_interval_ns,
            None => false,
        }
    }

    /// Takes a reading of the counters. Where system calls are to move them next, the reading is
    /// handed back, to be told with what those show.
    pub fn take_reading(
        &mut self,
        now_ns: u64,
        reply: Result<Option<Vec<EbpfProcessObservationTracepointFiring>>, CaptureError>,
    ) -> (to_probe: Option<Vec<EbpfProcessObservationTracepointFiring>>)
        ensures
            final(self)@ == old(self)@.after_reading(now_ns, firings_reply(reply)),
            to_probe is Some == old(self)@.asks_for_probe(firings_reply(reply)),
            to_probe matches Some(firings) ==> firings_reply(reply) == Ok::<
                Option<Seq<FiringView>>,
                CaptureErrorView,
            >(Some(firing_views(firings@))),
    {
        self.last_refresh_ns = Some(now_ns);
        match reply {
            Ok(Some(firings)) => match &self.active_liveness {
                None => Some(firings),
                Some(known) => {
                    let active_liveness = Ok(known.clone());
                    self.snapshot = EbpfProcessObservationRuntimeDiagnostics {
                        tracepoints: Ok(
                            EbpfProcessObservationTracepointDiagnostics {
                                firings,
                                active_liveness,
                            },
                        ),
                    };
                    None
                },
            },
            Ok(None) => {
                self.snapshot = EbpfProcessObservationRuntimeDiagnostics {
                    tracepoints: Err(DIAGNOSTICS_UNAVAILABLE_REASON.to_owned()),
                };
                None
            },
            Err(error) => {
                self.snapshot = EbpfProcessObservationRuntimeDiagnostics {
                    tracepoints: Err(error.message()),
                };
                None
            },
        }
    }

    /// Takes what system calls that were to move the counters showed.
    pub fn take_probe(
        &mut self,
        before: Vec<EbpfProcessObservationTracepointFiring>,
        triggered: Result<(), String>,
        reply: Result<Option<Vec<EbpfProcessObservationTracepointFiring>>, CaptureError>,
    )
        ensures
            final(self)@ == old(self)@.after_probe(
                firing_views(before@),
                triggered_view(triggered),
                firings_reply(reply),
            ),
    {
        let (firings, active_liveness) = active_liveness_outcome(before, triggered, reply);
        if let Ok(known) = &active_liveness {
            self.active_liveness = Some(known.clone());
        }
        self.snapshot = EbpfProcessObservationRuntimeDiagnostics {
            tracepoints: Ok(
                EbpfProcessObservationTracepointDiagnostics { firings, active_liveness },
            ),
        };
    }
}

} // verus!
