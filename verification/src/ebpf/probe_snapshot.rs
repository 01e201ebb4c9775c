//! What was attached when the probes were loaded.
use vstd::prelude::*;

use super::tracepoints::{
    spec_views, EbpfProcessObservationOptionalTracepointPairState,
    EbpfProcessOptionalTracepointPairSpec, EbpfProcessTracepointSpec, TracepointSpecView,
};

verus! {

/// Where the object file with the probes is.
#[derive(Debug, PartialEq, Eq)]
pub struct EbpfProcessObservationProbeConfig {
    pub object_path: String,
}

impl EbpfProcessObservationProbeConfig {
    pub fn new(object_path: &str) -> (config: EbpfProcessObservationProbeConfig)
        ensures
            config.object_path@ == object_path@,
    {
        EbpfProcessObservationProbeConfig { object_path: object_path.to_owned() }
    }
}

/// A program with how many links it holds.
#[derive(Debug, Clone, Copy, PartialEq, Eq)]
pub struct EbpfProcessObservationProgramLinkOwnershipSnapshot {
    pub program_name: &'static str,
    pub category: &'static str,
    pub tracepoint_name: &'static str,
    pub owned_link_count: usize,
}

#[verifier::ext_equal]
pub struct ProgramLinkView {
    pub program_name: Seq<char>,
    pub category: Seq<char>,
    pub tracepoint_name: Seq<char>,
    pub owned_link_count: nat,
}

impl View for EbpfProcessObservationProgramLinkOwnershipSnapshot {
    type V = ProgramLinkView;

    open spec fn view(&self) -> ProgramLinkView {
        ProgramLinkView {
            program_name: self.program_name@,
            category: self.category@,
            tracepoint_name: self.tracepoint_name@,
            owned_link_count: self.owned_link_count as nat,
        }
    }
}

/// The views of some programs.
pub open spec fn link_views(
    programs: Seq<EbpfProcessObservationProgramLinkOwnershipSnapshot>,
) -> Seq<ProgramLinkView> {
    programs.map_values(|program: EbpfProcessObservationProgramLinkOwnershipSnapshot| program@)
}

/// The one link of an attached tracepoint.
pub open spec fn link_of(listed: TracepointSpecView) -> ProgramLinkView {
    ProgramLinkView {
        program_name: listed.program_name,
        category: listed.category,
        tracepoint_name: listed.tracepoint_name,
        owned_link_count: 1,
    }
}

/// Which programs hold links at all.
pub open spec fn holds_links() -> spec_fn(
    EbpfProcessObservationProgramLinkOwnershipSnapshot,
) -> bool {
    |program: EbpfProcessObservationProgramLinkOwnershipSnapshot| program.owned_link_count > 0
}

/// How many links some programs hold together.
pub open spec fn links_of(
    programs: Seq<EbpfProcessObservationProgramLinkOwnershipSnapshot>,
) -> nat
    decreases programs.len(),
{
    if programs.len() == 0 {
        0
    } else {
        links_of(programs.drop_last()) + programs.last().owned_link_count as nat
    }
}

impl EbpfProcessObservationProgramLinkOwnershipSnapshot {
    pub fn new(
        program_name: &'static str,
        category: &'static str,
        tracepoint_name: &'static str,
        owned_link_count: usize,
    ) -> (program: EbpfProcessObservationProgramLinkOwnershipSnapshot)
        ensures
            program@ == (ProgramLinkView {
                program_name: program_name@,
                category: category@,
                tracepoint_name: tracepoint_name@,
                owned_link_count: owned_link_count as nat,
            }),
    {
        EbpfProcessObservationProgramLinkOwnershipSnapshot {
            program_name,
            category,
            tracepoint_name,
            owned_link_count,
        }
    }

    fn from_spec(listed: EbpfProcessTracepointSpec) -> (program:
        EbpfProcessObservationProgramLinkOwnershipSnapshot)
        ensures
            program@ == link_of(listed@),
    {
        EbpfProcessObservationProgramLinkOwnershipSnapshot::new(
            listed.program_name,
            listed.category,
            listed.tracepoint_name,
            1,
        )
    }

    pub fn program_name(&self) -> (name: &'static str)
        ensures
            name@ == self@.program_name,
    {
        self.program_name
    }

    pub fn category(&self) -> (category: &'static str)
        ensures
            category@ == self@.category,
    {
        self.category
    }

    pub fn tracepoint_name(&self) -> (name: &'static str)
        ensures
            name@ == self@.tracepoint_name,
    {
        self.tracepoint_name
    }

    pub fn owned_link_count(&self) -> (count: usize)
        ensures
            count == self@.owned_link_count,
    {
        self.owned_link_count
    }
}

/// The programs that hold links.
#[derive(Debug, PartialEq, Eq)]
pub struct EbpfProcessObservationLinkOwnershipSnapshot {
    pub programs: Vec<EbpfProcessObservationProgramLinkOwnershipSnapshot>,
}

impl Clone for EbpfProcessObservationLinkOwnershipSnapshot {
    fn clone(&self) -> (copy: Self)
        ensures
            copy.programs@ == self.programs@,
    {
        let mut programs: Vec<EbpfProcessObservationProgramLinkOwnershipSnapshot> = Vec::new();
        let mut index: usize = 0;
        while index < self.programs.len()
            invariant
                index <= self.programs.len(),
                programs@ == self.programs@.take(index as int),
            decreases self.programs.len() - index,
        {
            programs.push(self.programs[index]);
            assert(programs@ =~= self.programs@.take(index + 1));
            index = index + 1;
        }
        assert(self.programs@.take(index as int) =~= self.programs@);
        EbpfProcessObservationLinkOwnershipSnapshot { programs }
    }
}

impl EbpfProcessObservationLinkOwnershipSnapshot {
    /// Nothing is known to be attached.
    pub fn unreported() -> (ownership: EbpfProcessObservationLinkOwnershipSnapshot)
        ensures
            ownership.programs@.len() == 0,
    {
        EbpfProcessObservationLinkOwnershipSnapshot { programs: Vec::new() }
    }

    /// Each of the tracepoints is attached by one link.
    pub fn from_attached_tracepoints(specs: Vec<EbpfProcessTracepointSpec>) -> (ownership:
        EbpfProcessObservationLinkOwnershipSnapshot)
        ensures
            link_views(ownership.programs@) == spec_views(specs@).map_values(
                |listed: TracepointSpecView| link_of(listed),
            ),
    {
        let mut programs: Vec<EbpfProcessObservationProgramLinkOwnershipSnapshot> = Vec::new();
        let ghost links = spec_views(specs@).map_values(|listed: TracepointSpecView| link_of(listed));
        let mut index: usize = 0;
        assert(link_views(programs@) =~= links.take(0));
        while index < specs.len()
            invariant
                index <= specs.len(),
                links == spec_views(specs@).map_values(
                    |listed: TracepointSpecView| link_of(listed),
                ),
                link_views(programs@) == links.take(index as int),
                forall|place: int|
                    0 <= place < programs@.len() ==> (#[trigger] programs@[place]).owned_link_count
                        == 1,
            decreases specs.len() - index,
        {
            let ghost earlier = programs@;
            let program = EbpfProcessObservationProgramLinkOwnershipSnapshot::from_spec(
                specs[index],
            );
            programs.push(program);
            proof {
                assert(spec_views(specs@)[index as int] == specs@[index as int]@);
                assert(links[index as int] == program@);
                assert(link_views(programs@) =~= link_views(earlier).push(program@));
                assert(links.take(index + 1) =~= links.take(index as int).push(program@));
            }
            index = index + 1;
        }
        assert(links.take(index as int) =~= links);
        proof {
            lemma_filter_nothing(programs@);
        }
        EbpfProcessObservationLinkOwnershipSnapshot::owned_by_programs(programs)
    }

    /// The programs, without those that hold no link.
    pub fn owned_by_programs(
        programs: Vec<EbpfProcessObservationProgramLinkOwnershipSnapshot>,
    ) -> (ownership: EbpfProcessObservationLinkOwnershipSnapshot)
        ensures
            ownership.programs@ == programs@.filter(holds_links()),
    {
        let mut kept: Vec<EbpfProcessObservationProgramLinkOwnershipSnapshot> = Vec::new();
        let mut index: usize = 0;
        proof {
            reveal(Seq::filter);
            assert(programs@.take(0) =~= Seq::empty());
            assert(kept@ =~= programs@.take(0).filter(holds_links()));
        }
        while index < programs.len()
            invariant
                index <= programs.len(),
                kept@ == programs@.take(index as int).filter(holds_links()),
            decreases programs.len() - index,
        {
            proof {
                reveal(Seq::filter);
                assert(programs@.take(index + 1).drop_last() =~= programs@.take(index as int));
            }
            if programs[index].owned_link_count > 0 {
                kept.push(programs[index]);
            }
            index = index + 1;
        }
        assert(programs@.take(index as int) =~= programs@);
        EbpfProcessObservationLinkOwnershipSnapshot { programs: kept }
    }

    /// Whether any link is known to be held.
    pub fn is_reported(&self) -> (reported: bool)
        ensures
            reported == (links_of(self.programs@) > 0),
    {
        let mut index: usize = 0;
        assert(links_of(self.programs@.take(0)) == 0);
        while index < self.programs.len()
            invariant
                index <= self.programs.len(),
                links_of(self.programs@.take(index as int)) == 0,
            decreases self.programs.len() - index,
        {
            proof {
                lemma_links_of_prefix(self.programs@, index + 1);
                assert(self.programs@.take(index + 1).drop_last() =~= self.programs@.take(
                    index as int,
                ));
            }
            if self.programs[index].owned_link_count > 0 {
                return true;
            }
            index = index + 1;
        }
        assert(self.programs@.take(index as int) =~= self.programs@);
        false
    }

    pub fn owned_link_count(&self) -> (count: usize)
        requires
            links_of(self.programs@) <= usize::MAX,
        ensures
            count == links_of(self.programs@),
    {
        let mut count: usize = 0;
        let mut index: usize = 0;
        assert(links_of(self.programs@.take(0)) == 0);
        while index < self.programs.len()
            invariant
                index <= self.programs.len(),
                links_of(self.programs@) <= usize::MAX,
                count == links_of(self.programs@.take(index as int)),
            decreases self.programs.len() - index,
        {
            proof {
                lemma_links_of_prefix(self.programs@, index + 1);
                assert(self.programs@.take(index + 1).drop_last() =~= self.programs@.take(
                    index as int,
                ));
            }
            count = count + self.programs[index].owned_link_count;
            index = index + 1;
        }
        assert(self.programs@.take(index as int) =~= self.programs@);
        count
    }

    pub fn into_programs(self) -> (programs: Vec<
        EbpfProcessObservationProgramLinkOwnershipSnapshot,
    >)
        ensures
            programs@ == self.programs@,
    {
        self.programs
    }
}

proof fn lemma_filter_nothing(programs: Seq<EbpfProcessObservationProgramLinkOwnershipSnapshot>)
    requires
        forall|place: int|
            0 <= place < programs.len() ==> (#[trigger] programs[place]).owned_link_count > 0,
    ensures
        programs.filter(holds_links()) == programs,
    decreases programs.len(),
{
    reveal(Seq::filter);
    if programs.len() > 0 {
        let shorter = programs.drop_last();
        assert forall|place: int| 0 <= place < shorter.len() implies (
        #[trigger] shorter[place]).owned_link_count > 0 by {
            assert(shorter[place] == programs[place]);
        }
        lemma_filter_nothing(shorter);
        assert(programs[programs.len() - 1].owned_link_count > 0);
        assert(shorter.push(programs.last()) =~= programs);
    } else {
        assert(programs.filter(holds_links()) =~= programs);
    }
}

/// A part of the programs holds no more links than all of them.
proof fn lemma_links_of_prefix(
    programs: Seq<EbpfProcessObservationProgramLinkOwnershipSnapshot>,
    length: int,
)
    requires
        0 <= length <= programs.len(),
    ensures
        links_of(programs.take(length)) <= links_of(programs),
    decreases programs.len(),
{
    if length < programs.len() {
        lemma_links_of_prefix(programs.drop_last(), length);
        assert(programs.drop_last().take(length) =~= programs.take(length));
    } else {
        assert(programs.take(length) =~= programs);
    }
}

/// Every attached tracepoint is reported: as many links are held as tracepoints were attached.
pub proof fn law_attached_tracepoints_are_owned(
    programs: Seq<EbpfProcessObservationProgramLinkOwnershipSnapshot>,
    specs: Seq<TracepointSpecView>,
)
    requires
        link_views(programs) == specs.map_values(|listed: TracepointSpecView| link_of(listed)),
    ensures
        links_of(programs) == specs.len(),
    decreases programs.len(),
{
    let links = specs.map_values(|listed: TracepointSpecView| link_of(listed));
    assert(links.len() == specs.len());
    assert(link_views(programs).len() == programs.len());
    if programs.len() > 0 {
        let shorter = programs.drop_last();
        let fewer = specs.drop_last();
        assert(link_views(shorter) =~= link_views(programs).drop_last());
        assert(fewer.map_values(|listed: TracepointSpecView| link_of(listed))
            =~= links.drop_last());
        law_attached_tracepoints_are_owned(shorter, fewer);
        assert(link_views(programs)[programs.len() - 1] == programs.last()@);
        assert(links[specs.len() - 1].owned_link_count == 1);
    }
}

/// An optional pair of probes and whether it is attached.
#[derive(Debug, Clone, Copy, PartialEq, Eq)]
pub struct EbpfProcessObservationOptionalTracepointPairSnapshot {
    pub pair: EbpfProcessOptionalTracepointPairSpec,
    pub state: EbpfProcessObservationOptionalTracepointPairState,
}

impl EbpfProcessObservationOptionalTracepointPairSnapshot {
    pub fn attached(pair: EbpfProcessOptionalTracepointPairSpec) -> (snapshot:
        EbpfProcessObservationOptionalTracepointPairSnapshot)
        ensures
            snapshot.pair == pair,
            snapshot.state == EbpfProcessObservationOptionalTracepointPairState::Attached,
    {
        EbpfProcessObservationOptionalTracepointPairSnapshot {
            pair,
            state: EbpfProcessObservationOptionalTracepointPairState::Attached,
        }
    }

    pub fn kernel_missing(pair: EbpfProcessOptionalTracepointPairSpec) -> (snapshot:
        EbpfProcessObservationOptionalTracepointPairSnapshot)
        ensures
            snapshot.pair == pair,
            snapshot.state == EbpfProcessObservationOptionalTracepointPairState::KernelMissing,
    {
        EbpfProcessObservationOptionalTracepointPairSnapshot {
            pair,
            state: EbpfProcessObservationOptionalTracepointPairState::KernelMissing,
        }
    }

    pub fn family_name(&self) -> (name: &'static str)
        ensures
            name == self.pair.family_name,
    {
        self.pair.family_name()
    }

    pub fn enter_category(&self) -> (category: &'static str)
        ensures
            category == self.pair.enter.category,
    {
        self.pair.enter_spec().category
    }

    pub fn enter_tracepoint_name(&self) -> (name: &'static str)
        ensures
            name == self.pair.enter.tracepoint_name,
    {
        self.pair.enter_spec().tracepoint_name
    }

    pub fn exit_category(&self) -> (category: &'static str)
        ensures
            category == self.pair.exit.category,
    {
        self.pair.exit_spec().category
    }

    pub fn exit_tracepoint_name(&self) -> (name: &'static str)
        ensures
            name == self.pair.exit.tracepoint_name,
    {
        self.pair.exit_spec().tracepoint_name
    }

    pub fn state(&self) -> (state: EbpfProcessObservationOptionalTracepointPairState)
        ensures
            state == self.state,
    {
        self.state
    }
}

/// What was attached when the probes were loaded.
#[derive(Debug, PartialEq, Eq)]
pub struct EbpfProcessObservationProbeSnapshot {
    pub link_ownership: EbpfProcessObservationLinkOwnershipSnapshot,
    pub optional_tracepoint_pairs: Vec<EbpfProcessObservationOptionalTracepointPairSnapshot>,
}

impl Clone for EbpfProcessObservationProbeSnapshot {
    fn clone(&self) -> (copy: Self)
        ensures
            copy.link_ownership.programs@ == self.link_ownership.programs@,
            copy.optional_tracepoint_pairs@ == self.optional_tracepoint_pairs@,
    {
        let mut pairs: Vec<EbpfProcessObservationOptionalTracepointPairSnapshot> = Vec::new();
        let mut index: usize = 0;
        while index < self.optional_tracepoint_pairs.len()
            invariant
                index <= self.optional_tracepoint_pairs.len(),
                pairs@ == self.optional_tracepoint_pairs@.take(index as int),
            decreases self.optional_tracepoint_pairs.len() - index,
        {
            pairs.push(self.optional_tracepoint_pairs[index]);
            assert(pairs@ =~= self.optional_tracepoint_pairs@.take(index + 1));
            index = index + 1;
        }
        assert(self.optional_tracepoint_pairs@.take(index as int)
            =~= self.optional_tracepoint_pairs@);
        EbpfProcessObservationProbeSnapshot {
            link_ownership: self.link_ownership.clone(),
            optional_tracepoint_pairs: pairs,
        }
    }
}

impl EbpfProcessObservationProbeSnapshot {
    /// Nothing is known to be attached.
    pub fn unreported() -> (snapshot: EbpfProcessObservationProbeSnapshot)
        ensures
            snapshot.link_ownership.programs@.len() == 0,
            snapshot.optional_tracepoint_pairs@.len() == 0,
    {
        EbpfProcessObservationProbeSnapshot {
            link_ownership: EbpfProcessObservationLinkOwnershipSnapshot::unreported(),
            optional_tracepoint_pairs: Vec::new(),
        }
    }

    pub fn from_attached_tracepoints_and_optional_pairs(
        specs: Vec<EbpfProcessTracepointSpec>,
        optional_tracepoint_pairs: Vec<EbpfProcessObservationOptionalTracepointPairSnapshot>,
    ) -> (snapshot: EbpfProcessObservationProbeSnapshot)
        ensures
            link_views(snapshot.link_ownership.programs@) == spec_views(specs@).map_values(
                |listed: TracepointSpecView| link_of(listed),
            ),
            snapshot.optional_tracepoint_pairs@ == optional_tracepoint_pairs@,
    {
        EbpfProcessObservationProbeSnapshot::from_link_ownership_and_optional_pairs(
            EbpfProcessObservationLinkOwnershipSnapshot::from_attached_tracepoints(specs),
            optional_tracepoint_pairs,
        )
    }

    pub fn from_link_ownership_and_optional_pairs(
        link_ownership: EbpfProcessObservationLinkOwnershipSnapshot,
        optional_tracepoint_pairs: Vec<EbpfProcessObservationOptionalTracepointPairSnapshot>,
    ) -> (snapshot: EbpfProcessObservationProbeSnapshot)
        ensures
            snapshot.link_ownership == link_ownership,
            snapshot.optional_tracepoint_pairs == optional_tracepoint_pairs,
    {
        EbpfProcessObservationProbeSnapshot { link_ownership, optional_tracepoint_pairs }
    }

    pub fn link_ownership(&self) -> (ownership: &EbpfProcessObservationLinkOwnershipSnapshot)
        ensures
            *ownership == self.link_ownership,
    {
        &self.link_ownership
    }

    pub fn optional_tracepoint_pairs(&self) -> (pairs: &Vec<
        EbpfProcessObservationOptionalTracepointPairSnapshot,
    >)
        ensures
            *pairs == self.optional_tracepoint_pairs,
    {
        &self.optional_tracepoint_pairs
    }

    pub fn into_parts(self) -> (parts: (
        EbpfProcessObservationLinkOwnershipSnapshot,
        Vec<EbpfProcessObservationOptionalTracepointPairSnapshot>,
    ))
        ensures
            parts == (self.link_ownership, self.optional_tracepoint_pairs),
    {
        (self.link_ownership, self.optional_tracepoint_pairs)
    }
}

} // verus!
