//! Which probes are attached, in which order, and what is known of them afterwards.
use std::collections::VecDeque;

use vstd::prelude::*;
use vstd::string::StringExecFns;

use crate::text::joined;

use super::probe_snapshot::{
    link_of, link_views, EbpfProcessObservationOptionalTracepointPairSnapshot,
    EbpfProcessObservationProbeSnapshot,
};
use super::tracepoints::{
    all_specs, optional_tracepoint_pair_state, process_optional_tracepoint_pair_specs,
    process_tracepoint_specs, spec_views, EbpfProcessObservationOptionalTracepointPairState,
    EbpfProcessOptionalTracepointPairSpec, EbpfProcessTracepointRole, EbpfProcessTracepointSpec,
    IncompleteOptionalTracepointPair, TracepointSpecView,
};

verus! {

/// Where the kernel may show its tracepoints, in the order in which the places are looked at.
pub const TRACEFS_MOUNTS: [&'static str; 2] = ["/sys/kernel/tracing", "/sys/kernel/debug/tracing"];

/// The file that is there if the kernel has a tracepoint.
pub open spec fn tracepoint_id_text(tracefs: Seq<char>, listed: TracepointSpecView) -> Seq<char> {
    tracefs + "/events/"@ + listed.category + "/"@ + listed.tracepoint_name + "/id"@
}

/// The file that is there if the kernel has a tracepoint.
pub fn tracepoint_id_path(tracefs: &str, listed: &EbpfProcessTracepointSpec) -> (path: String)
    ensures
        path@ == tracepoint_id_text(tracefs@, listed@),
{
    let mut path = joined(tracefs, "/events/");
    path.append(listed.category);
    path.append("/");
    path.append(listed.tracepoint_name);
    path.append("/id");
    path
}

/// What a look at one place for a tracepoint brought.
#[derive(Debug, PartialEq, Eq)]
pub enum TracepointLook {
    Found,
    NotFound,
    Failed { error: String },
}

/// Whether a tracepoint exists, by the looks at the places so far: the first place that does not
/// lack it decides, and it does not exist if all places lack it.
pub open spec fn existence(looks: Seq<TracepointLook>) -> Option<Result<bool, Seq<char>>>
    decreases looks.len(),
{
    if looks.len() == 0 {
        None
    } else {
        match existence(looks.drop_last()) {
            Some(decided) => Some(decided),
            None => match looks.last() {
                TracepointLook::Found => Some(Ok(true)),
                TracepointLook::Failed { error } => Some(Err(error@)),
                TracepointLook::NotFound => if looks.len() >= TRACEFS_MOUNTS.len() {
                    Some(Ok(false))
                } else {
                    None
                },
            },
        }
    }
}

/// The view of what is known of a tracepoint's existence.
pub open spec fn existence_view(known: Option<Result<bool, String>>) -> Option<
    Result<bool, Seq<char>>,
> {
    match known {
        None => None,
        Some(Ok(exists)) => Some(Ok(exists)),
        Some(Err(error)) => Some(Err(error@)),
    }
}

/// Whether a tracepoint exists, by the looks at the places so far, or `None` if another place has
/// to be looked at.
pub fn tracepoint_exists(looks: &Vec<TracepointLook>) -> (known: Option<Result<bool, String>>)
    ensures
        existence_view(known) == existence(looks@),
{
    let mut known: Option<Result<bool, String>> = None;
    let mut index: usize = 0;
    while index < looks.len()
        invariant
            index <= looks.len(),
            existence_view(known) == existence(looks@.take(index as int)),
        decreases looks.len() - index,
    {
        assert(looks@.take(index + 1).drop_last() =~= looks@.take(index as int));
        if known.is_none() {
            match &looks[index] {
                TracepointLook::Found => {
                    known = Some(Ok(true));
                },
                TracepointLook::Failed { error } => {
                    known = Some(Err(error.clone()));
                },
                TracepointLook::NotFound => {
                    if index + 1 >= TRACEFS_MOUNTS.len() {
                        known = Some(Ok(false));
                    }
                },
            }
        }
        index = index + 1;
    }
    assert(looks@.take(index as int) =~= looks@);
    known
}

/// What has to be done next to attach the probes.
#[derive(Debug, Clone, Copy, PartialEq, Eq)]
pub enum AttachmentStep {
    /// Load a probe and attach it.
    Attach(EbpfProcessTracepointSpec),
    /// Find out which tracepoints of a pair the kernel has.
    LookUp(EbpfProcessOptionalTracepointPairSpec),
    Finish,
}

/// How far the probes are attached.
#[derive(Debug, PartialEq, Eq)]
pub struct ProbeAttachment {
    /// The probes that are to be attached.
    pub waiting: VecDeque<EbpfProcessTracepointSpec>,
    /// The pairs that the kernel was not asked about.
    pub pairs: VecDeque<EbpfProcessOptionalTracepointPairSpec>,
    pub attached: Vec<EbpfProcessTracepointSpec>,
    pub looked_up: Vec<EbpfProcessObservationOptionalTracepointPairSnapshot>,
}

#[verifier::ext_equal]
pub struct AttachmentView {
    pub waiting: Seq<EbpfProcessTracepointSpec>,
    pub pairs: Seq<EbpfProcessOptionalTracepointPairSpec>,
    pub attached: Seq<EbpfProcessTracepointSpec>,
    pub looked_up: Seq<EbpfProcessObservationOptionalTracepointPairSnapshot>,
}

impl View for ProbeAttachment {
    type V = AttachmentView;

    open spec fn view(&self) -> AttachmentView {
        AttachmentView {
            waiting: self.waiting@,
            pairs: self.pairs@,
            attached: self.attached@,
            looked_up: self.looked_up@,
        }
    }
}

/// The two probes of a pair.
pub open spec fn probes_of(pair: EbpfProcessOptionalTracepointPairSpec) -> Seq<
    EbpfProcessTracepointSpec,
> {
    seq![pair.enter, pair.exit]
}

/// The probes of the pairs that the kernel has.
pub open spec fn probes_of_attached(
    looked_up: Seq<EbpfProcessObservationOptionalTracepointPairSnapshot>,
) -> Seq<EbpfProcessTracepointSpec>
    decreases looked_up.len(),
{
    if looked_up.len() == 0 {
        Seq::empty()
    } else {
        probes_of_attached(looked_up.drop_last()) + match looked_up.last().state {
            EbpfProcessObservationOptionalTracepointPairState::Attached => probes_of(
                looked_up.last().pair,
            ),
            EbpfProcessObservationOptionalTracepointPairState::KernelMissing => Seq::empty(),
        }
    }
}

/// The pairs that the kernel was asked about.
pub open spec fn pairs_of(
    looked_up: Seq<EbpfProcessObservationOptionalTracepointPairSnapshot>,
) -> Seq<EbpfProcessOptionalTracepointPairSpec> {
    looked_up.map_values(
        |snapshot: EbpfProcessObservationOptionalTracepointPairSnapshot| snapshot.pair,
    )
}

impl AttachmentView {
    pub open spec fn step(self) -> AttachmentStep {
        if self.waiting.len() > 0 {
            AttachmentStep::Attach(self.waiting[0])
        } else if self.pairs.len() > 0 {
            AttachmentStep::LookUp(self.pairs[0])
        } else {
            AttachmentStep::Finish
        }
    }

    /// The probe that waited longest is attached.
    pub open spec fn after_attach(self) -> AttachmentView {
        AttachmentView {
            waiting: self.waiting.skip(1),
            attached: self.attached.push(self.waiting[0]),
            ..self
        }
    }

    /// The next pair was looked up: the kernel has both tracepoints of it or none.
    pub open spec fn after_look_up(
        self,
        state: EbpfProcessObservationOptionalTracepointPairState,
    ) -> AttachmentView {
        AttachmentView {
            waiting: match state {
                EbpfProcessObservationOptionalTracepointPairState::Attached => self.waiting
                    + probes_of(self.pairs[0]),
                EbpfProcessObservationOptionalTracepointPairState::KernelMissing => self.waiting,
            },
            pairs: self.pairs.skip(1),
            looked_up: self.looked_up.push(
                EbpfProcessObservationOptionalTracepointPairSnapshot { pair: self.pairs[0], state },
            ),
            ..self
        }
    }

    /// Whether every one of the required probes and of the pairs is attached, waiting or lacking.
    pub open spec fn accounts_for(
        self,
        required: Seq<EbpfProcessTracepointSpec>,
        pairs: Seq<EbpfProcessOptionalTracepointPairSpec>,
    ) -> bool {
        &&& self.attached + self.waiting == required + probes_of_attached(self.looked_up)
        &&& pairs_of(self.looked_up) + self.pairs == pairs
    }
}

/// Whether a probe is attached to every kernel.
pub open spec fn is_required(listed: TracepointSpecView) -> bool {
    listed.role != EbpfProcessTracepointRole::Sendfile64Enter && listed.role
        != EbpfProcessTracepointRole::Sendfile64Exit
}

/// The probes that are attached to every kernel.
pub open spec fn required_specs() -> Seq<TracepointSpecView> {
    all_specs().filter(|listed: TracepointSpecView| is_required(listed))
}

impl ProbeAttachment {
    /// Nothing is attached: the required probes wait, and then come the pairs.
    pub fn new() -> (attachment: ProbeAttachment)
        ensures
            spec_views(attachment@.waiting) == required_specs(),
            attachment@.attached == Seq::<EbpfProcessTracepointSpec>::empty(),
            attachment@.looked_up == Seq::<
                EbpfProcessObservationOptionalTracepointPairSnapshot,
            >::empty(),
            attachment@.pairs.len() == 1,
            attachment@.pairs[0].family_name@ == "sendfile"@,
            attachment@.pairs[0].enter@ == EbpfProcessTracepointRole::Sendfile64Enter.listed(),
            attachment@.pairs[0].exit@ == EbpfProcessTracepointRole::Sendfile64Exit.listed(),
    {
        let specs = process_tracepoint_specs();
        let mut waiting: VecDeque<EbpfProcessTracepointSpec> = VecDeque::new();
        let ghost kept = |listed: TracepointSpecView| is_required(listed);
        let mut index: usize = 0;
        proof {
            reveal(Seq::filter);
            assert(spec_views(waiting@) =~= all_specs().take(0).filter(kept));
        }
        while index < specs.len()
            invariant
                index <= specs.len(),
                spec_views(specs@) == all_specs(),
                kept == (|listed: TracepointSpecView| is_required(listed)),
                spec_views(waiting@) == all_specs().take(index as int).filter(kept),
            decreases specs.len() - index,
        {
            let ghost before = waiting@;
            let listed = specs[index];
            proof {
                reveal(Seq::filter);
                assert(spec_views(specs@)[index as int] == listed@);
                assert(all_specs().take(index + 1).drop_last() =~= all_specs().take(index as int));
                assert(all_specs().take(index + 1).last() == listed@);
            }
            if !listed.role.has_optional_attach() {
                waiting.push_back(listed);
                assert(spec_views(waiting@) =~= spec_views(before).push(listed@));
            }
            index = index + 1;
        }
        assert(all_specs().take(index as int) =~= all_specs());
        let mut pairs: VecDeque<EbpfProcessOptionalTracepointPairSpec> = VecDeque::new();
        let optional = process_optional_tracepoint_pair_specs();
        pairs.push_back(optional[0]);
        ProbeAttachment { waiting, pairs, attached: Vec::new(), looked_up: Vec::new() }
    }

    /// What has to be done next.
    pub fn step(&self) -> (step: AttachmentStep)
        ensures
            step == self@.step(),
    {
        if self.waiting.len() > 0 {
            return AttachmentStep::Attach(self.waiting[0]);
        }
        if self.pairs.len() > 0 {
            return AttachmentStep::LookUp(self.pairs[0]);
        }
        AttachmentStep::Finish
    }

    /// Notes that the probe that was to be attached is attached.
    pub fn take_attached(&mut self)
        requires
            old(self)@.step() is Attach,
        ensures
            final(self)@ == old(self)@.after_attach(),
    {
        let ghost before = self@;
        if let Some(listed) = self.waiting.pop_front() {
            self.attached.push(listed);
        }
        assert(self@ =~= before.after_attach());
    }

    /// Notes which tracepoints of the pair that was to be looked up the kernel has. One alone is
    /// an error, and nothing is noted.
    pub fn take_look_up(&mut self, enter_exists: bool, exit_exists: bool) -> (taken: Result<
        (),
        IncompleteOptionalTracepointPair,
    >)
        requires
            old(self)@.step() is LookUp,
        ensures
            match (enter_exists, exit_exists) {
                (true, true) => taken is Ok && final(self)@ == old(self)@.after_look_up(
                    EbpfProcessObservationOptionalTracepointPairState::Attached,
                ),
                (false, false) => taken is Ok && final(self)@ == old(self)@.after_look_up(
                    EbpfProcessObservationOptionalTracepointPairState::KernelMissing,
                ),
                (true, false) => taken == Err::<(), _>(
                    IncompleteOptionalTracepointPair {
                        present: old(self)@.pairs[0].enter,
                        missing: old(self)@.pairs[0].exit,
                    },
                ) && final(self)@ == old(self)@,
                (false, true) => taken == Err::<(), _>(
                    IncompleteOptionalTracepointPair {
                        present: old(self)@.pairs[0].exit,
                        missing: old(self)@.pairs[0].enter,
                    },
                ) && final(self)@ == old(self)@,
            },
    {
        let ghost before = self@;
        let pair = self.pairs[0];
        match optional_tracepoint_pair_state(&pair, enter_exists, exit_exists) {
            Ok(state) => {
                let _ = self.pairs.pop_front();
                match state {
                    EbpfProcessObservationOptionalTracepointPairState::Attached => {
                        self.waiting.push_back(*pair.enter_spec());
                        self.waiting.push_back(*pair.exit_spec());
                        self.looked_up.push(
                            EbpfProcessObservationOptionalTracepointPairSnapshot::attached(pair),
                        );
                    },
                    EbpfProcessObservationOptionalTracepointPairState::KernelMissing => {
                        self.looked_up.push(
                            EbpfProcessObservationOptionalTracepointPairSnapshot::kernel_missing(
                                pair,
                            ),
                        );
                    },
                }
                assert(self@ =~= before.after_look_up(state));
                Ok(())
            },
            Err(incomplete) => Err(incomplete),
        }
    }

    /// What is known of the probes once they are attached.
    pub fn into_snapshot(self) -> (snapshot: EbpfProcessObservationProbeSnapshot)
        ensures
            link_views(snapshot.link_ownership.programs@) == spec_views(
                self@.attached,
            ).map_values(|listed: TracepointSpecView| link_of(listed)),
            snapshot.optional_tracepoint_pairs@ == self@.looked_up,
    {
        EbpfProcessObservationProbeSnapshot::from_attached_tracepoints_and_optional_pairs(
            self.attached,
            self.looked_up,
        )
    }
}

/// No probe is forgotten and none is attached twice: at the start, and after every step, each
/// required probe is attached or waits, and so does each probe of a pair that the kernel has; at
/// the end the required probes are attached in their order, then those of the pairs that the
/// kernel has, and every pair was looked up.
pub proof fn law_every_probe_is_accounted_for(
    attachment: AttachmentView,
    required: Seq<EbpfProcessTracepointSpec>,
    pairs: Seq<EbpfProcessOptionalTracepointPairSpec>,
    state: EbpfProcessObservationOptionalTracepointPairState,
)
    ensures
        (AttachmentView {
            waiting: required,
            pairs,
            attached: Seq::empty(),
            looked_up: Seq::empty(),
        }).accounts_for(required, pairs),
        attachment.accounts_for(required, pairs) && attachment.step() is Attach
            ==> attachment.after_attach().accounts_for(required, pairs),
        attachment.accounts_for(required, pairs) && attachment.step() is LookUp
            ==> attachment.after_look_up(state).accounts_for(required, pairs),
        attachment.accounts_for(required, pairs) && attachment.step() is Finish
            ==> attachment.attached == required + probes_of_attached(attachment.looked_up)
            && pairs_of(attachment.looked_up) == pairs,
{
    let nothing = Seq::<EbpfProcessObservationOptionalTracepointPairSnapshot>::empty();
    assert(Seq::<EbpfProcessTracepointSpec>::empty() + required =~= required
        + probes_of_attached(nothing));
    assert(pairs_of(nothing) + pairs =~= pairs);
    if attachment.accounts_for(required, pairs) {
        if attachment.step() is Attach {
            let after = attachment.after_attach();
            assert(after.attached + after.waiting =~= attachment.attached + attachment.waiting);
        }
        if attachment.step() is LookUp {
            let after = attachment.after_look_up(state);
            assert(after.looked_up.drop_last() =~= attachment.looked_up);
            assert(after.attached + after.waiting =~= required + probes_of_attached(
                after.looked_up,
            ));
            assert(pairs_of(after.looked_up) =~= pairs_of(attachment.looked_up).push(
                attachment.pairs[0],
            ));
            assert(pairs_of(after.looked_up) + after.pairs =~= pairs);
        }
        if attachment.step() is Finish {
            assert(attachment.attached + attachment.waiting =~= attachment.attached);
            assert(pairs_of(attachment.looked_up) + attachment.pairs =~= pairs_of(
                attachment.looked_up,
            ));
        }
    }
}

} // verus!
