//! The tracepoints that the kernel probes are attached to.
use vstd::prelude::*;

verus! {

/// What a probe watches: the entry to or the exit from a system call, or the end of a process.
#[derive(Debug, Clone, Copy, PartialEq, Eq, Structural)]
pub enum EbpfProcessTracepointRole {
    ConnectEnter,
    ConnectExit,
    AcceptEnter,
    AcceptExit,
    Accept4Enter,
    Accept4Exit,
    CloseEnter,
    CloseExit,
    CloseRangeEnter,
    CloseRangeExit,
    WriteEnter,
    WriteExit,
    WritevEnter,
    WritevExit,
    Sendfile64Enter,
    Sendfile64Exit,
    ReadEnter,
    ReadExit,
    ReadvEnter,
    ReadvExit,
    ProcessExit,
    ProcessExec,
}

/// A probe and the tracepoint that it is attached to.
#[derive(Debug, Clone, Copy, PartialEq, Eq)]
pub struct EbpfProcessTracepointSpec {
    pub role: EbpfProcessTracepointRole,
    pub program_name: &'static str,
    pub category: &'static str,
    pub tracepoint_name: &'static str,
}

#[verifier::ext_equal]
pub struct TracepointSpecView {
    pub role: EbpfProcessTracepointRole,
    pub program_name: Seq<char>,
    pub category: Seq<char>,
    pub tracepoint_name: Seq<char>,
}

impl View for EbpfProcessTracepointSpec {
    type V = TracepointSpecView;

    open spec fn view(&self) -> TracepointSpecView {
        TracepointSpecView {
            role: self.role,
            program_name: self.program_name@,
            category: self.category@,
            tracepoint_name: self.tracepoint_name@,
        }
    }
}

/// The views of some specs.
pub open spec fn spec_views(specs: Seq<EbpfProcessTracepointSpec>) -> Seq<TracepointSpecView> {
    specs.map_values(|listed: EbpfProcessTracepointSpec| listed@)
}

impl EbpfProcessTracepointRole {
    pub open spec fn program(self) -> Seq<char> {
        match self {
            EbpfProcessTracepointRole::ConnectEnter => "connect_enter"@,
            EbpfProcessTracepointRole::ConnectExit => "connect_exit"@,
            EbpfProcessTracepointRole::AcceptEnter => "accept_enter"@,
            EbpfProcessTracepointRole::AcceptExit => "accept_exit"@,
            EbpfProcessTracepointRole::Accept4Enter => "accept4_enter"@,
            EbpfProcessTracepointRole::Accept4Exit => "accept4_exit"@,
            EbpfProcessTracepointRole::CloseEnter => "close_enter"@,
            EbpfProcessTracepointRole::CloseExit => "close_exit"@,
            EbpfProcessTracepointRole::CloseRangeEnter => "close_range_enter"@,
            EbpfProcessTracepointRole::CloseRangeExit => "close_range_exit"@,
            EbpfProcessTracepointRole::WriteEnter => "write_enter"@,
            EbpfProcessTracepointRole::WriteExit => "write_exit"@,
            EbpfProcessTracepointRole::WritevEnter => "writev_enter"@,
            EbpfProcessTracepointRole::WritevExit => "writev_exit"@,
            EbpfProcessTracepointRole::Sendfile64Enter => "sendfile64_enter"@,
            EbpfProcessTracepointRole::Sendfile64Exit => "sendfile64_exit"@,
            EbpfProcessTracepointRole::ReadEnter => "read_enter"@,
            EbpfProcessTracepointRole::ReadExit => "read_exit"@,
            EbpfProcessTracepointRole::ReadvEnter => "readv_enter"@,
            EbpfProcessTracepointRole::ReadvExit => "readv_exit"@,
            EbpfProcessTracepointRole::ProcessExit => "process_exit"@,
            EbpfProcessTracepointRole::ProcessExec => "process_exec"@,
        }
    }

    pub open spec fn tracepoint(self) -> Seq<char> {
        match self {
            EbpfProcessTracepointRole::ConnectEnter => "sys_enter_connect"@,
            EbpfProcessTracepointRole::ConnectExit => "sys_exit_connect"@,
            EbpfProcessTracepointRole::AcceptEnter => "sys_enter_accept"@,
            EbpfProcessTracepointRole::AcceptExit => "sys_exit_accept"@,
            EbpfProcessTracepointRole::Accept4Enter => "sys_enter_accept4"@,
            EbpfProcessTracepointRole::Accept4Exit => "sys_exit_accept4"@,
            EbpfProcessTracepointRole::CloseEnter => "sys_enter_close"@,
            EbpfProcessTracepointRole::CloseExit => "sys_exit_close"@,
            EbpfProcessTracepointRole::CloseRangeEnter => "sys_enter_close_range"@,
            EbpfProcessTracepointRole::CloseRangeExit => "sys_exit_close_range"@,
            EbpfProcessTracepointRole::WriteEnter => "sys_enter_write"@,
            EbpfProcessTracepointRole::WriteExit => "sys_exit_write"@,
            EbpfProcessTracepointRole::WritevEnter => "sys_enter_writev"@,
            EbpfProcessTracepointRole::WritevExit => "sys_exit_writev"@,
            EbpfProcessTracepointRole::Sendfile64Enter => "sys_enter_sendfile64"@,
            EbpfProcessTracepointRole::Sendfile64Exit => "sys_exit_sendfile64"@,
            EbpfProcessTracepointRole::ReadEnter => "sys_enter_read"@,
            EbpfProcessTracepointRole::ReadExit => "sys_exit_read"@,
            EbpfProcessTracepointRole::ReadvEnter => "sys_enter_readv"@,
            EbpfProcessTracepointRole::ReadvExit => "sys_exit_readv"@,
            EbpfProcessTracepointRole::ProcessExit => "sched_process_exit"@,
            EbpfProcessTracepointRole::ProcessExec => "sched_process_exec"@,
        }
    }

    pub open spec fn watches_process(self) -> bool {
        self == EbpfProcessTracepointRole::ProcessExit || self
            == EbpfProcessTracepointRole::ProcessExec
    }

    /// The probe of the role.
    pub open spec fn listed(self) -> TracepointSpecView {
        TracepointSpecView {
            role: self,
            program_name: self.program(),
            category: if self.watches_process() {
                "sched"@
            } else {
                "syscalls"@
            },
            tracepoint_name: self.tracepoint(),
        }
    }

    fn program_name(self) -> (name: &'static str)
        ensures
            name@ == self.program(),
    {
        match self {
            EbpfProcessTracepointRole::ConnectEnter => "connect_enter",
            EbpfProcessTracepointRole::ConnectExit => "connect_exit",
            EbpfProcessTracepointRole::AcceptEnter => "accept_enter",
            EbpfProcessTracepointRole::AcceptExit => "accept_exit",
            EbpfProcessTracepointRole::Accept4Enter => "accept4_enter",
            EbpfProcessTracepointRole::Accept4Exit => "accept4_exit",
            EbpfProcessTracepointRole::CloseEnter => "close_enter",
            EbpfProcessTracepointRole::CloseExit => "close_exit",
            EbpfProcessTracepointRole::CloseRangeEnter => "close_range_enter",
            EbpfProcessTracepointRole::CloseRangeExit => "close_range_exit",
            EbpfProcessTracepointRole::WriteEnter => "write_enter",
            EbpfProcessTracepointRole::WriteExit => "write_exit",
            EbpfProcessTracepointRole::WritevEnter => "writev_enter",
            EbpfProcessTracepointRole::WritevExit => "writev_exit",
            EbpfProcessTracepointRole::Sendfile64Enter => "sendfile64_enter",
            EbpfProcessTracepointRole::Sendfile64Exit => "sendfile64_exit",
            EbpfProcessTracepointRole::ReadEnter => "read_enter",
            EbpfProcessTracepointRole::ReadExit => "read_exit",
            EbpfProcessTracepointRole::ReadvEnter => "readv_enter",
            EbpfProcessTracepointRole::ReadvExit => "readv_exit",
            EbpfProcessTracepointRole::ProcessExit => "process_exit",
            EbpfProcessTracepointRole::ProcessExec => "process_exec",
        }
    }

    fn tracepoint_name(self) -> (name: &'static str)
        ensures
            name@ == self.tracepoint(),
    {
        match self {
            EbpfProcessTracepointRole::ConnectEnter => "sys_enter_connect",
            EbpfProcessTracepointRole::ConnectExit => "sys_exit_connect",
            EbpfProcessTracepointRole::AcceptEnter => "sys_enter_accept",
            EbpfProcessTracepointRole::AcceptExit => "sys_exit_accept",
            EbpfProcessTracepointRole::Accept4Enter => "sys_enter_accept4",
            EbpfProcessTracepointRole::Accept4Exit => "sys_exit_accept4",
            EbpfProcessTracepointRole::CloseEnter => "sys_enter_close",
            EbpfProcessTracepointRole::CloseExit => "sys_exit_close",
            EbpfProcessTracepointRole::CloseRangeEnter => "sys_enter_close_range",
            EbpfProcessTracepointRole::CloseRangeExit => "sys_exit_close_range",
            EbpfProcessTracepointRole::WriteEnter => "sys_enter_write",
            EbpfProcessTracepointRole::WriteExit => "sys_exit_write",
            EbpfProcessTracepointRole::WritevEnter => "sys_enter_writev",
            EbpfProcessTracepointRole::WritevExit => "sys_exit_writev",
            EbpfProcessTracepointRole::Sendfile64Enter => "sys_enter_sendfile64",
            EbpfProcessTracepointRole::Sendfile64Exit => "sys_exit_sendfile64",
            EbpfProcessTracepointRole::ReadEnter => "sys_enter_read",
            EbpfProcessTracepointRole::ReadExit => "sys_exit_read",
            EbpfProcessTracepointRole::ReadvEnter => "sys_enter_readv",
            EbpfProcessTracepointRole::ReadvExit => "sys_exit_readv",
            EbpfProcessTracepointRole::ProcessExit => "sched_process_exit",
            EbpfProcessTracepointRole::ProcessExec => "sched_process_exec",
        }
    }

    /// The probe of the role.
    pub fn spec_of(self) -> (listed: EbpfProcessTracepointSpec)
        ensures
            listed@ == self.listed(),
    {
        let category = match self {
            EbpfProcessTracepointRole::ProcessExit | EbpfProcessTracepointRole::ProcessExec =>
                "sched",
            _ => "syscalls",
        };
        EbpfProcessTracepointSpec {
            role: self,
            program_name: self.program_name(),
            category,
            tracepoint_name: self.tracepoint_name(),
        }
    }

    /// Whether the probe may stay unattached where the kernel lacks its tracepoint.
    pub fn has_optional_attach(self) -> (optional: bool)
        ensures
            optional == (self == EbpfProcessTracepointRole::Sendfile64Enter || self
                == EbpfProcessTracepointRole::Sendfile64Exit),
    {
        matches!(
            self,
            EbpfProcessTracepointRole::Sendfile64Enter | EbpfProcessTracepointRole::Sendfile64Exit
        )
    }
}

/// All roles, in the order in which the kernel counts their firings.
pub open spec fn all_roles() -> Seq<EbpfProcessTracepointRole> {
    seq![
        EbpfProcessTracepointRole::ConnectEnter,
        EbpfProcessTracepointRole::ConnectExit,
        EbpfProcessTracepointRole::AcceptEnter,
        EbpfProcessTracepointRole::AcceptExit,
        EbpfProcessTracepointRole::Accept4Enter,
        EbpfProcessTracepointRole::Accept4Exit,
        EbpfProcessTracepointRole::CloseEnter,
        EbpfProcessTracepointRole::CloseExit,
        EbpfProcessTracepointRole::CloseRangeEnter,
        EbpfProcessTracepointRole::CloseRangeExit,
        EbpfProcessTracepointRole::WriteEnter,
        EbpfProcessTracepointRole::WriteExit,
        EbpfProcessTracepointRole::WritevEnter,
        EbpfProcessTracepointRole::WritevExit,
        EbpfProcessTracepointRole::Sendfile64Enter,
        EbpfProcessTracepointRole::Sendfile64Exit,
        EbpfProcessTracepointRole::ReadEnter,
        EbpfProcessTracepointRole::ReadExit,
        EbpfProcessTracepointRole::ReadvEnter,
        EbpfProcessTracepointRole::ReadvExit,
        EbpfProcessTracepointRole::ProcessExit,
        EbpfProcessTracepointRole::ProcessExec,
    ]
}

/// The probes of all roles.
pub open spec fn all_specs() -> Seq<TracepointSpecView> {
    all_roles().map_values(|role: EbpfProcessTracepointRole| role.listed())
}

/// The probes of all roles.
pub fn process_tracepoint_specs() -> (specs: Vec<EbpfProcessTracepointSpec>)
    ensures
        spec_views(specs@) == all_specs(),
{
    let roles: Vec<EbpfProcessTracepointRole> = vec![
        EbpfProcessTracepointRole::ConnectEnter,
        EbpfProcessTracepointRole::ConnectExit,
        EbpfProcessTracepointRole::AcceptEnter,
        EbpfProcessTracepointRole::AcceptExit,
        EbpfProcessTracepointRole::Accept4Enter,
        EbpfProcessTracepointRole::Accept4Exit,
        EbpfProcessTracepointRole::CloseEnter,
        EbpfProcessTracepointRole::CloseExit,
        EbpfProcessTracepointRole::CloseRangeEnter,
        EbpfProcessTracepointRole::CloseRangeExit,
        EbpfProcessTracepointRole::WriteEnter,
        EbpfProcessTracepointRole::WriteExit,
        EbpfProcessTracepointRole::WritevEnter,
        EbpfProcessTracepointRole::WritevExit,
        EbpfProcessTracepointRole::Sendfile64Enter,
        EbpfProcessTracepointRole::Sendfile64Exit,
        EbpfProcessTracepointRole::ReadEnter,
        EbpfProcessTracepointRole::ReadExit,
        EbpfProcessTracepointRole::ReadvEnter,
        EbpfProcessTracepointRole::ReadvExit,
        EbpfProcessTracepointRole::ProcessExit,
        EbpfProcessTracepointRole::ProcessExec,
    ];
    assert(roles@ =~= all_roles());
    let mut specs: Vec<EbpfProcessTracepointSpec> = Vec::new();
    let mut index: usize = 0;
    assert(spec_views(specs@) =~= all_specs().take(0));
    while index < roles.len()
        invariant
            index <= roles.len(),
            roles@ == all_roles(),
            spec_views(specs@) == all_specs().take(index as int),
        decreases roles.len() - index,
    {
        let ghost before = specs@;
        let listed = roles[index].spec_of();
        specs.push(listed);
        proof {
            assert(all_specs()[index as int] == listed@);
            assert(spec_views(specs@) =~= spec_views(before).push(listed@));
            assert(all_specs().take(index + 1) =~= all_specs().take(index as int).push(listed@));
        }
        index = index + 1;
    }
    assert(all_specs().take(index as int) =~= all_specs());
    specs
}

/// Two probes that are attached together or not at all.
#[derive(Debug, Clone, Copy, PartialEq, Eq)]
pub struct EbpfProcessOptionalTracepointPairSpec {
    pub family_name: &'static str,
    pub enter: EbpfProcessTracepointSpec,
    pub exit: EbpfProcessTracepointSpec,
}

impl EbpfProcessOptionalTracepointPairSpec {
    pub fn family_name(&self) -> (name: &'static str)
        ensures
            name == self.family_name,
    {
        self.family_name
    }

    pub fn enter_spec(&self) -> (listed: &EbpfProcessTracepointSpec)
        ensures
            *listed == self.enter,
    {
        &self.enter
    }

    pub fn exit_spec(&self) -> (listed: &EbpfProcessTracepointSpec)
        ensures
            *listed == self.exit,
    {
        &self.exit
    }
}

/// The pairs of probes that older kernels lack the tracepoints of.
pub fn process_optional_tracepoint_pair_specs() -> (pairs: Vec<
    EbpfProcessOptionalTracepointPairSpec,
>)
    ensures
        pairs@.len() == 1,
        pairs@[0].family_name@ == "sendfile"@,
        pairs@[0].enter@ == EbpfProcessTracepointRole::Sendfile64Enter.listed(),
        pairs@[0].exit@ == EbpfProcessTracepointRole::Sendfile64Exit.listed(),
{
    let mut pairs: Vec<EbpfProcessOptionalTracepointPairSpec> = Vec::new();
    pairs.push(
        EbpfProcessOptionalTracepointPairSpec {
            family_name: "sendfile",
            enter: EbpfProcessTracepointRole::Sendfile64Enter.spec_of(),
            exit: EbpfProcessTracepointRole::Sendfile64Exit.spec_of(),
        },
    );
    pairs
}

/// Whether a pair of probes is attached, or why not.
#[derive(Debug, Clone, Copy, PartialEq, Eq, Structural)]
pub enum EbpfProcessObservationOptionalTracepointPairState {
    Attached,
    KernelMissing,
}

/// A pair of which the kernel has one tracepoint alone.
#[derive(Debug, Clone, Copy, PartialEq, Eq)]
pub struct IncompleteOptionalTracepointPair {
    pub present: EbpfProcessTracepointSpec,
    pub missing: EbpfProcessTracepointSpec,
}

/// What is to be done with an optional pair, by which of its tracepoints the kernel has: both are
/// attached, none is, and one alone is an error.
pub fn optional_tracepoint_pair_state(
    pair: &EbpfProcessOptionalTracepointPairSpec,
    enter_exists: bool,
    exit_exists: bool,
) -> (state: Result<
    EbpfProcessObservationOptionalTracepointPairState,
    IncompleteOptionalTracepointPair,
>)
    ensures
        state == (match (enter_exists, exit_exists) {
            (true, true) => Ok::<
                EbpfProcessObservationOptionalTracepointPairState,
                IncompleteOptionalTracepointPair,
            >(EbpfProcessObservationOptionalTracepointPairState::Attached),
            (false, false) => Ok(EbpfProcessObservationOptionalTracepointPairState::KernelMissing),
            (true, false) => Err(
                IncompleteOptionalTracepointPair { present: pair.enter, missing: pair.exit },
            ),
            (false, true) => Err(
                IncompleteOptionalTracepointPair { present: pair.exit, missing: pair.enter },
            ),
        }),
{
    match (enter_exists, exit_exists) {
        (true, true) => Ok(EbpfProcessObservationOptionalTracepointPairState::Attached),
        (false, false) => Ok(EbpfProcessObservationOptionalTracepointPairState::KernelMissing),
        (true, false) => Err(
            IncompleteOptionalTracepointPair { present: *pair.enter_spec(), missing: *pair.exit_spec() },
        ),
        (false, true) => Err(
            IncompleteOptionalTracepointPair { present: *pair.exit_spec(), missing: *pair.enter_spec() },
        ),
    }
}

} // verus!
