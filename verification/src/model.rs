//! The values that capture events are made of, each with its mathematical view.
use vstd::prelude::*;
use vstd::string::StringExecFns;

use crate::address::{AddressPort, AddressPortView};
use crate::text::{decimal, decimal_digits, joined, lemma_decimal_injective, texts};

verus! {

/// The way a byte travels, seen from the local end of a flow.
#[derive(Debug, Clone, Copy, PartialEq, Eq, Structural)]
pub enum Direction {
    Inbound,
    Outbound,
}

impl Direction {
    /// The other direction.
    pub open spec fn opposite_of(self) -> Direction {
        match self {
            Direction::Inbound => Direction::Outbound,
            Direction::Outbound => Direction::Inbound,
        }
    }

    pub fn opposite(self) -> (other: Direction)
        ensures
            other == self.opposite_of(),
    {
        match self {
            Direction::Inbound => Direction::Outbound,
            Direction::Outbound => Direction::Inbound,
        }
    }

    /// The rank by which streams of one flow are ordered: inbound comes first.
    pub open spec fn rank(self) -> int {
        match self {
            Direction::Inbound => 0,
            Direction::Outbound => 1,
        }
    }
}

/// When something was observed: a local sequence clock and the wall clock.
#[derive(Debug, Clone, Copy, PartialEq, Eq, Structural)]
pub struct Timestamp {
    pub monotonic_ns: u64,
    pub wall_time_unix_ns: i64,
}

#[derive(Debug, Clone, Copy, PartialEq, Eq, Structural)]
pub enum TransportProtocol {
    Tcp,
}

/// A copy of an optional text.
pub fn copy_optional_text(text: &Option<String>) -> (copy: Option<String>)
    ensures
        copy == *text,
{
    match text {
        Some(inner) => Some(inner.clone()),
        None => None,
    }
}

/// The view of an optional text.
pub open spec fn optional_text(text: Option<String>) -> Option<Seq<char>> {
    match text {
        Some(inner) => Some(inner@),
        None => None,
    }
}

/// A copy of a list of texts.
pub fn copy_texts(list: &Vec<String>) -> (copy: Vec<String>)
    ensures
        copy@ == list@,
{
    let mut copy: Vec<String> = Vec::new();
    let mut index: usize = 0;
    while index < list.len()
        invariant
            index <= list.len(),
            copy@ == list@.take(index as int),
        decreases list.len() - index,
    {
        copy.push(list[index].clone());
        assert(copy@ =~= list@.take(index + 1));
        index = index + 1;
    }
    assert(list@.take(list.len() as int) =~= list@);
    copy
}

/// What identifies a process across restarts and reuse of its number.
#[derive(Debug, PartialEq, Eq)]
pub struct ProcessIdentity {
    pub pid: u32,
    pub tgid: u32,
    pub start_time_ticks: u64,
    pub boot_id: String,
    pub exe_path: String,
    pub cmdline_hash: String,
    pub uid: u32,
    pub gid: u32,
    pub cgroup: Option<String>,
    pub systemd_service: Option<String>,
    pub container_id: Option<String>,
    pub runtime_hint: Option<String>,
}

#[verifier::ext_equal]
pub struct ProcessIdentityView {
    pub pid: u32,
    pub tgid: u32,
    pub start_time_ticks: u64,
    pub boot_id: Seq<char>,
    pub exe_path: Seq<char>,
    pub cmdline_hash: Seq<char>,
    pub uid: u32,
    pub gid: u32,
    pub cgroup: Option<Seq<char>>,
    pub systemd_service: Option<Seq<char>>,
    pub container_id: Option<Seq<char>>,
    pub runtime_hint: Option<Seq<char>>,
}

impl View for ProcessIdentity {
    type V = ProcessIdentityView;

    open spec fn view(&self) -> ProcessIdentityView {
        ProcessIdentityView {
            pid: self.pid,
            tgid: self.tgid,
            start_time_ticks: self.start_time_ticks,
            boot_id: self.boot_id@,
            exe_path: self.exe_path@,
            cmdline_hash: self.cmdline_hash@,
            uid: self.uid,
            gid: self.gid,
            cgroup: optional_text(self.cgroup),
            systemd_service: optional_text(self.systemd_service),
            container_id: optional_text(self.container_id),
            runtime_hint: optional_text(self.runtime_hint),
        }
    }
}

impl Clone for ProcessIdentity {
    fn clone(&self) -> (copy: Self)
        ensures
            copy@ == self@,
    {
        ProcessIdentity {
            pid: self.pid,
            tgid: self.tgid,
            start_time_ticks: self.start_time_ticks,
            boot_id: self.boot_id.clone(),
            exe_path: self.exe_path.clone(),
            cmdline_hash: self.cmdline_hash.clone(),
            uid: self.uid,
            gid: self.gid,
            cgroup: copy_optional_text(&self.cgroup),
            systemd_service: copy_optional_text(&self.systemd_service),
            container_id: copy_optional_text(&self.container_id),
            runtime_hint: copy_optional_text(&self.runtime_hint),
        }
    }
}

/// A process as it is reported with a flow.
#[derive(Debug, PartialEq, Eq)]
pub struct ProcessContext {
    pub identity: ProcessIdentity,
    pub name: String,
    pub cmdline: Vec<String>,
}

#[verifier::ext_equal]
pub struct ProcessContextView {
    pub identity: ProcessIdentityView,
    pub name: Seq<char>,
    pub cmdline: Seq<Seq<char>>,
}

impl View for ProcessContext {
    type V = ProcessContextView;

    open spec fn view(&self) -> ProcessContextView {
        ProcessContextView {
            identity: self.identity@,
            name: self.name@,
            cmdline: texts(self.cmdline@),
        }
    }
}

impl Clone for ProcessContext {
    fn clone(&self) -> (copy: Self)
        ensures
            copy@ == self@,
    {
        ProcessContext {
            identity: self.identity.clone(),
            name: self.name.clone(),
            cmdline: copy_texts(&self.cmdline),
        }
    }
}

/// The name of a flow, the same wherever the flow is reported.
#[derive(Debug, PartialEq, Eq)]
pub struct FlowIdentity(pub String);

impl View for FlowIdentity {
    type V = Seq<char>;

    open spec fn view(&self) -> Seq<char> {
        self.0@
    }
}

impl Clone for FlowIdentity {
    fn clone(&self) -> (copy: Self)
        ensures
            copy@ == self@,
    {
        FlowIdentity(self.0.clone())
    }
}

/// The text of an optional socket cookie inside a flow identity.
pub open spec fn cookie_text(cookie: Option<u64>) -> Seq<char> {
    match cookie {
        Some(value) => decimal_digits(value as nat),
        None => "-"@,
    }
}

/// The part of a flow identity that comes before the start of the flow.
pub open spec fn flow_identity_prefix(
    process: ProcessIdentityView,
    local: AddressPortView,
    remote: AddressPortView,
) -> Seq<char> {
    process.boot_id + "/"@ + decimal_digits(process.pid as nat) + "."@ + decimal_digits(
        process.start_time_ticks as nat,
    ) + "/tcp/"@ + local.address + ":"@ + decimal_digits(local.port as nat) + "-"@ + remote.address
        + ":"@ + decimal_digits(remote.port as nat) + "/"@
}

/// The identity of a TCP flow: its process, its two ends, its start and its socket cookie.
pub open spec fn flow_identity_text(
    process: ProcessIdentityView,
    local: AddressPortView,
    remote: AddressPortView,
    start_monotonic_ns: u64,
    socket_cookie: Option<u64>,
) -> Seq<char> {
    flow_identity_prefix(process, local, remote) + decimal_digits(start_monotonic_ns as nat)
        + "/"@ + cookie_text(socket_cookie)
}

impl FlowIdentity {
    /// The identity that a flow keeps for its lifetime.
    pub fn stable(
        process: &ProcessIdentity,
        local: &AddressPort,
        remote: &AddressPort,
        protocol: TransportProtocol,
        start_monotonic_ns: u64,
        socket_cookie: Option<u64>,
    ) -> (identity: FlowIdentity)
        ensures
            identity@ == flow_identity_text(
                process@,
                local@,
                remote@,
                start_monotonic_ns,
                socket_cookie,
            ),
    {
        let transport = match protocol {
            TransportProtocol::Tcp => "/tcp/",
        };
        let mut text = joined(process.boot_id.as_str(), "/");
        text.append(decimal(process.pid as u64).as_str());
        text.append(".");
        text.append(decimal(process.start_time_ticks).as_str());
        text.append(transport);
        text.append(local.address.as_str());
        text.append(":");
        text.append(decimal(local.port as u64).as_str());
        text.append("-");
        text.append(remote.address.as_str());
        text.append(":");
        text.append(decimal(remote.port as u64).as_str());
        text.append("/");
        text.append(decimal(start_monotonic_ns).as_str());
        text.append("/");
        match socket_cookie {
            Some(cookie) => text.append(decimal(cookie).as_str()),
            None => text.append("-"),
        }
        FlowIdentity(text)
    }

    /// Whether two identities name the same flow.
    pub fn same(&self, other: &FlowIdentity) -> (equal: bool)
        ensures
            equal == (self@ == other@),
    {
        self.0 == other.0
    }
}

/// A connection that starts anew between the same two ends of the same process is another flow:
/// two identities that agree in everything but the start of the flow differ.
pub proof fn law_restarted_flow_has_new_identity(
    process: ProcessIdentityView,
    local: AddressPortView,
    remote: AddressPortView,
    first_start: u64,
    second_start: u64,
    socket_cookie: Option<u64>,
)
    requires
        first_start != second_start,
    ensures
        flow_identity_text(process, local, remote, first_start, socket_cookie)
            != flow_identity_text(process, local, remote, second_start, socket_cookie),
{
    let prefix = flow_identity_prefix(process, local, remote);
    let suffix = "/"@ + cookie_text(socket_cookie);
    let first_digits = decimal_digits(first_start as nat);
    let second_digits = decimal_digits(second_start as nat);
    let first = flow_identity_text(process, local, remote, first_start, socket_cookie);
    let second = flow_identity_text(process, local, remote, second_start, socket_cookie);
    if first == second {
        assert(first =~= prefix + first_digits + suffix);
        assert(second =~= prefix + second_digits + suffix);
        assert(first_digits.len() == second_digits.len());
        let start = prefix.len() as int;
        let end = start + first_digits.len();
        assert((prefix + first_digits + suffix).subrange(start, end) =~= first_digits);
        assert((prefix + second_digits + suffix).subrange(start, end) =~= second_digits);
        lemma_decimal_injective(first_start as nat, second_start as nat);
    }
}

/// A flow with the process that owns its local end.
#[derive(Debug, PartialEq, Eq)]
pub struct FlowContext {
    pub id: FlowIdentity,
    pub process: ProcessContext,
    pub local: AddressPort,
    pub remote: AddressPort,
    pub protocol: TransportProtocol,
    pub start_monotonic_ns: u64,
    pub socket_cookie: Option<u64>,
    pub attribution_confidence: u8,
}

#[verifier::ext_equal]
pub struct FlowContextView {
    pub id: Seq<char>,
    pub process: ProcessContextView,
    pub local: AddressPortView,
    pub remote: AddressPortView,
    pub protocol: TransportProtocol,
    pub start_monotonic_ns: u64,
    pub socket_cookie: Option<u64>,
    pub attribution_confidence: u8,
}

impl View for FlowContext {
    type V = FlowContextView;

    open spec fn view(&self) -> FlowContextView {
        FlowContextView {
            id: self.id@,
            process: self.process@,
            local: self.local@,
            remote: self.remote@,
            protocol: self.protocol,
            start_monotonic_ns: self.start_monotonic_ns,
            socket_cookie: self.socket_cookie,
            attribution_confidence: self.attribution_confidence,
        }
    }
}

impl Clone for FlowContext {
    fn clone(&self) -> (copy: Self)
        ensures
            copy@ == self@,
    {
        FlowContext {
            id: self.id.clone(),
            process: self.process.clone(),
            local: self.local.clone(),
            remote: self.remote.clone(),
            protocol: self.protocol,
            start_monotonic_ns: self.start_monotonic_ns,
            socket_cookie: self.socket_cookie,
            attribution_confidence: self.attribution_confidence,
        }
    }
}

/// The TCP flow of `process` between `local` and `remote`.
pub open spec fn tcp_flow(
    process: ProcessContextView,
    local: AddressPortView,
    remote: AddressPortView,
    start_monotonic_ns: u64,
    socket_cookie: Option<u64>,
    attribution_confidence: u8,
) -> FlowContextView {
    FlowContextView {
        id: flow_identity_text(process.identity, local, remote, start_monotonic_ns, socket_cookie),
        process,
        local,
        remote,
        protocol: TransportProtocol::Tcp,
        start_monotonic_ns,
        socket_cookie,
        attribution_confidence,
    }
}

impl FlowContext {
    /// The TCP flow of `process` between `local` and `remote`.
    pub fn tcp(
        process: ProcessContext,
        local: AddressPort,
        remote: AddressPort,
        start_monotonic_ns: u64,
        socket_cookie: Option<u64>,
        attribution_confidence: u8,
    ) -> (flow: FlowContext)
        ensures
            flow@ == tcp_flow(
                process@,
                local@,
                remote@,
                start_monotonic_ns,
                socket_cookie,
                attribution_confidence,
            ),
    {
        let id = FlowIdentity::stable(
            &process.identity,
            &local,
            &remote,
            TransportProtocol::Tcp,
            start_monotonic_ns,
            socket_cookie,
        );
        FlowContext {
            id,
            process,
            local,
            remote,
            protocol: TransportProtocol::Tcp,
            start_monotonic_ns,
            socket_cookie,
            attribution_confidence,
        }
    }
}

/// Bytes of one direction of a flow that were not captured.
#[derive(Debug, PartialEq, Eq)]
pub struct Gap {
    pub direction: Direction,
    pub expected_offset: u64,
    pub next_offset: Option<u64>,
    pub reason: String,
}

#[verifier::ext_equal]
pub struct GapView {
    pub direction: Direction,
    pub expected_offset: u64,
    pub next_offset: Option<u64>,
    pub reason: Seq<char>,
}

impl View for Gap {
    type V = GapView;

    open spec fn view(&self) -> GapView {
        GapView {
            direction: self.direction,
            expected_offset: self.expected_offset,
            next_offset: self.next_offset,
            reason: self.reason@,
        }
    }
}

/// Events that a provider lost before it could attribute them.
#[derive(Debug, PartialEq, Eq)]
pub struct CaptureLoss {
    pub lost_events: u64,
    pub reason: String,
}

#[verifier::ext_equal]
pub struct CaptureLossView {
    pub lost_events: u64,
    pub reason: Seq<char>,
}

impl View for CaptureLoss {
    type V = CaptureLossView;

    open spec fn view(&self) -> CaptureLossView {
        CaptureLossView { lost_events: self.lost_events, reason: self.reason@ }
    }
}

/// Where captured data comes from.
#[derive(Debug, Clone, Copy, PartialEq, Eq, Structural)]
pub enum CaptureSource {
    EbpfSyscall,
    Libpcap,
    Replay,
}

/// Which provider delivered an event.
#[derive(Debug, Clone, Copy, PartialEq, Eq, Structural)]
pub enum CaptureProviderKind {
    Ebpf,
    Libpcap,
    Replay,
}

/// The source of an event together with the provider that delivers from it.
#[derive(Debug, Clone, Copy, PartialEq, Eq, Structural)]
pub struct CaptureOrigin {
    pub capture_source: CaptureSource,
}

impl CaptureOrigin {
    pub open spec fn provider_of(self) -> CaptureProviderKind {
        match self.capture_source {
            CaptureSource::EbpfSyscall => CaptureProviderKind::Ebpf,
            CaptureSource::Libpcap => CaptureProviderKind::Libpcap,
            CaptureSource::Replay => CaptureProviderKind::Replay,
        }
    }

    pub fn from_source(source: CaptureSource) -> (origin: CaptureOrigin)
        ensures
            origin == (CaptureOrigin { capture_source: source }),
    {
        CaptureOrigin { capture_source: source }
    }

    pub fn source(&self) -> (source: CaptureSource)
        ensures
            source == self.capture_source,
    {
        self.capture_source
    }

    pub fn provider(&self) -> (provider: CaptureProviderKind)
        ensures
            provider == self.provider_of(),
    {
        match self.capture_source {
            CaptureSource::EbpfSyscall => CaptureProviderKind::Ebpf,
            CaptureSource::Libpcap => CaptureProviderKind::Libpcap,
            CaptureSource::Replay => CaptureProviderKind::Replay,
        }
    }
}

/// The origin of everything that the eBPF provider reports.
pub open spec fn ebpf_origin() -> CaptureOrigin {
    CaptureOrigin { capture_source: CaptureSource::EbpfSyscall }
}

/// The origin of everything that the libpcap provider reports.
pub open spec fn libpcap_origin() -> CaptureOrigin {
    CaptureOrigin { capture_source: CaptureSource::Libpcap }
}

/// Why an event may be observed but must not lead to enforcement.
#[derive(Debug, Clone, Copy, PartialEq, Eq, Structural)]
pub enum ObservationOnlyReason {
    EbpfCaptureLoss,
    EbpfProcessLifecycleBoundary,
    EbpfSyscallArgumentSnapshot,
    EbpfSyscallPayloadSnapshot,
    EbpfUnresolvedFlow,
    ProviderStateBoundary,
}

impl ObservationOnlyReason {
    pub open spec fn text(self) -> Seq<char> {
        match self {
            ObservationOnlyReason::EbpfCaptureLoss => "eBPF capture loss"@,
            ObservationOnlyReason::EbpfProcessLifecycleBoundary => "eBPF process lifecycle boundary"@,
            ObservationOnlyReason::EbpfSyscallArgumentSnapshot => "eBPF syscall argument snapshot"@,
            ObservationOnlyReason::EbpfSyscallPayloadSnapshot => "eBPF syscall payload snapshot"@,
            ObservationOnlyReason::EbpfUnresolvedFlow => "eBPF unresolved flow"@,
            ObservationOnlyReason::ProviderStateBoundary => "provider state boundary"@,
        }
    }

    pub fn description(self) -> (text: &'static str)
        ensures
            text@ == self.text(),
    {
        match self {
            ObservationOnlyReason::EbpfCaptureLoss => "eBPF capture loss",
            ObservationOnlyReason::EbpfProcessLifecycleBoundary => "eBPF process lifecycle boundary",
            ObservationOnlyReason::EbpfSyscallArgumentSnapshot => "eBPF syscall argument snapshot",
            ObservationOnlyReason::EbpfSyscallPayloadSnapshot => "eBPF syscall payload snapshot",
            ObservationOnlyReason::EbpfUnresolvedFlow => "eBPF unresolved flow",
            ObservationOnlyReason::ProviderStateBoundary => "provider state boundary",
        }
    }
}

/// How far an event may serve as evidence for enforcement.
#[derive(Debug, PartialEq, Eq)]
pub enum EnforcementEvidence {
    Unrestricted,
    ObservationOnly { reason: ObservationOnlyReason, detail: Option<String> },
}

#[verifier::ext_equal]
pub enum EnforcementEvidenceView {
    Unrestricted,
    ObservationOnly { reason: ObservationOnlyReason, detail: Option<Seq<char>> },
}

impl View for EnforcementEvidence {
    type V = EnforcementEvidenceView;

    open spec fn view(&self) -> EnforcementEvidenceView {
        match *self {
            EnforcementEvidence::Unrestricted => EnforcementEvidenceView::Unrestricted,
            EnforcementEvidence::ObservationOnly { reason, detail } =>
                EnforcementEvidenceView::ObservationOnly { reason, detail: optional_text(detail) },
        }
    }
}

impl Default for EnforcementEvidence {
    fn default() -> (evidence: Self)
        ensures
            evidence@ == EnforcementEvidenceView::Unrestricted,
    {
        EnforcementEvidence::Unrestricted
    }
}

/// Evidence that is limited to observation, with the circumstances in words.
pub open spec fn observation_only(
    reason: ObservationOnlyReason,
    detail: Seq<char>,
) -> EnforcementEvidenceView {
    EnforcementEvidenceView::ObservationOnly { reason, detail: Some(detail) }
}

impl EnforcementEvidence {
    pub fn observation_only_with_detail(
        reason: ObservationOnlyReason,
        detail: String,
    ) -> (evidence: EnforcementEvidence)
        ensures
            evidence@ == observation_only(reason, detail@),
    {
        EnforcementEvidence::ObservationOnly { reason, detail: Some(detail) }
    }

    /// Why destructive enforcement must not rest on this evidence, if it must not.
    pub fn destructive_enforcement_rejection_reason(&self) -> (reason: Option<String>)
        ensures
            match self@ {
                EnforcementEvidenceView::Unrestricted => reason is None,
                EnforcementEvidenceView::ObservationOnly { reason: why, .. } => reason is Some
                    && reason->0@ == why.text(),
            },
    {
        match self {
            EnforcementEvidence::Unrestricted => None,
            EnforcementEvidence::ObservationOnly { reason, .. } => Some(
                reason.description().to_owned(),
            ),
        }
    }
}

} // verus!
