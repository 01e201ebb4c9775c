//! From observations of sockets to flows: what is asked of a resolver, and what its replies make.
use vstd::prelude::*;
use vstd::string::StringExecFns;

use crate::address::{
    address_port, AddressPort, IpAddress, TcpConnection, TcpEndpoint,
};
use crate::event::{
    build_observed_gap_event, observed_gap_event, CaptureEvent, CaptureEventView,
    EnforcementEvidencePropagation,
};
use crate::model::{
    ebpf_origin, tcp_flow, CaptureOrigin, CaptureSource, Direction, FlowContext, FlowContextView,
    Gap, GapView, ObservationOnlyReason, ProcessContext, ProcessContextView, ProcessIdentity,
    ProcessIdentityView, Timestamp,
};
use crate::output_loss::{loss_event, provider_output_loss_event};
use crate::provider::CaptureError;
use crate::text::{decimal_digits, push_labelled};

use super::types::{
    lossy_text, EbpfAcceptTracepointObservation, EbpfConnectTracepointObservation,
    EbpfObservedProcess,
};

verus! {

/// What the kernel tells of a process, to find it by where its number does not help.
#[derive(Debug, PartialEq, Eq)]
pub struct EbpfProcessHint {
    pub name: String,
    pub uid: u32,
    pub gid: u32,
}

#[verifier::ext_equal]
pub struct EbpfProcessHintView {
    pub name: Seq<char>,
    pub uid: u32,
    pub gid: u32,
}

impl View for EbpfProcessHint {
    type V = EbpfProcessHintView;

    open spec fn view(&self) -> EbpfProcessHintView {
        EbpfProcessHintView { name: self.name@, uid: self.uid, gid: self.gid }
    }
}

/// The view of an optional hint.
pub open spec fn hint_view(hint: Option<EbpfProcessHint>) -> Option<EbpfProcessHintView> {
    match hint {
        Some(inner) => Some(inner@),
        None => None,
    }
}

/// Asks for the connection behind a descriptor.
#[derive(Debug, PartialEq, Eq)]
pub struct EbpfSocketFlowLookup {
    pub tgid: u32,
    pub thread_pid: u32,
    pub fd: i32,
    pub expected_remote_endpoint: Option<TcpEndpoint>,
    pub process_hint: Option<EbpfProcessHint>,
}

#[verifier::ext_equal]
pub struct EbpfSocketFlowLookupView {
    pub tgid: u32,
    pub thread_pid: u32,
    pub fd: i32,
    pub expected_remote_endpoint: Option<TcpEndpoint>,
    pub process_hint: Option<EbpfProcessHintView>,
}

impl View for EbpfSocketFlowLookup {
    type V = EbpfSocketFlowLookupView;

    open spec fn view(&self) -> EbpfSocketFlowLookupView {
        EbpfSocketFlowLookupView {
            tgid: self.tgid,
            thread_pid: self.thread_pid,
            fd: self.fd,
            expected_remote_endpoint: self.expected_remote_endpoint,
            process_hint: hint_view(self.process_hint),
        }
    }
}

/// Asks for the listening socket behind a descriptor.
#[derive(Debug, PartialEq, Eq)]
pub struct EbpfListenSocketLookup {
    pub tgid: u32,
    pub thread_pid: u32,
    pub fd: i32,
    pub process_hint: Option<EbpfProcessHint>,
}

#[verifier::ext_equal]
pub struct EbpfListenSocketLookupView {
    pub tgid: u32,
    pub thread_pid: u32,
    pub fd: i32,
    pub process_hint: Option<EbpfProcessHintView>,
}

impl View for EbpfListenSocketLookup {
    type V = EbpfListenSocketLookupView;

    open spec fn view(&self) -> EbpfListenSocketLookupView {
        EbpfListenSocketLookupView {
            tgid: self.tgid,
            thread_pid: self.thread_pid,
            fd: self.fd,
            process_hint: hint_view(self.process_hint),
        }
    }
}

/// The connection behind a descriptor, with the process that owns it.
#[derive(Debug, PartialEq, Eq)]
pub struct EbpfResolvedSocketFlow {
    pub process: ProcessContext,
    pub confidence: u8,
    pub connection: TcpConnection,
    pub socket_cookie: Option<u64>,
}

#[verifier::ext_equal]
pub struct EbpfResolvedSocketFlowView {
    pub process: ProcessContextView,
    pub confidence: u8,
    pub connection: TcpConnection,
    pub socket_cookie: Option<u64>,
}

impl View for EbpfResolvedSocketFlow {
    type V = EbpfResolvedSocketFlowView;

    open spec fn view(&self) -> EbpfResolvedSocketFlowView {
        EbpfResolvedSocketFlowView {
            process: self.process@,
            confidence: self.confidence,
            connection: self.connection,
            socket_cookie: self.socket_cookie,
        }
    }
}

impl Clone for EbpfResolvedSocketFlow {
    fn clone(&self) -> (copy: Self)
        ensures
            copy@ == self@,
    {
        EbpfResolvedSocketFlow {
            process: self.process.clone(),
            confidence: self.confidence,
            connection: self.connection,
            socket_cookie: self.socket_cookie,
        }
    }
}

/// The listening socket behind a descriptor, with the process that owns it.
#[derive(Debug, PartialEq, Eq)]
pub struct EbpfResolvedListenSocket {
    pub process: ProcessContext,
    pub confidence: u8,
    pub local: TcpEndpoint,
}

#[verifier::ext_equal]
pub struct EbpfResolvedListenSocketView {
    pub process: ProcessContextView,
    pub confidence: u8,
    pub local: TcpEndpoint,
}

impl View for EbpfResolvedListenSocket {
    type V = EbpfResolvedListenSocketView;

    open spec fn view(&self) -> EbpfResolvedListenSocketView {
        EbpfResolvedListenSocketView {
            process: self.process@,
            confidence: self.confidence,
            local: self.local,
        }
    }
}

impl Clone for EbpfResolvedListenSocket {
    fn clone(&self) -> (copy: Self)
        ensures
            copy@ == self@,
    {
        EbpfResolvedListenSocket {
            process: self.process.clone(),
            confidence: self.confidence,
            local: self.local,
        }
    }
}

/// Finds the connections and processes behind what the kernel observed.
pub trait EbpfSocketFlowResolver {
    fn resolve_socket_flow(&mut self, lookup: EbpfSocketFlowLookup) -> Result<
        Option<EbpfResolvedSocketFlow>,
        CaptureError,
    >;

    fn resolve_process(&mut self, _tgid: u32) -> Result<Option<ProcessContext>, CaptureError> {
        Ok(None)
    }

    fn resolve_processes_by_hint(&mut self, _hint: EbpfProcessHint) -> Result<
        Vec<ProcessContext>,
        CaptureError,
    > {
        Ok(Vec::new())
    }

    fn resolve_processes(&mut self) -> Result<Vec<ProcessContext>, CaptureError> {
        Ok(Vec::new())
    }

    fn resolve_listen_socket(&mut self, _lookup: EbpfListenSocketLookup) -> Result<
        Option<EbpfResolvedListenSocket>,
        CaptureError,
    > {
        Ok(None)
    }

    fn invalidate_cached_resolution(&mut self) {
    }
}

impl EbpfSocketFlowResolver for Box<dyn EbpfSocketFlowResolver> {
    fn resolve_socket_flow(&mut self, lookup: EbpfSocketFlowLookup) -> Result<
        Option<EbpfResolvedSocketFlow>,
        CaptureError,
    > {
        (**self).resolve_socket_flow(lookup)
    }

    fn resolve_process(&mut self, tgid: u32) -> Result<Option<ProcessContext>, CaptureError> {
        (**self).resolve_process(tgid)
    }

    fn resolve_processes_by_hint(&mut self, hint: EbpfProcessHint) -> Result<
        Vec<ProcessContext>,
        CaptureError,
    > {
        (**self).resolve_processes_by_hint(hint)
    }

    fn resolve_processes(&mut self) -> Result<Vec<ProcessContext>, CaptureError> {
        (**self).resolve_processes()
    }

    fn resolve_listen_socket(&mut self, lookup: EbpfListenSocketLookup) -> Result<
        Option<EbpfResolvedListenSocket>,
        CaptureError,
    > {
        (**self).resolve_listen_socket(lookup)
    }

    fn invalidate_cached_resolution(&mut self) {
        (**self).invalidate_cached_resolution()
    }
}

/// What can be told of a process by what the kernel observed of it alone.
pub open spec fn observed_context(process: EbpfObservedProcess) -> ProcessContextView {
    let name = if process.command_octets().len() == 0 {
        "unknown"@
    } else {
        lossy_text(process.command_octets())
    };
    ProcessContextView {
        identity: ProcessIdentityView {
            pid: process.tgid,
            tgid: process.tgid,
            start_time_ticks: 0,
            boot_id: Seq::empty(),
            exe_path: Seq::empty(),
            cmdline_hash: Seq::empty(),
            uid: process.uid,
            gid: process.gid,
            cgroup: None,
            systemd_service: None,
            container_id: None,
            runtime_hint: None,
        },
        name,
        cmdline: seq![name],
    }
}

/// The hint that an observed process gives: none where it has no command name.
pub open spec fn observed_hint(process: EbpfObservedProcess) -> Option<EbpfProcessHintView> {
    if process.command_octets().len() == 0 {
        None
    } else {
        Some(
            EbpfProcessHintView {
                name: lossy_text(process.command_octets()),
                uid: process.uid,
                gid: process.gid,
            },
        )
    }
}

/// Whether a process is one that a hint tells of.
pub open spec fn fits_hint(process: ProcessContextView, hint: EbpfProcessHintView) -> bool {
    process.name == hint.name && process.identity.uid == hint.uid && process.identity.gid
        == hint.gid
}

pub fn process_context_from_observed(process: &EbpfObservedProcess) -> (context: ProcessContext)
    ensures
        context@ == observed_context(*process),
{
    let lossy = process.command_lossy();
    let name = if lossy.as_str().is_empty() {
        "unknown".to_owned()
    } else {
        lossy
    };
    let mut cmdline: Vec<String> = Vec::new();
    cmdline.push(name.clone());
    let context = ProcessContext {
        identity: ProcessIdentity {
            pid: process.tgid,
            tgid: process.tgid,
            start_time_ticks: 0,
            boot_id: String::new(),
            exe_path: String::new(),
            cmdline_hash: String::new(),
            uid: process.uid,
            gid: process.gid,
            cgroup: None,
            systemd_service: None,
            container_id: None,
            runtime_hint: None,
        },
        name,
        cmdline,
    };
    assert(context@.cmdline =~= seq![context@.name]);
    assert(context@ =~= observed_context(*process));
    context
}

pub fn process_hint_from_observed(process: &EbpfObservedProcess) -> (hint: Option<EbpfProcessHint>)
    ensures
        hint_view(hint) == observed_hint(*process),
{
    let name = process.command_lossy();
    if name.as_str().is_empty() {
        None
    } else {
        Some(EbpfProcessHint { name, uid: process.uid, gid: process.gid })
    }
}

pub fn process_matches_hint(process: &ProcessContext, hint: &EbpfProcessHint) -> (fits: bool)
    ensures
        fits == fits_hint(process@, hint@),
{
    process.name == hint.name && process.identity.uid == hint.uid && process.identity.gid
        == hint.gid
}

/// What is asked about the descriptor of an observed process.
pub open spec fn flow_lookup(
    process: EbpfObservedProcess,
    fd: i32,
    expected_remote_endpoint: Option<TcpEndpoint>,
) -> EbpfSocketFlowLookupView {
    EbpfSocketFlowLookupView {
        tgid: process.tgid,
        thread_pid: process.pid,
        fd,
        expected_remote_endpoint,
        process_hint: observed_hint(process),
    }
}

pub fn socket_flow_lookup(
    process: &EbpfObservedProcess,
    fd: i32,
    expected_remote_endpoint: Option<TcpEndpoint>,
) -> (lookup: EbpfSocketFlowLookup)
    ensures
        lookup@ == flow_lookup(*process, fd, expected_remote_endpoint),
{
    EbpfSocketFlowLookup {
        tgid: process.tgid,
        thread_pid: process.pid,
        fd,
        expected_remote_endpoint,
        process_hint: process_hint_from_observed(process),
    }
}

/// The socket that an accept listened on, as it is looked up.
pub open spec fn listen_lookup(
    accept: EbpfAcceptTracepointObservation,
) -> EbpfListenSocketLookupView {
    EbpfListenSocketLookupView {
        tgid: accept.process.tgid,
        thread_pid: accept.process.pid,
        fd: accept.listen_fd,
        process_hint: observed_hint(accept.process),
    }
}

/// What is asked about the listening descriptor of an accept.
pub fn listen_socket_lookup(accept: &EbpfAcceptTracepointObservation) -> (lookup:
    EbpfListenSocketLookup)
    ensures
        lookup@ == listen_lookup(*accept),
{
    EbpfListenSocketLookup {
        tgid: accept.process.tgid,
        thread_pid: accept.process.pid,
        fd: accept.listen_fd,
        process_hint: process_hint_from_observed(&accept.process),
    }
}

/// An end of which nothing but its family is known.
pub open spec fn unknown_local_end(remote: TcpEndpoint) -> TcpEndpoint {
    TcpEndpoint { address: remote.address.unspecified_like(), port: 0 }
}

/// An end of which nothing is known.
pub open spec fn unknown_end() -> TcpEndpoint {
    TcpEndpoint { address: IpAddress::V4(0), port: 0 }
}

fn unknown_local_endpoint_for_remote(remote: TcpEndpoint) -> (local: TcpEndpoint)
    ensures
        local == unknown_local_end(remote),
{
    let address = match remote.address {
        IpAddress::V4(_) => IpAddress::V4(0),
        IpAddress::V6(_) => IpAddress::V6(0),
    };
    TcpEndpoint::new(address, 0)
}

/// The start of a flow.
pub open spec fn opened(flow: FlowContextView, timestamp: Timestamp) -> CaptureEventView {
    CaptureEventView::ConnectionOpened { timestamp, flow, origin: ebpf_origin() }
}

/// The flow of a resolved connection.
pub open spec fn resolved_flow(
    resolved: EbpfResolvedSocketFlowView,
    start_monotonic_ns: u64,
) -> FlowContextView {
    tcp_flow(
        resolved.process,
        address_port(resolved.connection.local),
        address_port(resolved.connection.remote),
        start_monotonic_ns,
        resolved.socket_cookie,
        resolved.confidence,
    )
}

/// The flow of which only the remote end was observed.
pub open spec fn observed_flow(
    process: ProcessContextView,
    remote: TcpEndpoint,
    start_monotonic_ns: u64,
) -> FlowContextView {
    tcp_flow(
        process,
        address_port(unknown_local_end(remote)),
        address_port(remote),
        start_monotonic_ns,
        None,
        0,
    )
}

/// The flow of an accepted connection whose local end is that of the listening socket.
pub open spec fn accepted_flow(
    listen: EbpfResolvedListenSocketView,
    remote: TcpEndpoint,
    start_monotonic_ns: u64,
) -> FlowContextView {
    tcp_flow(
        listen.process,
        address_port(listen.local),
        address_port(remote),
        start_monotonic_ns,
        None,
        listen.confidence,
    )
}

/// The process of an observed flow: the one that was found, or what the kernel tells of it.
pub open spec fn process_or_observed(
    observed: EbpfObservedProcess,
    found: Option<ProcessContextView>,
) -> ProcessContextView {
    match found {
        Some(process) => process,
        None => observed_context(observed),
    }
}

/// The view of an optional process.
pub open spec fn process_view(process: Option<ProcessContext>) -> Option<ProcessContextView> {
    match process {
        Some(inner) => Some(inner@),
        None => None,
    }
}

/// The start of a resolved flow.
pub fn opened_event_from_resolved(
    resolved: EbpfResolvedSocketFlow,
    timestamp: Timestamp,
) -> (event: CaptureEvent)
    ensures
        event@ == opened(resolved_flow(resolved@, timestamp.monotonic_ns), timestamp),
{
    let flow = FlowContext::tcp(
        resolved.process,
        AddressPort::from_endpoint(resolved.connection.local),
        AddressPort::from_endpoint(resolved.connection.remote),
        timestamp.monotonic_ns,
        resolved.socket_cookie,
        resolved.confidence,
    );
    CaptureEvent::ConnectionOpened {
        timestamp,
        flow,
        origin: CaptureOrigin::from_source(CaptureSource::EbpfSyscall),
    }
}

/// The start of a flow of which only the remote end was observed.
pub fn observed_opened_event(
    observed_process: &EbpfObservedProcess,
    remote: TcpEndpoint,
    timestamp: Timestamp,
    resolved_process: Option<ProcessContext>,
) -> (event: CaptureEvent)
    ensures
        event@ == opened(
            observed_flow(
                process_or_observed(*observed_process, process_view(resolved_process)),
                remote,
                timestamp.monotonic_ns,
            ),
            timestamp,
        ),
{
    let process = match resolved_process {
        Some(process) => process,
        None => process_context_from_observed(observed_process),
    };
    let flow = FlowContext::tcp(
        process,
        AddressPort::from_endpoint(unknown_local_endpoint_for_remote(remote)),
        AddressPort::from_endpoint(remote),
        timestamp.monotonic_ns,
        None,
        0,
    );
    CaptureEvent::ConnectionOpened {
        timestamp,
        flow,
        origin: CaptureOrigin::from_source(CaptureSource::EbpfSyscall),
    }
}

/// The start of an accepted flow whose listening socket was found.
pub fn accepted_event_from_listen_socket(
    listen: EbpfResolvedListenSocket,
    remote: TcpEndpoint,
    timestamp: Timestamp,
) -> (event: CaptureEvent)
    ensures
        event@ == opened(accepted_flow(listen@, remote, timestamp.monotonic_ns), timestamp),
{
    let flow = FlowContext::tcp(
        listen.process,
        AddressPort::from_endpoint(listen.local),
        AddressPort::from_endpoint(remote),
        timestamp.monotonic_ns,
        None,
        listen.confidence,
    );
    CaptureEvent::ConnectionOpened {
        timestamp,
        flow,
        origin: CaptureOrigin::from_source(CaptureSource::EbpfSyscall),
    }
}

/// The gap that stands for a flow that could not be found.
pub open spec fn unresolved_gap(
    observed_process: EbpfObservedProcess,
    remote_endpoint: Option<TcpEndpoint>,
    direction: Direction,
    timestamp: Timestamp,
    reason: Seq<char>,
    found: Option<ProcessContextView>,
) -> CaptureEventView {
    let remote = match remote_endpoint {
        Some(endpoint) => endpoint,
        None => unknown_end(),
    };
    observed_gap_event(
        timestamp,
        observed_flow(
            process_or_observed(observed_process, found),
            remote,
            timestamp.monotonic_ns,
        ),
        ebpf_origin(),
        ObservationOnlyReason::EbpfUnresolvedFlow,
        EnforcementEvidencePropagation::Event,
        GapView { direction, expected_offset: 0, next_offset: None, reason },
    )
}

fn unresolved_flow_gap(
    observed_process: &EbpfObservedProcess,
    remote_endpoint: Option<TcpEndpoint>,
    direction: Direction,
    timestamp: Timestamp,
    reason: String,
    resolved_process: Option<ProcessContext>,
) -> (event: CaptureEvent)
    ensures
        event@ == unresolved_gap(
            *observed_process,
            remote_endpoint,
            direction,
            timestamp,
            reason@,
            process_view(resolved_process),
        ),
{
    let process = match resolved_process {
        Some(process) => process,
        None => process_context_from_observed(observed_process),
    };
    let remote = match remote_endpoint {
        Some(endpoint) => endpoint,
        None => TcpEndpoint::new(IpAddress::V4(0), 0),
    };
    let flow = FlowContext::tcp(
        process,
        AddressPort::from_endpoint(unknown_local_endpoint_for_remote(remote)),
        AddressPort::from_endpoint(remote),
        timestamp.monotonic_ns,
        None,
        0,
    );
    build_observed_gap_event(
        timestamp,
        flow,
        CaptureOrigin::from_source(CaptureSource::EbpfSyscall),
        ObservationOnlyReason::EbpfUnresolvedFlow,
        EnforcementEvidencePropagation::Event,
        Gap { direction, expected_offset: 0, next_offset: None, reason },
    )
}

pub fn unresolved_connect_gap_from_observation(
    connect: &EbpfConnectTracepointObservation,
    timestamp: Timestamp,
    reason: String,
    resolved_process: Option<ProcessContext>,
) -> (event: CaptureEvent)
    ensures
        event@ == unresolved_gap(
            connect.process,
            connect.endpoint.remote(),
            Direction::Outbound,
            timestamp,
            reason@,
            process_view(resolved_process),
        ),
{
    unresolved_flow_gap(
        &connect.process,
        connect.endpoint.remote_endpoint(),
        Direction::Outbound,
        timestamp,
        reason,
        resolved_process,
    )
}

pub fn unresolved_accept_gap_from_observation(
    accept: &EbpfAcceptTracepointObservation,
    timestamp: Timestamp,
    reason: String,
    resolved_process: Option<ProcessContext>,
) -> (event: CaptureEvent)
    ensures
        event@ == unresolved_gap(
            accept.process,
            accept.endpoint.remote(),
            Direction::Inbound,
            timestamp,
            reason@,
            process_view(resolved_process),
        ),
{
    unresolved_flow_gap(
        &accept.process,
        accept.endpoint.remote_endpoint(),
        Direction::Inbound,
        timestamp,
        reason,
        resolved_process,
    )
}

/// What the loss of ring-buffer events is reported as.
pub open spec fn output_loss_reason(lost_events: u64) -> Seq<char> {
    "eBPF process observation output ring buffer could not accept "@ + decimal_digits(
        lost_events as nat,
    )
        + " event(s); parser state may have missed connection or payload observations"@
}

pub fn output_loss_event(timestamp: Timestamp, lost_events: u64) -> (event: CaptureEvent)
    ensures
        event@ == loss_event(
            timestamp,
            lost_events,
            CaptureSource::EbpfSyscall,
            output_loss_reason(lost_events),
        ),
{
    let mut reason = String::new();
    push_labelled(
        &mut reason,
        "eBPF process observation output ring buffer could not accept ",
        lost_events,
    );
    reason.append(" event(s); parser state may have missed connection or payload observations");
    assert(reason@ =~= output_loss_reason(lost_events));
    provider_output_loss_event(timestamp, lost_events, CaptureSource::EbpfSyscall, reason)
}

/// What the loss of queued payload observations is reported as.
pub open spec fn pending_payload_loss_reason(lost_events: u64) -> Seq<char> {
    "eBPF process observation userspace pending payload queue dropped "@ + decimal_digits(
        lost_events as nat,
    )
        + " event(s) while waiting for flow recovery; parser state may have missed payload observations"@
}

pub fn pending_payload_queue_loss_event(timestamp: Timestamp, lost_events: u64) -> (event:
    CaptureEvent)
    ensures
        event@ == loss_event(
            timestamp,
            lost_events,
            CaptureSource::EbpfSyscall,
            pending_payload_loss_reason(lost_events),
        ),
{
    let mut reason = String::new();
    push_labelled(
        &mut reason,
        "eBPF process observation userspace pending payload queue dropped ",
        lost_events,
    );
    reason.append(
        " event(s) while waiting for flow recovery; parser state may have missed payload observations",
    );
    assert(reason@ =~= pending_payload_loss_reason(lost_events));
    provider_output_loss_event(timestamp, lost_events, CaptureSource::EbpfSyscall, reason)
}

} // verus!
