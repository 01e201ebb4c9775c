//! What a capture provider is: its errors, its polls, its capabilities, and what it asks of others.
use vstd::prelude::*;
use vstd::string::StringExecFns;

use crate::address::{TcpConnection, TcpEndpoint};
use crate::event::{CaptureEvent, CaptureEventView};
use crate::model::{ProcessContext, ProcessContextView};
use crate::text::joined;

verus! {

/// Why a provider could not go on.
#[derive(Debug, PartialEq, Eq)]
pub enum CaptureError {
    Provider { provider: String, reason: String },
}

#[verifier::ext_equal]
pub enum CaptureErrorView {
    Provider { provider: Seq<char>, reason: Seq<char> },
}

impl View for CaptureError {
    type V = CaptureErrorView;

    open spec fn view(&self) -> CaptureErrorView {
        match *self {
            CaptureError::Provider { provider, reason } => CaptureErrorView::Provider {
                provider: provider@,
                reason: reason@,
            },
        }
    }
}

impl CaptureErrorView {
    /// The error in words.
    pub open spec fn text(self) -> Seq<char> {
        match self {
            CaptureErrorView::Provider { provider, reason } => "capture provider "@ + provider
                + " failed: "@ + reason,
        }
    }
}

impl CaptureError {
    pub fn provider(provider: &str, reason: &str) -> (error: CaptureError)
        ensures
            error@ == (CaptureErrorView::Provider { provider: provider@, reason: reason@ }),
    {
        CaptureError::Provider { provider: provider.to_owned(), reason: reason.to_owned() }
    }

    /// The error in words.
    pub fn message(&self) -> (text: String)
        ensures
            text@ == self@.text(),
    {
        match self {
            CaptureError::Provider { provider, reason } => {
                let mut text = joined("capture provider ", provider.as_str());
                text.append(" failed: ");
                text.append(reason.as_str());
                text
            },
        }
    }
}

/// What one poll of a provider brought.
#[derive(Debug, PartialEq, Eq)]
pub enum CapturePoll {
    Event(Box<CaptureEvent>),
    Progress,
    Idle,
    Finished,
}

#[verifier::ext_equal]
pub enum CapturePollView {
    Event(CaptureEventView),
    Progress,
    Idle,
    Finished,
}

impl View for CapturePoll {
    type V = CapturePollView;

    open spec fn view(&self) -> CapturePollView {
        match *self {
            CapturePoll::Event(event) => CapturePollView::Event(event@),
            CapturePoll::Progress => CapturePollView::Progress,
            CapturePoll::Idle => CapturePollView::Idle,
            CapturePoll::Finished => CapturePollView::Finished,
        }
    }
}

impl CapturePoll {
    pub fn event(event: CaptureEvent) -> (poll: CapturePoll)
        ensures
            poll@ == CapturePollView::Event(event@),
    {
        CapturePoll::Event(Box::new(event))
    }
}

#[derive(Debug, Clone, Copy, PartialEq, Eq, Structural)]
pub enum CapabilityKind {
    Ebpf,
    Libpcap,
    LibsslUprobe,
}

#[derive(Debug, PartialEq, Eq)]
pub enum CapabilityStatus {
    Available,
    Degraded { reason: String },
    Unavailable { reason: String },
}

#[verifier::ext_equal]
pub enum CapabilityStatusView {
    Available,
    Degraded { reason: Seq<char> },
    Unavailable { reason: Seq<char> },
}

impl View for CapabilityStatus {
    type V = CapabilityStatusView;

    open spec fn view(&self) -> CapabilityStatusView {
        match *self {
            CapabilityStatus::Available => CapabilityStatusView::Available,
            CapabilityStatus::Degraded { reason } => CapabilityStatusView::Degraded {
                reason: reason@,
            },
            CapabilityStatus::Unavailable { reason } => CapabilityStatusView::Unavailable {
                reason: reason@,
            },
        }
    }
}

/// One thing that a provider can do, and how well.
#[derive(Debug, PartialEq, Eq)]
pub struct CapabilityState {
    pub kind: CapabilityKind,
    pub status: CapabilityStatus,
}

#[verifier::ext_equal]
pub struct CapabilityStateView {
    pub kind: CapabilityKind,
    pub status: CapabilityStatusView,
}

impl View for CapabilityState {
    type V = CapabilityStateView;

    open spec fn view(&self) -> CapabilityStateView {
        CapabilityStateView { kind: self.kind, status: self.status@ }
    }
}

impl Clone for CapabilityState {
    fn clone(&self) -> (copy: Self)
        ensures
            copy@ == self@,
    {
        let status = match &self.status {
            CapabilityStatus::Available => CapabilityStatus::Available,
            CapabilityStatus::Degraded { reason } => CapabilityStatus::Degraded {
                reason: reason.clone(),
            },
            CapabilityStatus::Unavailable { reason } => CapabilityStatus::Unavailable {
                reason: reason.clone(),
            },
        };
        CapabilityState { kind: self.kind, status }
    }
}

impl CapabilityState {
    pub fn available(kind: CapabilityKind) -> (state: CapabilityState)
        ensures
            state@ == (CapabilityStateView { kind, status: CapabilityStatusView::Available }),
    {
        CapabilityState { kind, status: CapabilityStatus::Available }
    }

    pub fn degraded(kind: CapabilityKind, reason: &str) -> (state: CapabilityState)
        ensures
            state@ == (CapabilityStateView {
                kind,
                status: CapabilityStatusView::Degraded { reason: reason@ },
            }),
    {
        CapabilityState { kind, status: CapabilityStatus::Degraded { reason: reason.to_owned() } }
    }

    pub fn unavailable(kind: CapabilityKind, reason: &str) -> (state: CapabilityState)
        ensures
            state@ == (CapabilityStateView {
                kind,
                status: CapabilityStatusView::Unavailable { reason: reason@ },
            }),
    {
        CapabilityState {
            kind,
            status: CapabilityStatus::Unavailable { reason: reason.to_owned() },
        }
    }
}

/// The views of a list of capabilities.
pub open spec fn capability_views(states: Seq<CapabilityState>) -> Seq<CapabilityStateView> {
    states.map_values(|state: CapabilityState| state@)
}

/// A source of capture events.
pub trait CaptureProvider {
    fn name(&self) -> &'static str;

    fn capabilities(&self) -> Vec<CapabilityState>;

    fn poll_next(&mut self) -> Result<CapturePoll, CaptureError>;
}

impl CaptureProvider for Box<dyn CaptureProvider> {
    fn name(&self) -> &'static str {
        (**self).name()
    }

    fn capabilities(&self) -> Vec<CapabilityState> {
        (**self).capabilities()
    }

    fn poll_next(&mut self) -> Result<CapturePoll, CaptureError> {
        (**self).poll_next()
    }
}

/// The process that owns one end of a connection, and how sure that is.
#[derive(Debug, PartialEq, Eq)]
pub struct ResolvedProcess {
    pub process: ProcessContext,
    pub confidence: u8,
}

#[verifier::ext_equal]
pub struct ResolvedProcessView {
    pub process: ProcessContextView,
    pub confidence: u8,
}

impl View for ResolvedProcess {
    type V = ResolvedProcessView;

    open spec fn view(&self) -> ResolvedProcessView {
        ResolvedProcessView { process: self.process@, confidence: self.confidence }
    }
}

impl Clone for ResolvedProcess {
    fn clone(&self) -> (copy: Self)
        ensures
            copy@ == self@,
    {
        ResolvedProcess { process: self.process.clone(), confidence: self.confidence }
    }
}

/// Finds the processes behind connections and listening sockets.
pub trait ProcessResolver {
    fn resolve_tcp_process(
        &mut self,
        connection: TcpConnection,
    ) -> Result<Option<ResolvedProcess>, CaptureError>;

    fn resolve_tcp_listener(
        &mut self,
        _local_endpoint: TcpEndpoint,
    ) -> Result<Option<ResolvedProcess>, CaptureError> {
        Ok(None)
    }

    fn resolve_unique_tcp_listener_owner_by_port(
        &mut self,
        _local_port: u16,
    ) -> Result<Option<ResolvedProcess>, CaptureError> {
        Ok(None)
    }

    fn invalidate_cached_resolution(&mut self) {
    }
}

impl ProcessResolver for Box<dyn ProcessResolver> {
    fn resolve_tcp_process(
        &mut self,
        connection: TcpConnection,
    ) -> Result<Option<ResolvedProcess>, CaptureError> {
        (**self).resolve_tcp_process(connection)
    }

    fn resolve_tcp_listener(
        &mut self,
        local_endpoint: TcpEndpoint,
    ) -> Result<Option<ResolvedProcess>, CaptureError> {
        (**self).resolve_tcp_listener(local_endpoint)
    }

    fn resolve_unique_tcp_listener_owner_by_port(
        &mut self,
        local_port: u16,
    ) -> Result<Option<ResolvedProcess>, CaptureError> {
        (**self).resolve_unique_tcp_listener_owner_by_port(local_port)
    }

    fn invalidate_cached_resolution(&mut self) {
        (**self).invalidate_cached_resolution()
    }
}

} // verus!
