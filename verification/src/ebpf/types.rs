//! What the kernel probes observe of processes and their sockets.
use vstd::prelude::*;
use vstd::slice::slice_subrange;
use vstd::utf8::{decode_utf8, valid_utf8};

use crate::address::TcpEndpoint;

verus! {

/// The text that stands for octets in which each invalid UTF-8 sequence is replaced.
pub uninterp spec fn lossy_text(octets: Seq<u8>) -> Seq<char>;

/// `String::from_utf8_lossy`, made into an owned text. Valid UTF-8 is decoded as it is; of other
/// octets each invalid sequence becomes a replacement character, so the text is empty only where
/// there are no octets. How many replacement characters there are is left unsaid.
#[verifier::external_body]
fn text_from_octets(octets: &[u8]) -> (text: String)
    ensures
        text@ == lossy_text(octets@),
        valid_utf8(octets@) ==> text@ == decode_utf8(octets@),
        (text@.len() == 0) == (octets@.len() == 0),
{
    String::from_utf8_lossy(octets).into_owned()
}

/// The octets before the first zero octet.
pub open spec fn before_nul(octets: Seq<u8>) -> Seq<u8>
    decreases octets.len(),
{
    if octets.len() == 0 || octets[0] == 0 {
        Seq::empty()
    } else {
        seq![octets[0]] + before_nul(octets.drop_first())
    }
}

/// The octets before the first zero octet are a prefix that no zero octet is in.
pub proof fn lemma_before_nul(octets: Seq<u8>, length: int)
    requires
        0 <= length <= octets.len(),
        forall|index: int| 0 <= index < length ==> octets[index] != 0,
        length < octets.len() ==> octets[length] == 0,
    ensures
        before_nul(octets) == octets.take(length),
    decreases length,
{
    if length == 0 {
        assert(octets.take(0) =~= Seq::empty());
    } else {
        let rest = octets.drop_first();
        lemma_before_nul(rest, length - 1);
        assert(octets.take(length) =~= seq![octets[0]] + rest.take(length - 1));
    }
}

/// The task that a tracepoint fired in: `pid` is the thread, `tgid` the process.
#[derive(Debug, Clone, Copy, PartialEq, Eq)]
pub struct EbpfObservedProcess {
    pub pid: u32,
    pub tgid: u32,
    pub uid: u32,
    pub gid: u32,
    pub command: [u8; 16],
}

impl EbpfObservedProcess {
    /// The octets of the command name, without what pads them.
    pub open spec fn command_octets(self) -> Seq<u8> {
        before_nul(self.command@)
    }

    /// The command name as text.
    pub fn command_lossy(&self) -> (name: String)
        ensures
            name@ == lossy_text(self.command_octets()),
            valid_utf8(self.command_octets()) ==> name@ == decode_utf8(self.command_octets()),
            (name@.len() == 0) == (self.command_octets().len() == 0),
    {
        let mut length: usize = 0;
        while length < 16 && self.command[length] != 0
            invariant
                length <= 16,
                forall|index: int| 0 <= index < length ==> self.command@[index] != 0,
            decreases 16 - length,
        {
            length = length + 1;
        }
        proof {
            lemma_before_nul(self.command@, length as int);
            assert(self.command@.take(length as int) =~= self.command@.subrange(0, length as int));
        }
        text_from_octets(slice_subrange(&self.command, 0, length))
    }
}

/// Where the other end of a socket is, as far as a tracepoint could read it.
#[derive(Debug, Clone, Copy, PartialEq, Eq, Structural)]
pub enum EbpfSocketEndpoint {
    Remote(TcpEndpoint),
    SockaddrReadFailed,
    UnsupportedAddressFamily { value: u16 },
    Missing,
}

impl EbpfSocketEndpoint {
    /// The other end, where it is known.
    pub open spec fn remote(self) -> Option<TcpEndpoint> {
        match self {
            EbpfSocketEndpoint::Remote(endpoint) => Some(endpoint),
            _ => None,
        }
    }

    pub fn remote_endpoint(self) -> (endpoint: Option<TcpEndpoint>)
        ensures
            endpoint == self.remote(),
    {
        match self {
            EbpfSocketEndpoint::Remote(endpoint) => Some(endpoint),
            EbpfSocketEndpoint::SockaddrReadFailed
            | EbpfSocketEndpoint::UnsupportedAddressFamily { .. }
            | EbpfSocketEndpoint::Missing => None,
        }
    }
}

#[derive(Debug, Clone, Copy, PartialEq, Eq)]
pub struct EbpfConnectTracepointObservation {
    pub process: EbpfObservedProcess,
    pub fd: i32,
    pub addrlen: u32,
    pub fd_table_epoch: u64,
    pub fd_generation: u64,
    pub endpoint: EbpfSocketEndpoint,
}

#[derive(Debug, Clone, Copy, PartialEq, Eq)]
pub struct EbpfAcceptTracepointObservation {
    pub process: EbpfObservedProcess,
    pub fd: i32,
    pub listen_fd: i32,
    pub addrlen: u32,
    pub fd_table_epoch: u64,
    pub fd_generation: u64,
    pub endpoint: EbpfSocketEndpoint,
}

#[derive(Debug, Clone, Copy, PartialEq, Eq)]
pub struct EbpfCloseTracepointObservation {
    pub process: EbpfObservedProcess,
    pub fd: i32,
    pub fd_generation: u64,
}

#[derive(Debug, Clone, Copy, PartialEq, Eq)]
pub struct EbpfCloseRangeTracepointObservation {
    pub process: EbpfObservedProcess,
    pub first_fd: u32,
    pub last_fd: u32,
}

#[derive(Debug, Clone, Copy, PartialEq, Eq)]
pub struct EbpfProcessLifecycleObservation {
    pub process: EbpfObservedProcess,
    pub kind: EbpfProcessLifecycleKind,
}

/// What ends the validity of a process's descriptors.
#[derive(Debug, Clone, Copy, PartialEq, Eq, Structural)]
pub enum EbpfProcessLifecycleKind {
    Exit,
    Exec,
}

impl EbpfProcessLifecycleKind {
    pub open spec fn text(self) -> Seq<char> {
        match self {
            EbpfProcessLifecycleKind::Exit => "TGID leader exit"@,
            EbpfProcessLifecycleKind::Exec => "process exec"@,
        }
    }

    pub fn boundary_description(self) -> (text: &'static str)
        ensures
            text@ == self.text(),
    {
        match self {
            EbpfProcessLifecycleKind::Exit => "TGID leader exit",
            EbpfProcessLifecycleKind::Exec => "process exec",
        }
    }
}

/// A sample of what a process handed to the kernel to be sent.
#[derive(Debug, PartialEq, Eq)]
pub struct EbpfSocketWriteObservation {
    pub process: EbpfObservedProcess,
    pub fd: i32,
    pub fd_generation: u64,
    pub original_len: u32,
    pub buffer: Vec<u8>,
    pub truncated: bool,
    pub read_failed: bool,
    pub kernel_transfer: bool,
}

#[verifier::ext_equal]
pub struct EbpfSocketWriteObservationView {
    pub process: EbpfObservedProcess,
    pub fd: i32,
    pub fd_generation: u64,
    pub original_len: u32,
    pub buffer: Seq<u8>,
    pub truncated: bool,
    pub read_failed: bool,
    pub kernel_transfer: bool,
}

impl View for EbpfSocketWriteObservation {
    type V = EbpfSocketWriteObservationView;

    open spec fn view(&self) -> EbpfSocketWriteObservationView {
        EbpfSocketWriteObservationView {
            process: self.process,
            fd: self.fd,
            fd_generation: self.fd_generation,
            original_len: self.original_len,
            buffer: self.buffer@,
            truncated: self.truncated,
            read_failed: self.read_failed,
            kernel_transfer: self.kernel_transfer,
        }
    }
}

/// A sample of what the kernel handed to a process as received.
#[derive(Debug, PartialEq, Eq)]
pub struct EbpfSocketReadObservation {
    pub process: EbpfObservedProcess,
    pub fd: i32,
    pub fd_generation: u64,
    pub original_len: u32,
    pub buffer: Vec<u8>,
    pub truncated: bool,
    pub read_failed: bool,
}

#[verifier::ext_equal]
pub struct EbpfSocketReadObservationView {
    pub process: EbpfObservedProcess,
    pub fd: i32,
    pub fd_generation: u64,
    pub original_len: u32,
    pub buffer: Seq<u8>,
    pub truncated: bool,
    pub read_failed: bool,
}

impl View for EbpfSocketReadObservation {
    type V = EbpfSocketReadObservationView;

    open spec fn view(&self) -> EbpfSocketReadObservationView {
        EbpfSocketReadObservationView {
            process: self.process,
            fd: self.fd,
            fd_generation: self.fd_generation,
            original_len: self.original_len,
            buffer: self.buffer@,
            truncated: self.truncated,
            read_failed: self.read_failed,
        }
    }
}

/// One observation of the kernel probes.
#[derive(Debug, PartialEq, Eq)]
pub enum EbpfProcessObservation {
    Connect(EbpfConnectTracepointObservation),
    Accept(EbpfAcceptTracepointObservation),
    Close(EbpfCloseTracepointObservation),
    CloseRange(EbpfCloseRangeTracepointObservation),
    ProcessLifecycle(EbpfProcessLifecycleObservation),
    Write(EbpfSocketWriteObservation),
    Read(EbpfSocketReadObservation),
}

#[verifier::ext_equal]
pub enum EbpfProcessObservationView {
    Connect(EbpfConnectTracepointObservation),
    Accept(EbpfAcceptTracepointObservation),
    Close(EbpfCloseTracepointObservation),
    CloseRange(EbpfCloseRangeTracepointObservation),
    ProcessLifecycle(EbpfProcessLifecycleObservation),
    Write(EbpfSocketWriteObservationView),
    Read(EbpfSocketReadObservationView),
}

impl View for EbpfProcessObservation {
    type V = EbpfProcessObservationView;

    open spec fn view(&self) -> EbpfProcessObservationView {
        match *self {
            EbpfProcessObservation::Connect(connect) => EbpfProcessObservationView::Connect(
                connect,
            ),
            EbpfProcessObservation::Accept(accept) => EbpfProcessObservationView::Accept(accept),
            EbpfProcessObservation::Close(close) => EbpfProcessObservationView::Close(close),
            EbpfProcessObservation::CloseRange(close_range) =>
                EbpfProcessObservationView::CloseRange(close_range),
            EbpfProcessObservation::ProcessLifecycle(lifecycle) =>
                EbpfProcessObservationView::ProcessLifecycle(lifecycle),
            EbpfProcessObservation::Write(write) => EbpfProcessObservationView::Write(write@),
            EbpfProcessObservation::Read(read) => EbpfProcessObservationView::Read(read@),
        }
    }
}

impl EbpfProcessObservationView {
    /// The task that was observed.
    pub open spec fn observed_process(self) -> EbpfObservedProcess {
        match self {
            EbpfProcessObservationView::Connect(connect) => connect.process,
            EbpfProcessObservationView::Accept(accept) => accept.process,
            EbpfProcessObservationView::Close(close) => close.process,
            EbpfProcessObservationView::CloseRange(close_range) => close_range.process,
            EbpfProcessObservationView::ProcessLifecycle(lifecycle) => lifecycle.process,
            EbpfProcessObservationView::Write(write) => write.process,
            EbpfProcessObservationView::Read(read) => read.process,
        }
    }
}

impl EbpfProcessObservation {
    /// The command name of the observed task.
    pub fn command_lossy(&self) -> (name: String)
        ensures
            name@ == lossy_text(self@.observed_process().command_octets()),
            valid_utf8(self@.observed_process().command_octets()) ==> name@ == decode_utf8(
                self@.observed_process().command_octets(),
            ),
            (name@.len() == 0) == (self@.observed_process().command_octets().len() == 0),
    {
        self.process().command_lossy()
    }

    /// The task that was observed.
    pub fn process(&self) -> (process: &EbpfObservedProcess)
        ensures
            *process == self@.observed_process(),
    {
        match self {
            EbpfProcessObservation::Connect(connect) => &connect.process,
            EbpfProcessObservation::Accept(accept) => &accept.process,
            EbpfProcessObservation::Close(close) => &close.process,
            EbpfProcessObservation::CloseRange(close_range) => &close_range.process,
            EbpfProcessObservation::ProcessLifecycle(lifecycle) => &lifecycle.process,
            EbpfProcessObservation::Write(write) => &write.process,
            EbpfProcessObservation::Read(read) => &read.process,
        }
    }
}

} // verus!
