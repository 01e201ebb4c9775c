//! The events that the kernel probes write, and the observations that they stand for.
use vstd::prelude::*;

use crate::address::{IpAddress, TcpEndpoint};
use crate::octets::{be_u128, be_u32, big_endian};

use super::types::{
    EbpfAcceptTracepointObservation, EbpfCloseRangeTracepointObservation,
    EbpfCloseTracepointObservation, EbpfConnectTracepointObservation, EbpfObservedProcess,
    EbpfProcessLifecycleKind, EbpfProcessLifecycleObservation, EbpfProcessObservation,
    EbpfProcessObservationView, EbpfSocketEndpoint, EbpfSocketReadObservation,
    EbpfSocketReadObservationView, EbpfSocketWriteObservation, EbpfSocketWriteObservationView,
};

verus! {

pub const EBPF_ADDRESS_FAMILY_INET: u16 = 2;

pub const EBPF_ADDRESS_FAMILY_INET6: u16 = 10;

/// The remote end of a connect or an accept was read.
pub const EBPF_SOCKET_FLOW_REMOTE_ENDPOINT_VALID: u16 = 1;

/// The socket address of a connect or an accept could not be read.
pub const EBPF_SOCKET_FLOW_SOCKADDR_READ_FAILED: u16 = 2;

/// The socket address of a connect or an accept is of another family.
pub const EBPF_SOCKET_FLOW_UNSUPPORTED_ADDRESS_FAMILY: u16 = 4;

pub const EBPF_SOCKET_WRITE_TRUNCATED: u16 = 1;

pub const EBPF_SOCKET_WRITE_READ_FAILED: u16 = 2;

/// The kernel moved the octets by itself, so that no buffer of the process holds them.
pub const EBPF_SOCKET_WRITE_KERNEL_TRANSFER: u16 = 4;

pub const EBPF_SOCKET_READ_TRUNCATED: u16 = 1;

pub const EBPF_SOCKET_READ_READ_FAILED: u16 = 2;

#[derive(Debug, Clone, Copy, PartialEq, Eq)]
pub struct EbpfConnectObservation {
    pub fd: i32,
    pub addrlen: u32,
    pub fd_table_epoch: u64,
    pub fd_generation: u64,
    pub address_family: u16,
    pub remote_port: u16,
    pub remote_address: [u8; 16],
}

#[derive(Debug, Clone, Copy, PartialEq, Eq)]
pub struct EbpfAcceptObservation {
    pub fd: i32,
    pub listen_fd: i32,
    pub addrlen: u32,
    pub fd_table_epoch: u64,
    pub fd_generation: u64,
    pub address_family: u16,
    pub remote_port: u16,
    pub remote_address: [u8; 16],
}

#[derive(Debug, Clone, Copy, PartialEq, Eq)]
pub struct EbpfCloseObservation {
    pub fd: i32,
    pub fd_generation: u64,
}

#[derive(Debug, Clone, Copy, PartialEq, Eq)]
pub struct EbpfCloseRangeObservation {
    pub first_fd: u32,
    pub last_fd: u32,
}

/// Octets of a system call on a socket: the first `captured_len` of the buffer were captured.
#[derive(Debug, PartialEq, Eq)]
pub struct EbpfSocketSample {
    pub fd: i32,
    pub fd_generation: u64,
    pub original_len: u32,
    pub captured_len: u16,
    pub buffer: Vec<u8>,
}

/// What an event tells, by its kind.
#[derive(Debug, PartialEq, Eq)]
pub enum EbpfProcessProbeEventBody {
    ConnectTracepointObserved(EbpfConnectObservation),
    AcceptTracepointObserved(EbpfAcceptObservation),
    CloseTracepointObserved(EbpfCloseObservation),
    CloseRangeTracepointObserved(EbpfCloseRangeObservation),
    ProcessExitObserved,
    ProcessExecObserved,
    SocketWriteSampled(EbpfSocketSample),
    SocketReadSampled(EbpfSocketSample),
}

/// One event of the kernel probes.
#[derive(Debug, PartialEq, Eq)]
pub struct EbpfProcessProbeEvent {
    pub pid: u32,
    pub tgid: u32,
    pub uid: u32,
    pub gid: u32,
    pub command: [u8; 16],
    pub flags: u16,
    pub body: EbpfProcessProbeEventBody,
}

/// Whether a sample holds all the octets that it says were captured.
pub open spec fn sample_is_complete(sample: EbpfSocketSample) -> bool {
    sample.captured_len <= sample.buffer@.len()
}

impl EbpfProcessProbeEvent {
    /// Whether the event holds all the octets that it says were captured.
    pub open spec fn well_formed(self) -> bool {
        match self.body {
            EbpfProcessProbeEventBody::SocketWriteSampled(sample) => sample_is_complete(sample),
            EbpfProcessProbeEventBody::SocketReadSampled(sample) => sample_is_complete(sample),
            _ => true,
        }
    }

    /// Whether the event holds all the octets that it says were captured.
    pub fn is_complete(&self) -> (complete: bool)
        ensures
            complete == self.well_formed(),
    {
        match &self.body {
            EbpfProcessProbeEventBody::SocketWriteSampled(sample)
            | EbpfProcessProbeEventBody::SocketReadSampled(sample) => sample.captured_len as usize
                <= sample.buffer.len(),
            _ => true,
        }
    }

    /// The task that the event tells of.
    pub open spec fn observed_process(self) -> EbpfObservedProcess {
        EbpfObservedProcess {
            pid: self.pid,
            tgid: self.tgid,
            uid: self.uid,
            gid: self.gid,
            command: self.command,
        }
    }
}

/// The remote address of a socket: of an IPv4 address the first four octets count, and an IPv6
/// address that stands for an IPv4 address is taken as that.
pub open spec fn remote_address_of(address_family: u16, remote_address: Seq<u8>) -> Option<
    IpAddress,
> {
    if address_family == EBPF_ADDRESS_FAMILY_INET {
        Some(IpAddress::V4(big_endian(remote_address.subrange(0, 4)) as u32))
    } else if address_family == EBPF_ADDRESS_FAMILY_INET6 {
        Some(IpAddress::V6(big_endian(remote_address) as u128).unmapped())
    } else {
        None
    }
}

/// Where the other end of a socket is, by the flags of the event.
pub open spec fn socket_flow_endpoint(
    flags: u16,
    address_family: u16,
    remote_port: u16,
    remote_address: Seq<u8>,
) -> EbpfSocketEndpoint {
    if flags & EBPF_SOCKET_FLOW_REMOTE_ENDPOINT_VALID != 0 {
        match remote_address_of(address_family, remote_address) {
            Some(address) => EbpfSocketEndpoint::Remote(TcpEndpoint { address, port: remote_port }),
            None => EbpfSocketEndpoint::UnsupportedAddressFamily { value: address_family },
        }
    } else if flags & EBPF_SOCKET_FLOW_SOCKADDR_READ_FAILED != 0 {
        EbpfSocketEndpoint::SockaddrReadFailed
    } else if flags & EBPF_SOCKET_FLOW_UNSUPPORTED_ADDRESS_FAMILY != 0 {
        EbpfSocketEndpoint::UnsupportedAddressFamily { value: address_family }
    } else {
        EbpfSocketEndpoint::Missing
    }
}

/// The octets of a sample that were captured.
pub open spec fn captured_octets(sample: EbpfSocketSample) -> Seq<u8> {
    sample.buffer@.take(sample.captured_len as int)
}

/// The observation that an event stands for.
pub open spec fn observation_of(event: EbpfProcessProbeEvent) -> EbpfProcessObservationView {
    let process = event.observed_process();
    match event.body {
        EbpfProcessProbeEventBody::ConnectTracepointObserved(connect) =>
            EbpfProcessObservationView::Connect(
                EbpfConnectTracepointObservation {
                    process,
                    fd: connect.fd,
                    addrlen: connect.addrlen,
                    fd_table_epoch: connect.fd_table_epoch,
                    fd_generation: connect.fd_generation,
                    endpoint: socket_flow_endpoint(
                        event.flags,
                        connect.address_family,
                        connect.remote_port,
                        connect.remote_address@,
                    ),
                },
            ),
        EbpfProcessProbeEventBody::AcceptTracepointObserved(accept) =>
            EbpfProcessObservationView::Accept(
                EbpfAcceptTracepointObservation {
                    process,
                    fd: accept.fd,
                    listen_fd: accept.listen_fd,
                    addrlen: accept.addrlen,
                    fd_table_epoch: accept.fd_table_epoch,
                    fd_generation: accept.fd_generation,
                    endpoint: socket_flow_endpoint(
                        event.flags,
                        accept.address_family,
                        accept.remote_port,
                        accept.remote_address@,
                    ),
                },
            ),
        EbpfProcessProbeEventBody::CloseTracepointObserved(close) =>
            EbpfProcessObservationView::Close(
                EbpfCloseTracepointObservation {
                    process,
                    fd: close.fd,
                    fd_generation: close.fd_generation,
                },
            ),
        EbpfProcessProbeEventBody::CloseRangeTracepointObserved(close_range) =>
            EbpfProcessObservationView::CloseRange(
                EbpfCloseRangeTracepointObservation {
                    process,
                    first_fd: close_range.first_fd,
                    last_fd: close_range.last_fd,
                },
            ),
        EbpfProcessProbeEventBody::ProcessExitObserved =>
            EbpfProcessObservationView::ProcessLifecycle(
                EbpfProcessLifecycleObservation { process, kind: EbpfProcessLifecycleKind::Exit },
            ),
        EbpfProcessProbeEventBody::ProcessExecObserved =>
            EbpfProcessObservationView::ProcessLifecycle(
                EbpfProcessLifecycleObservation { process, kind: EbpfProcessLifecycleKind::Exec },
            ),
        EbpfProcessProbeEventBody::SocketWriteSampled(sample) => EbpfProcessObservationView::Write(
            EbpfSocketWriteObservationView {
                process,
                fd: sample.fd,
                fd_generation: sample.fd_generation,
                original_len: sample.original_len,
                buffer: captured_octets(sample),
                truncated: event.flags & EBPF_SOCKET_WRITE_TRUNCATED != 0,
                read_failed: event.flags & EBPF_SOCKET_WRITE_READ_FAILED != 0,
                kernel_transfer: event.flags & EBPF_SOCKET_WRITE_KERNEL_TRANSFER != 0,
            },
        ),
        EbpfProcessProbeEventBody::SocketReadSampled(sample) => EbpfProcessObservationView::Read(
            EbpfSocketReadObservationView {
                process,
                fd: sample.fd,
                fd_generation: sample.fd_generation,
                original_len: sample.original_len,
                buffer: captured_octets(sample),
                truncated: event.flags & EBPF_SOCKET_READ_TRUNCATED != 0,
                read_failed: event.flags & EBPF_SOCKET_READ_READ_FAILED != 0,
            },
        ),
    }
}

fn remote_endpoint_from_parts(
    address_family: u16,
    remote_port: u16,
    remote_address: &[u8; 16],
) -> (endpoint: Option<TcpEndpoint>)
    ensures
        match remote_address_of(address_family, remote_address@) {
            Some(address) => endpoint == Some(TcpEndpoint { address, port: remote_port }),
            None => endpoint is None,
        },
{
    let address = if address_family == EBPF_ADDRESS_FAMILY_INET {
        IpAddress::V4(be_u32(remote_address, 0))
    } else if address_family == EBPF_ADDRESS_FAMILY_INET6 {
        assert(remote_address@.subrange(0, 16) =~= remote_address@);
        IpAddress::V6(be_u128(remote_address, 0)).to_unmapped()
    } else {
        return None;
    };
    Some(TcpEndpoint { address, port: remote_port })
}

/// Where the other end of a socket is, by the flags of the event.
pub fn socket_flow_endpoint_from_flags(
    flags: u16,
    address_family: u16,
    remote_port: u16,
    remote_address: &[u8; 16],
) -> (endpoint: EbpfSocketEndpoint)
    ensures
        endpoint == socket_flow_endpoint(flags, address_family, remote_port, remote_address@),
{
    if flags & EBPF_SOCKET_FLOW_REMOTE_ENDPOINT_VALID != 0 {
        return match remote_endpoint_from_parts(address_family, remote_port, remote_address) {
            Some(endpoint) => EbpfSocketEndpoint::Remote(endpoint),
            None => EbpfSocketEndpoint::UnsupportedAddressFamily { value: address_family },
        };
    }
    if flags & EBPF_SOCKET_FLOW_SOCKADDR_READ_FAILED != 0 {
        return EbpfSocketEndpoint::SockaddrReadFailed;
    }
    if flags & EBPF_SOCKET_FLOW_UNSUPPORTED_ADDRESS_FAMILY != 0 {
        return EbpfSocketEndpoint::UnsupportedAddressFamily { value: address_family };
    }
    EbpfSocketEndpoint::Missing
}

/// The octets of a sample that were captured.
fn take_captured(sample: EbpfSocketSample) -> (octets: Vec<u8>)
    requires
        sample_is_complete(sample),
    ensures
        octets@ == captured_octets(sample),
{
    let mut octets = sample.buffer;
    octets.truncate(sample.captured_len as usize);
    assert(octets@ =~= captured_octets(sample));
    octets
}

/// The observation that an event stands for.
pub fn process_observation_from_event(event: EbpfProcessProbeEvent) -> (observation:
    EbpfProcessObservation)
    requires
        event.well_formed(),
    ensures
        observation@ == observation_of(event),
{
    let process = EbpfObservedProcess {
        pid: event.pid,
        tgid: event.tgid,
        uid: event.uid,
        gid: event.gid,
        command: event.command,
    };
    let flags: u16 = event.flags;
    match event.body {
        EbpfProcessProbeEventBody::ConnectTracepointObserved(connect) => {
            let endpoint = socket_flow_endpoint_from_flags(
                flags,
                connect.address_family,
                connect.remote_port,
                &connect.remote_address,
            );
            EbpfProcessObservation::Connect(
                EbpfConnectTracepointObservation {
                    process,
                    fd: connect.fd,
                    addrlen: connect.addrlen,
                    fd_table_epoch: connect.fd_table_epoch,
                    fd_generation: connect.fd_generation,
                    endpoint,
                },
            )
        },
        EbpfProcessProbeEventBody::AcceptTracepointObserved(accept) => {
            let endpoint = socket_flow_endpoint_from_flags(
                flags,
                accept.address_family,
                accept.remote_port,
                &accept.remote_address,
            );
            EbpfProcessObservation::Accept(
                EbpfAcceptTracepointObservation {
                    process,
                    fd: accept.fd,
                    listen_fd: accept.listen_fd,
                    addrlen: accept.addrlen,
                    fd_table_epoch: accept.fd_table_epoch,
                    fd_generation: accept.fd_generation,
                    endpoint,
                },
            )
        },
        EbpfProcessProbeEventBody::CloseTracepointObserved(close) => EbpfProcessObservation::Close(
            EbpfCloseTracepointObservation {
                process,
                fd: close.fd,
                fd_generation: close.fd_generation,
            },
        ),
        EbpfProcessProbeEventBody::CloseRangeTracepointObserved(close_range) =>
            EbpfProcessObservation::CloseRange(
                EbpfCloseRangeTracepointObservation {
                    process,
                    first_fd: close_range.first_fd,
                    last_fd: close_range.last_fd,
                },
            ),
        EbpfProcessProbeEventBody::ProcessExitObserved => EbpfProcessObservation::ProcessLifecycle(
            EbpfProcessLifecycleObservation { process, kind: EbpfProcessLifecycleKind::Exit },
        ),
        EbpfProcessProbeEventBody::ProcessExecObserved => EbpfProcessObservation::ProcessLifecycle(
            EbpfProcessLifecycleObservation { process, kind: EbpfProcessLifecycleKind::Exec },
        ),
        EbpfProcessProbeEventBody::SocketWriteSampled(sample) => EbpfProcessObservation::Write(
            EbpfSocketWriteObservation {
                process,
                fd: sample.fd,
                fd_generation: sample.fd_generation,
                original_len: sample.original_len,
                buffer: take_captured(sample),
                truncated: flags & EBPF_SOCKET_WRITE_TRUNCATED != 0,
                read_failed: flags & EBPF_SOCKET_WRITE_READ_FAILED != 0,
                kernel_transfer: flags & EBPF_SOCKET_WRITE_KERNEL_TRANSFER != 0,
            },
        ),
        EbpfProcessProbeEventBody::SocketReadSampled(sample) => EbpfProcessObservation::Read(
            EbpfSocketReadObservation {
                process,
                fd: sample.fd,
                fd_generation: sample.fd_generation,
                original_len: sample.original_len,
                buffer: take_captured(sample),
                truncated: flags & EBPF_SOCKET_READ_TRUNCATED != 0,
                read_failed: flags & EBPF_SOCKET_READ_READ_FAILED != 0,
            },
        ),
    }
}

/// An IPv6 socket whose other end stands for an IPv4 address is the same endpoint as the IPv4
/// socket with that other end.
pub proof fn law_mapped_address_is_its_ipv4_address(
    flags: u16,
    port: u16,
    mapped: Seq<u8>,
    plain: Seq<u8>,
)
    requires
        mapped.len() == 16,
        plain.len() == 16,
        forall|index: int| 0 <= index < 10 ==> #[trigger] mapped[index] == 0,
        mapped[10] == 0xff,
        mapped[11] == 0xff,
        mapped.subrange(12, 16) == plain.subrange(0, 4),
        flags & EBPF_SOCKET_FLOW_REMOTE_ENDPOINT_VALID != 0,
    ensures
        socket_flow_endpoint(flags, EBPF_ADDRESS_FAMILY_INET6, port, mapped)
            == socket_flow_endpoint(flags, EBPF_ADDRESS_FAMILY_INET, port, plain),
{
    let low = mapped.subrange(12, 16);
    lemma_zero_octets(mapped.take(10));
    assert(mapped.take(11).drop_last() =~= mapped.take(10));
    assert(mapped.take(12).drop_last() =~= mapped.take(11));
    assert(big_endian(mapped.take(11)) == 0xff);
    assert(big_endian(mapped.take(12)) == 0xffff);
    assert(mapped =~= mapped.take(12) + low);
    crate::octets::lemma_big_endian_concat(mapped.take(12), low);
    crate::octets::lemma_big_endian_bound(low);
    assert(crate::octets::octet_power(4) == 0x1_0000_0000) by {
        reveal_with_fuel(crate::octets::octet_power, 5);
    }
    let number = big_endian(mapped);
    assert(number == 0xffff * 0x1_0000_0000 + big_endian(low));
    assert(number / 0x1_0000_0000 == 0xffff);
    assert(number % 0x1_0000_0000 == big_endian(low));
}

proof fn lemma_zero_octets(octets: Seq<u8>)
    requires
        forall|index: int| 0 <= index < octets.len() ==> #[trigger] octets[index] == 0,
    ensures
        big_endian(octets) == 0,
    decreases octets.len(),
{
    if octets.len() > 0 {
        lemma_zero_octets(octets.drop_last());
    }
}

} // verus!
