//! From a captured frame to the TCP segment inside.
use vstd::prelude::*;
use vstd::slice::slice_subrange;

use crate::address::{IpAddress, TcpEndpoint};
use crate::libpcap::tcp_seq::{advance, seq_advance};
use crate::octets::{be_u128, be_u16, be_u32, big_endian, big_endian_at, native_reading, native_u32};

verus! {

pub const ETHERTYPE_IPV4: u16 = 0x0800;

pub const ETHERTYPE_8021Q: u16 = 0x8100;

pub const ETHERTYPE_IPV6: u16 = 0x86dd;

pub const ETHERTYPE_8021AD: u16 = 0x88a8;

pub const ETHERTYPE_9100: u16 = 0x9100;

pub const IPPROTO_TCP: u8 = 6;

pub const IPV4_MIN_HEADER_LEN: usize = 20;

pub const IPV6_HEADER_LEN: usize = 40;

pub const TCP_MIN_HEADER_LEN: usize = 20;

pub const LOOPBACK_AF_INET: u32 = 2;

pub const LOOPBACK_AF_INET6_LINUX: u32 = 10;

pub const LOOPBACK_AF_INET6_NETBSD_OPENBSD: u32 = 24;

pub const LOOPBACK_AF_INET6_FREEBSD: u32 = 28;

pub const LOOPBACK_AF_INET6_DARWIN: u32 = 30;

/// What a captured frame starts with.
#[derive(Debug, Clone, Copy, PartialEq, Eq, Structural)]
pub enum LinkLayer {
    Ethernet,
    LinuxSll,
    LinuxSll2,
    Raw,
    Ipv4,
    Ipv6,
    Null,
    Loop,
    Other,
}

/// The flags of a TCP header that open and close connections.
#[derive(Debug, Clone, Copy, PartialEq, Eq, Structural)]
pub struct TcpFlags {
    pub syn: bool,
    pub ack: bool,
    pub fin: bool,
    pub rst: bool,
}

/// The flags in the flag octet of a TCP header.
pub open spec fn tcp_flags(octet: u8) -> TcpFlags {
    TcpFlags {
        syn: octet / 2 % 2 == 1,
        ack: octet / 16 % 2 == 1,
        fin: octet % 2 == 1,
        rst: octet / 4 % 2 == 1,
    }
}

impl TcpFlags {
    fn from_byte(octet: u8) -> (flags: TcpFlags)
        ensures
            flags == tcp_flags(octet),
    {
        TcpFlags {
            syn: octet / 2 % 2 == 1,
            ack: octet / 16 % 2 == 1,
            fin: octet % 2 == 1,
            rst: octet / 4 % 2 == 1,
        }
    }
}

/// A TCP segment with the ends that it travels between.
#[derive(Debug, Clone, Copy, PartialEq, Eq)]
pub struct DecodedTcpSegment<'a> {
    pub source: IpAddress,
    pub destination: IpAddress,
    pub source_port: u16,
    pub destination_port: u16,
    pub sequence: u32,
    pub acknowledgment: u32,
    pub flags: TcpFlags,
    pub payload: &'a [u8],
}

#[verifier::ext_equal]
pub struct TcpSegmentView {
    pub source: IpAddress,
    pub destination: IpAddress,
    pub source_port: u16,
    pub destination_port: u16,
    pub sequence: u32,
    pub acknowledgment: u32,
    pub flags: TcpFlags,
    pub payload: Seq<u8>,
}

impl<'a> View for DecodedTcpSegment<'a> {
    type V = TcpSegmentView;

    open spec fn view(&self) -> TcpSegmentView {
        TcpSegmentView {
            source: self.source,
            destination: self.destination,
            source_port: self.source_port,
            destination_port: self.destination_port,
            sequence: self.sequence,
            acknowledgment: self.acknowledgment,
            flags: self.flags,
            payload: self.payload@,
        }
    }
}

impl TcpSegmentView {
    pub open spec fn source_end(self) -> TcpEndpoint {
        TcpEndpoint { address: self.source, port: self.source_port }
    }

    pub open spec fn destination_end(self) -> TcpEndpoint {
        TcpEndpoint { address: self.destination, port: self.destination_port }
    }

    /// The sequence number of the first octet of payload: a SYN takes one before it.
    pub open spec fn first_sequence(self) -> u32 {
        seq_advance(
            self.sequence,
            if self.flags.syn {
                1
            } else {
                0
            },
        )
    }

    /// The sequence number behind the payload, where the segment closes its direction.
    pub open spec fn closing_sequence(self) -> Option<u32> {
        if self.flags.fin || self.flags.rst {
            Some(seq_advance(self.first_sequence(), self.payload.len()))
        } else {
            None
        }
    }

    /// Whether the segment opens or closes something.
    pub open spec fn signals_lifecycle(self) -> bool {
        self.flags.syn || self.flags.fin || self.flags.rst
    }

    /// Whether the segment acknowledges a SYN with the given sequence number.
    pub open spec fn acknowledges(self, sequence: u32) -> bool {
        self.flags.ack && self.acknowledgment == seq_advance(sequence, 1)
    }
}

/// The IP packet in a frame.
#[verifier::ext_equal]
pub enum IpPacketView {
    V4(Seq<u8>),
    V6(Seq<u8>),
}

/// The packet that an Ethernet type announces.
pub open spec fn packet_of_ethertype(ethertype: nat, packet: Seq<u8>) -> Option<IpPacketView> {
    if ethertype == ETHERTYPE_IPV4 {
        Some(IpPacketView::V4(packet))
    } else if ethertype == ETHERTYPE_IPV6 {
        Some(IpPacketView::V6(packet))
    } else {
        None
    }
}

/// Whether an Ethernet type announces a VLAN tag.
pub open spec fn is_vlan_tag(ethertype: nat) -> bool {
    ethertype == ETHERTYPE_8021Q || ethertype == ETHERTYPE_8021AD || ethertype == ETHERTYPE_9100
}

/// The packet behind any number of VLAN tags, the first of which ends before `offset`.
pub open spec fn packet_behind_tags(frame: Seq<u8>, offset: int, ethertype: nat) -> Option<
    IpPacketView,
>
    decreases frame.len() - offset,
{
    if !is_vlan_tag(ethertype) {
        packet_of_ethertype(ethertype, frame.skip(offset))
    } else if frame.len() < offset + 4 {
        None
    } else {
        packet_behind_tags(frame, offset + 4, big_endian_at(frame, offset + 2, 2))
    }
}

/// Whether a loopback family number stands for IPv6 on some system.
pub open spec fn is_ipv6_family(family: nat) -> bool {
    family == LOOPBACK_AF_INET6_LINUX || family == LOOPBACK_AF_INET6_NETBSD_OPENBSD || family
        == LOOPBACK_AF_INET6_FREEBSD || family == LOOPBACK_AF_INET6_DARWIN
}

/// The IP packet in a frame. `native_family` is the family number at the start of a loopback
/// frame as the capturing machine reads it; the same number in network order counts too.
pub open spec fn ip_packet_of(
    link: LinkLayer,
    frame: Seq<u8>,
    native_family: u32,
) -> Option<IpPacketView> {
    match link {
        LinkLayer::Ethernet => if frame.len() < 14 {
            None
        } else {
            packet_behind_tags(frame, 14, big_endian_at(frame, 12, 2))
        },
        LinkLayer::LinuxSll => if frame.len() < 16 {
            None
        } else {
            packet_of_ethertype(big_endian_at(frame, 14, 2), frame.skip(16))
        },
        LinkLayer::LinuxSll2 => if frame.len() < 20 {
            None
        } else {
            packet_of_ethertype(big_endian_at(frame, 0, 2), frame.skip(20))
        },
        LinkLayer::Raw => if frame.len() == 0 {
            None
        } else if frame[0] / 16 == 4 {
            Some(IpPacketView::V4(frame))
        } else if frame[0] / 16 == 6 {
            Some(IpPacketView::V6(frame))
        } else {
            None
        },
        LinkLayer::Ipv4 => Some(IpPacketView::V4(frame)),
        LinkLayer::Ipv6 => Some(IpPacketView::V6(frame)),
        LinkLayer::Null | LinkLayer::Loop => if frame.len() < 4 {
            None
        } else {
            let family = big_endian_at(frame, 0, 4);
            if native_family == LOOPBACK_AF_INET || family == LOOPBACK_AF_INET {
                Some(IpPacketView::V4(frame.skip(4)))
            } else if is_ipv6_family(native_family as nat) || is_ipv6_family(family) {
                Some(IpPacketView::V6(frame.skip(4)))
            } else {
                None
            }
        },
        LinkLayer::Other => None,
    }
}

/// The segment in the TCP part of a packet.
pub open spec fn tcp_segment_of(
    source: IpAddress,
    destination: IpAddress,
    tcp: Seq<u8>,
) -> Option<TcpSegmentView> {
    if tcp.len() < TCP_MIN_HEADER_LEN {
        None
    } else {
        let header_length = tcp[12] / 16 * 4;
        if header_length < TCP_MIN_HEADER_LEN || tcp.len() < header_length {
            None
        } else {
            Some(
                TcpSegmentView {
                    source,
                    destination,
                    source_port: big_endian_at(tcp, 0, 2) as u16,
                    destination_port: big_endian_at(tcp, 2, 2) as u16,
                    sequence: big_endian_at(tcp, 4, 4) as u32,
                    acknowledgment: big_endian_at(tcp, 8, 4) as u32,
                    flags: tcp_flags(tcp[13]),
                    payload: tcp.skip(header_length as int),
                },
            )
        }
    }
}

/// The segment in an IPv4 packet: complete, unfragmented, and TCP.
pub open spec fn ipv4_segment_of(packet: Seq<u8>) -> Option<TcpSegmentView> {
    if packet.len() < IPV4_MIN_HEADER_LEN || packet[0] / 16 != 4 {
        None
    } else {
        let header_length = packet[0] % 16 * 4;
        let total_length = big_endian_at(packet, 2, 2);
        if header_length < IPV4_MIN_HEADER_LEN || packet.len() < header_length || packet[9]
            != IPPROTO_TCP {
            None
        } else if big_endian_at(packet, 6, 2) % 0x4000 != 0 {
            None
        } else if total_length < header_length || packet.len() < total_length {
            None
        } else {
            tcp_segment_of(
                IpAddress::V4(big_endian_at(packet, 12, 4) as u32),
                IpAddress::V4(big_endian_at(packet, 16, 4) as u32),
                packet.subrange(header_length as int, total_length as int),
            )
        }
    }
}

/// The segment in an IPv6 packet: complete, without extension headers, and TCP.
pub open spec fn ipv6_segment_of(packet: Seq<u8>) -> Option<TcpSegmentView> {
    if packet.len() < IPV6_HEADER_LEN || packet[0] / 16 != 6 || packet[6] != IPPROTO_TCP {
        None
    } else {
        let total_length = IPV6_HEADER_LEN + big_endian_at(packet, 4, 2);
        if packet.len() < total_length {
            None
        } else {
            tcp_segment_of(
                IpAddress::V6(big_endian_at(packet, 8, 16) as u128),
                IpAddress::V6(big_endian_at(packet, 24, 16) as u128),
                packet.subrange(IPV6_HEADER_LEN as int, total_length as int),
            )
        }
    }
}

/// The TCP segment in a frame.
pub open spec fn segment_of(
    link: LinkLayer,
    frame: Seq<u8>,
    native_family: u32,
) -> Option<TcpSegmentView> {
    match ip_packet_of(link, frame, native_family) {
        None => None,
        Some(IpPacketView::V4(packet)) => ipv4_segment_of(packet),
        Some(IpPacketView::V6(packet)) => ipv6_segment_of(packet),
    }
}

/// The view of an optional segment.
pub open spec fn segment_view(segment: Option<DecodedTcpSegment<'_>>) -> Option<TcpSegmentView> {
    match segment {
        Some(inner) => Some(inner@),
        None => None,
    }
}

enum IpPacket<'a> {
    V4(&'a [u8]),
    V6(&'a [u8]),
}

spec fn packet_view(packet: Option<IpPacket<'_>>) -> Option<IpPacketView> {
    match packet {
        Some(IpPacket::V4(octets)) => Some(IpPacketView::V4(octets@)),
        Some(IpPacket::V6(octets)) => Some(IpPacketView::V6(octets@)),
        None => None,
    }
}

fn rest_of(octets: &[u8], start: usize) -> (rest: &[u8])
    requires
        start <= octets@.len(),
    ensures
        rest@ == octets@.skip(start as int),
{
    let rest = slice_subrange(octets, start, octets.len());
    assert(rest@ =~= octets@.skip(start as int));
    rest
}

fn ip_packet_from_ethertype(ethertype: u16, packet: &[u8]) -> (result: Option<IpPacket<'_>>)
    ensures
        packet_view(result) == packet_of_ethertype(ethertype as nat, packet@),
{
    if ethertype == ETHERTYPE_IPV4 {
        Some(IpPacket::V4(packet))
    } else if ethertype == ETHERTYPE_IPV6 {
        Some(IpPacket::V6(packet))
    } else {
        None
    }
}

fn ethernet_ip_packet(frame: &[u8]) -> (result: Option<IpPacket<'_>>)
    ensures
        packet_view(result) == ip_packet_of(LinkLayer::Ethernet, frame@, 0),
{
    if frame.len() < 14 {
        return None;
    }
    let mut offset: usize = 14;
    let mut ethertype: u16 = be_u16(frame, 12);
    while ethertype == ETHERTYPE_8021Q || ethertype == ETHERTYPE_8021AD || ethertype
        == ETHERTYPE_9100
        invariant
            14 <= offset <= frame.len(),
            packet_behind_tags(frame@, offset as int, ethertype as nat) == ip_packet_of(
                LinkLayer::Ethernet,
                frame@,
                0,
            ),
        decreases frame.len() - offset,
    {
        if frame.len() - offset < 4 {
            return None;
        }
        ethertype = be_u16(frame, offset + 2);
        offset = offset + 4;
    }
    ip_packet_from_ethertype(ethertype, rest_of(frame, offset))
}

fn loopback_family_is_ipv6(family: u32) -> (ipv6: bool)
    ensures
        ipv6 == is_ipv6_family(family as nat),
{
    family == LOOPBACK_AF_INET6_LINUX || family == LOOPBACK_AF_INET6_NETBSD_OPENBSD || family
        == LOOPBACK_AF_INET6_FREEBSD || family == LOOPBACK_AF_INET6_DARWIN
}

fn ip_packet(link: LinkLayer, frame: &[u8], native_family: u32) -> (result: Option<IpPacket<'_>>)
    ensures
        packet_view(result) == ip_packet_of(link, frame@, native_family),
{
    match link {
        LinkLayer::Ethernet => ethernet_ip_packet(frame),
        LinkLayer::LinuxSll => {
            if frame.len() < 16 {
                return None;
            }
            ip_packet_from_ethertype(be_u16(frame, 14), rest_of(frame, 16))
        },
        LinkLayer::LinuxSll2 => {
            if frame.len() < 20 {
                return None;
            }
            ip_packet_from_ethertype(be_u16(frame, 0), rest_of(frame, 20))
        },
        LinkLayer::Raw => {
            if frame.len() == 0 {
                return None;
            }
            let version: u8 = frame[0] / 16;
            if version == 4 {
                Some(IpPacket::V4(frame))
            } else if version == 6 {
                Some(IpPacket::V6(frame))
            } else {
                None
            }
        },
        LinkLayer::Ipv4 => Some(IpPacket::V4(frame)),
        LinkLayer::Ipv6 => Some(IpPacket::V6(frame)),
        LinkLayer::Null | LinkLayer::Loop => {
            if frame.len() < 4 {
                return None;
            }
            let family: u32 = be_u32(frame, 0);
            if native_family == LOOPBACK_AF_INET || family == LOOPBACK_AF_INET {
                Some(IpPacket::V4(rest_of(frame, 4)))
            } else if loopback_family_is_ipv6(native_family) || loopback_family_is_ipv6(family) {
                Some(IpPacket::V6(rest_of(frame, 4)))
            } else {
                None
            }
        },
        LinkLayer::Other => None,
    }
}

fn decode_tcp_segment(source: IpAddress, destination: IpAddress, tcp: &[u8]) -> (segment: Option<
    DecodedTcpSegment<'_>,
>)
    ensures
        segment_view(segment) == tcp_segment_of(source, destination, tcp@),
{
    if tcp.len() < TCP_MIN_HEADER_LEN {
        return None;
    }
    let header_length: usize = (tcp[12] / 16) as usize * 4;
    if header_length < TCP_MIN_HEADER_LEN || tcp.len() < header_length {
        return None;
    }
    Some(
        DecodedTcpSegment {
            source,
            destination,
            source_port: be_u16(tcp, 0),
            destination_port: be_u16(tcp, 2),
            sequence: be_u32(tcp, 4),
            acknowledgment: be_u32(tcp, 8),
            flags: TcpFlags::from_byte(tcp[13]),
            payload: rest_of(tcp, header_length),
        },
    )
}

fn decode_ipv4_tcp_segment(packet: &[u8]) -> (segment: Option<DecodedTcpSegment<'_>>)
    ensures
        segment_view(segment) == ipv4_segment_of(packet@),
{
    if packet.len() < IPV4_MIN_HEADER_LEN || packet[0] / 16 != 4 {
        return None;
    }
    let header_length: usize = (packet[0] % 16) as usize * 4;
    if header_length < IPV4_MIN_HEADER_LEN || packet.len() < header_length || packet[9]
        != IPPROTO_TCP {
        return None;
    }
    if be_u16(packet, 6) % 0x4000 != 0 {
        return None;
    }
    let total_length: usize = be_u16(packet, 2) as usize;
    if total_length < header_length || packet.len() < total_length {
        return None;
    }
    decode_tcp_segment(
        IpAddress::V4(be_u32(packet, 12)),
        IpAddress::V4(be_u32(packet, 16)),
        slice_subrange(packet, header_length, total_length),
    )
}

fn decode_ipv6_tcp_segment(packet: &[u8]) -> (segment: Option<DecodedTcpSegment<'_>>)
    ensures
        segment_view(segment) == ipv6_segment_of(packet@),
{
    if packet.len() < IPV6_HEADER_LEN || packet[0] / 16 != 6 || packet[6] != IPPROTO_TCP {
        return None;
    }
    let total_length: usize = IPV6_HEADER_LEN + be_u16(packet, 4) as usize;
    if packet.len() < total_length {
        return None;
    }
    decode_tcp_segment(
        IpAddress::V6(be_u128(packet, 8)),
        IpAddress::V6(be_u128(packet, 24)),
        slice_subrange(packet, IPV6_HEADER_LEN, total_length),
    )
}

/// Whether `number` is the machine's reading of the first four octets of `frame`, which is in one
/// of the two orders.
pub open spec fn reads_as(frame: Seq<u8>, number: u32) -> bool {
    frame.len() >= 4 ==> native_reading(frame.take(4), number) && (number == big_endian(
        frame.take(4),
    ) || number == big_endian(frame.take(4).reverse()))
}

impl<'a> DecodedTcpSegment<'a> {
    /// The TCP segment in a frame, where the machine reads the start of a loopback frame as
    /// `native_family`.
    pub fn decode_with_family(link: LinkLayer, frame: &'a [u8], native_family: u32) -> (segment:
        Option<DecodedTcpSegment<'a>>)
        ensures
            segment_view(segment) == segment_of(link, frame@, native_family),
    {
        match ip_packet(link, frame, native_family) {
            None => None,
            Some(IpPacket::V4(packet)) => decode_ipv4_tcp_segment(packet),
            Some(IpPacket::V6(packet)) => decode_ipv6_tcp_segment(packet),
        }
    }

    /// The TCP segment in a frame. Only for loopback frames does the order in which the machine
    /// reads numbers matter.
    pub fn decode(link: LinkLayer, frame: &'a [u8]) -> (segment: Option<DecodedTcpSegment<'a>>)
        ensures
            exists|native_family: u32| #[trigger]
                reads_as(frame@, native_family) && segment_view(segment) == segment_of(
                    link,
                    frame@,
                    native_family,
                ),
    {
        let native_family: u32 = if frame.len() >= 4 {
            let octets: [u8; 4] = [frame[0], frame[1], frame[2], frame[3]];
            assert(octets@ =~= frame@.take(4));
            native_u32(octets)
        } else {
            0
        };
        assert(reads_as(frame@, native_family));
        DecodedTcpSegment::decode_with_family(link, frame, native_family)
    }

    pub fn source_endpoint(&self) -> (endpoint: TcpEndpoint)
        ensures
            endpoint == self@.source_end(),
    {
        TcpEndpoint::new(self.source, self.source_port)
    }

    pub fn destination_endpoint(&self) -> (endpoint: TcpEndpoint)
        ensures
            endpoint == self@.destination_end(),
    {
        TcpEndpoint::new(self.destination, self.destination_port)
    }

    pub fn has_lifecycle_signal(&self) -> (signal: bool)
        ensures
            signal == self@.signals_lifecycle(),
    {
        self.flags.syn || self.flags.fin || self.flags.rst
    }

    pub fn has_syn(&self) -> (syn: bool)
        ensures
            syn == self@.flags.syn,
    {
        self.flags.syn
    }

    pub fn has_syn_ack(&self) -> (syn_ack: bool)
        ensures
            syn_ack == (self@.flags.syn && self@.flags.ack),
    {
        self.flags.syn && self.flags.ack
    }

    pub fn acknowledges_syn_sequence(&self, sequence: u32) -> (acknowledges: bool)
        ensures
            acknowledges == self@.acknowledges(sequence),
    {
        self.flags.ack && self.acknowledgment == advance(sequence, 1)
    }

    pub fn has_fin(&self) -> (fin: bool)
        ensures
            fin == self@.flags.fin,
    {
        self.flags.fin
    }

    pub fn has_rst(&self) -> (rst: bool)
        ensures
            rst == self@.flags.rst,
    {
        self.flags.rst
    }

    pub fn payload_sequence(&self) -> (sequence: u32)
        ensures
            sequence == self@.first_sequence(),
    {
        let taken: usize = if self.flags.syn {
            1
        } else {
            0
        };
        advance(self.sequence, taken)
    }

    pub fn close_sequence(&self) -> (sequence: Option<u32>)
        ensures
            sequence == self@.closing_sequence(),
    {
        if self.flags.fin || self.flags.rst {
            Some(advance(self.payload_sequence(), self.payload.len()))
        } else {
            None
        }
    }
}

} // verus!
