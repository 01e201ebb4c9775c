//! How segments, packets and frames are written down in octets.
//!
//! What is written down here is read back by the decoder, and the decoder reads nothing else.
use vstd::prelude::*;

use crate::address::IpAddress;
use crate::libpcap::decoder::{LinkLayer, TcpFlags, TcpSegmentView};

verus! {

/// A number in so many octets, the one that counts most first.
pub open spec fn written(number: nat, count: nat) -> Seq<u8>
    decreases count,
{
    if count == 0 {
        Seq::empty()
    } else {
        written(number / 256, (count - 1) as nat).push((number % 256) as u8)
    }
}

/// What a TCP header holds besides what a segment tells: reserved bits, the flags for pushed and
/// for other things, the window with what follows it, and options in whole words.
#[verifier::ext_equal]
pub struct TcpExtras {
    pub reserved: u8,
    pub push: bool,
    pub other_flags: u8,
    pub window: Seq<u8>,
    pub options: Seq<u8>,
}

impl TcpExtras {
    pub open spec fn fits(self) -> bool {
        &&& self.reserved < 16
        &&& self.other_flags < 8
        &&& self.window.len() == 6
        &&& self.options.len() <= 40
        &&& self.options.len() % 4 == 0
    }
}

pub open spec fn bit(set: bool, value: int) -> int {
    if set {
        value
    } else {
        0
    }
}

/// The octet that holds the flags of a TCP header.
pub open spec fn flag_octet(flags: TcpFlags, push: bool, other_flags: u8) -> u8 {
    (bit(flags.fin, 1) + bit(flags.syn, 2) + bit(flags.rst, 4) + bit(push, 8) + bit(flags.ack, 16)
        + 32 * other_flags) as u8
}

/// A TCP header without its options.
pub open spec fn tcp_header(segment: TcpSegmentView, extras: TcpExtras) -> Seq<u8> {
    written(segment.source_port as nat, 2) + written(segment.destination_port as nat, 2) + written(
        segment.sequence as nat,
        4,
    ) + written(segment.acknowledgment as nat, 4) + seq![
        ((5 + extras.options.len() / 4) * 16 + extras.reserved) as u8,
        flag_octet(segment.flags, extras.push, extras.other_flags),
    ] + extras.window
}

/// A TCP segment in octets.
pub open spec fn tcp_written(segment: TcpSegmentView, extras: TcpExtras) -> Seq<u8> {
    tcp_header(segment, extras) + extras.options + segment.payload
}

/// What an IPv4 header holds besides what a segment tells, and what lies behind the packet.
#[verifier::ext_equal]
pub struct Ipv4Extras {
    pub service: u8,
    pub identification: Seq<u8>,
    pub reserved: bool,
    pub dont_fragment: bool,
    pub time_to_live: u8,
    pub checksum: Seq<u8>,
    pub options: Seq<u8>,
    pub padding: Seq<u8>,
}

impl Ipv4Extras {
    pub open spec fn fits(self) -> bool {
        &&& self.identification.len() == 2
        &&& self.checksum.len() == 2
        &&& self.options.len() <= 40
        &&& self.options.len() % 4 == 0
    }
}

/// The header of an IPv4 packet that is not a fragment, without its options.
pub open spec fn ipv4_header(
    source: u32,
    destination: u32,
    length: nat,
    extras: Ipv4Extras,
) -> Seq<u8> {
    seq![(0x40 + 5 + extras.options.len() / 4) as u8, extras.service] + written(
        20 + extras.options.len() + length,
        2,
    ) + extras.identification + seq![
        (bit(extras.reserved, 0x80) + bit(extras.dont_fragment, 0x40)) as u8,
        0,
        extras.time_to_live,
        6,
    ] + extras.checksum + written(source as nat, 4) + written(destination as nat, 4)
}

/// A whole IPv4 packet in octets. It is not a fragment.
pub open spec fn ipv4_written(
    source: u32,
    destination: u32,
    content: Seq<u8>,
    extras: Ipv4Extras,
) -> Seq<u8> {
    ipv4_header(source, destination, content.len(), extras) + extras.options + content
        + extras.padding
}

/// What an IPv6 header holds besides what a segment tells, and what lies behind the packet.
#[verifier::ext_equal]
pub struct Ipv6Extras {
    pub class: u8,
    pub label: Seq<u8>,
    pub hop_limit: u8,
    pub padding: Seq<u8>,
}

impl Ipv6Extras {
    pub open spec fn fits(self) -> bool {
        self.class < 16 && self.label.len() == 3
    }
}

/// A whole IPv6 packet in octets, without extension headers.
pub open spec fn ipv6_written(
    source: u128,
    destination: u128,
    content: Seq<u8>,
    extras: Ipv6Extras,
) -> Seq<u8> {
    seq![(0x60 + extras.class) as u8] + extras.label + written(content.len(), 2) + seq![
        6,
        extras.hop_limit,
    ] + written(source as nat, 16) + written(destination as nat, 16) + content + extras.padding
}

/// A VLAN tag: its type, and what it says.
#[verifier::ext_equal]
pub struct VlanTag {
    pub outer: bool,
    pub old: bool,
    pub control: Seq<u8>,
}

pub open spec fn tag_type(tag: VlanTag) -> Seq<u8> {
    if tag.outer {
        seq![0x88, 0xa8]
    } else if tag.old {
        seq![0x91, 0x00]
    } else {
        seq![0x81, 0x00]
    }
}

/// Tags, and what follows them.
pub open spec fn tags_written(tags: Seq<VlanTag>, rest: Seq<u8>) -> Seq<u8>
    decreases tags.len(),
{
    if tags.len() == 0 {
        rest
    } else {
        tag_type(tags[0]) + tags[0].control + tags_written(tags.drop_first(), rest)
    }
}

/// The Ethernet type of the two kinds of packets.
pub open spec fn packet_type(six: bool) -> Seq<u8> {
    if six {
        seq![0x86, 0xdd]
    } else {
        seq![0x08, 0x00]
    }
}

/// Whether a family number of a loopback frame stands for the kind of packet on some system.
pub open spec fn is_family(number: nat, six: bool) -> bool {
    if six {
        number == 10 || number == 24 || number == 28 || number == 30
    } else {
        number == 2
    }
}

/// Whether `frame` holds `packet` behind what a link puts before it. `native_family` is what the
/// machine reads at the start of a loopback frame.
pub open spec fn is_framed(
    link: LinkLayer,
    frame: Seq<u8>,
    native_family: u32,
    six: bool,
    packet: Seq<u8>,
) -> bool {
    match link {
        LinkLayer::Ethernet => exists|addresses: Seq<u8>, tags: Seq<VlanTag>|
            #![trigger addresses + tags_written(tags, packet_type(six) + packet)]
            addresses.len() == 12 && (forall|index: int|
                0 <= index < tags.len() ==> (#[trigger] tags[index]).control.len() == 2) && frame
                == addresses + tags_written(tags, packet_type(six) + packet),
        LinkLayer::LinuxSll => exists|before: Seq<u8>|
            #![trigger before + packet_type(six)]
            before.len() == 14 && frame == before + packet_type(six) + packet,
        LinkLayer::LinuxSll2 => exists|behind: Seq<u8>|
            #![trigger packet_type(six) + behind]
            behind.len() == 18 && frame == packet_type(six) + behind + packet,
        LinkLayer::Raw => frame == packet && packet.len() > 0 && packet[0] / 16 == if six {
            6int
        } else {
            4
        },
        LinkLayer::Ipv4 => frame == packet && !six,
        LinkLayer::Ipv6 => frame == packet && six,
        LinkLayer::Null | LinkLayer::Loop => exists|number: u32|
            #![trigger written(number as nat, 4)]
            frame == written(number as nat, 4) + packet && (is_family(number as nat, six)
                || is_family(native_family as nat, six)) && (six ==> number != 2 && native_family
                != 2),
        LinkLayer::Other => false,
    }
}

/// Whether `packet` is a segment in a whole packet of its kind.
pub open spec fn is_packed(packet: Seq<u8>, six: bool, segment: TcpSegmentView) -> bool {
    exists|extras: TcpExtras| #[trigger]
        extras.fits() && (if six {
            is_packed_in_ipv6(packet, segment, tcp_written(segment, extras))
        } else {
            is_packed_in_ipv4(packet, segment, tcp_written(segment, extras))
        })
}

pub open spec fn is_packed_in_ipv4(
    packet: Seq<u8>,
    segment: TcpSegmentView,
    content: Seq<u8>,
) -> bool {
    match (segment.source, segment.destination) {
        (IpAddress::V4(source), IpAddress::V4(destination)) => exists|extras: Ipv4Extras| #[trigger]
            extras.fits() && 20 + extras.options.len() + content.len() < 0x1_0000 && packet
                == ipv4_written(source, destination, content, extras),
        _ => false,
    }
}

pub open spec fn is_packed_in_ipv6(
    packet: Seq<u8>,
    segment: TcpSegmentView,
    content: Seq<u8>,
) -> bool {
    match (segment.source, segment.destination) {
        (IpAddress::V6(source), IpAddress::V6(destination)) => exists|extras: Ipv6Extras| #[trigger]
            extras.fits() && content.len() < 0x1_0000 && packet == ipv6_written(
                source,
                destination,
                content,
                extras,
            ),
        _ => false,
    }
}

/// Whether a frame holds a segment.
pub open spec fn carries(
    link: LinkLayer,
    frame: Seq<u8>,
    native_family: u32,
    segment: TcpSegmentView,
) -> bool {
    exists|six: bool, packet: Seq<u8>| #[trigger]
        is_framed(link, frame, native_family, six, packet) && is_packed(packet, six, segment)
}

} // verus!
