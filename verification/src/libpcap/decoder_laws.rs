//! What is read from frames is what was written into them.
use vstd::prelude::*;

use crate::address::IpAddress;
use crate::libpcap::decoder::{
    ip_packet_of, ipv4_segment_of, ipv6_segment_of, packet_behind_tags, segment_of, tcp_flags,
    tcp_segment_of, IpPacketView, LinkLayer, TcpFlags, TcpSegmentView,
};
use crate::libpcap::tcp_seq::{law_advance_composes, seq_advance};
use crate::libpcap::wire::{
    bit, carries, flag_octet, ipv4_header, ipv4_written, ipv6_written, is_family, is_framed, is_packed, is_packed_in_ipv4,
    is_packed_in_ipv6, packet_type, tag_type, tags_written, tcp_header, tcp_written, written,
    Ipv4Extras, Ipv6Extras, TcpExtras, VlanTag,
};
use crate::octets::{big_endian, big_endian_at, lemma_big_endian_bound, octet_power};

verus! {

/// A number that fits in so many octets is read back from them.
pub proof fn law_written_number_is_read(number: nat, count: nat)
    requires
        number < octet_power(count),
    ensures
        written(number, count).len() == count,
        big_endian(written(number, count)) == number,
    decreases count,
{
    if count > 0 {
        law_written_number_is_read(number / 256, (count - 1) as nat);
        assert(written(number, count).drop_last() =~= written(number / 256, (count - 1) as nat));
    }
}

/// Octets are what their number is written as.
pub proof fn law_read_number_is_written(octets: Seq<u8>)
    ensures
        written(big_endian(octets), octets.len()) == octets,
    decreases octets.len(),
{
    if octets.len() > 0 {
        law_read_number_is_written(octets.drop_last());
        assert(octets.drop_last().push(octets.last()) =~= octets);
    }
}

proof fn lemma_powers()
    ensures
        octet_power(2) == 0x1_0000,
        octet_power(4) == 0x1_0000_0000,
        octet_power(16) == u128::MAX + 1,
{
    reveal_with_fuel(octet_power, 17);
}

proof fn lemma_read_at(octets: Seq<u8>, start: int, number: nat, count: nat)
    requires
        0 <= start,
        start + count <= octets.len(),
        number < octet_power(count),
        octets.subrange(start, start + count) == written(number, count),
    ensures
        big_endian_at(octets, start, count as int) == number,
{
    law_written_number_is_read(number, count);
}

proof fn lemma_flags(flags: TcpFlags, push: bool, other_flags: u8)
    requires
        other_flags < 8,
    ensures
        tcp_flags(flag_octet(flags, push, other_flags)) == flags,
{
    let octet = flag_octet(flags, push, other_flags);
    assert(octet == bit(flags.fin, 1) + bit(flags.syn, 2) + bit(flags.rst, 4) + bit(push, 8) + bit(
        flags.ack,
        16,
    ) + 32 * other_flags);
}

/// A segment is read back from its octets, whatever options its header holds.
pub proof fn law_written_segment_is_read(segment: TcpSegmentView, extras: TcpExtras)
    requires
        extras.fits(),
    ensures
        tcp_segment_of(segment.source, segment.destination, tcp_written(segment, extras)) == Some(
            segment,
        ),
{
    let tcp = tcp_written(segment, extras);
    lemma_powers();
    law_written_number_is_read(segment.source_port as nat, 2);
    law_written_number_is_read(segment.destination_port as nat, 2);
    law_written_number_is_read(segment.sequence as nat, 4);
    law_written_number_is_read(segment.acknowledgment as nat, 4);
    let head = tcp_header(segment, extras);
    assert(head.len() == 20);
    assert(tcp.subrange(0, 2) =~= written(segment.source_port as nat, 2));
    assert(tcp.subrange(2, 4) =~= written(segment.destination_port as nat, 2));
    assert(tcp.subrange(4, 8) =~= written(segment.sequence as nat, 4));
    assert(tcp.subrange(8, 12) =~= written(segment.acknowledgment as nat, 4));
    lemma_read_at(tcp, 0, segment.source_port as nat, 2);
    lemma_read_at(tcp, 2, segment.destination_port as nat, 2);
    lemma_read_at(tcp, 4, segment.sequence as nat, 4);
    lemma_read_at(tcp, 8, segment.acknowledgment as nat, 4);
    let words = 5 + extras.options.len() / 4;
    assert(tcp[12] == (words * 16 + extras.reserved) as u8);
    assert(tcp[12] / 16 == words);
    lemma_flags(segment.flags, extras.push, extras.other_flags);
    assert(tcp.skip(4 * words as int) =~= segment.payload);
}

proof fn lemma_flag_octet(octet: u8)
    ensures
        flag_octet(tcp_flags(octet), octet / 8 % 2 == 1, octet / 32) == octet,
        octet / 32 < 8,
{
    let half = octet / 2;
    let quarter = half / 2;
    let eighth = quarter / 2;
    let sixteenth = eighth / 2;
    assert(octet / 4 == quarter && octet / 8 == eighth && octet / 16 == sixteenth && octet / 32
        == sixteenth / 2) by (bit_vector)
        requires
            half == octet / 2,
            quarter == half / 2,
            eighth == quarter / 2,
            sixteenth == eighth / 2,
    ;
    let flags = tcp_flags(octet);
    assert(octet % 2 == bit(flags.fin, 1));
    assert(2 * (half % 2) == bit(flags.syn, 2));
    assert(4 * (quarter % 2) == bit(flags.rst, 4));
    assert(8 * (eighth % 2) == bit(eighth % 2 == 1, 8));
    assert(16 * (sixteenth % 2) == bit(flags.ack, 16));
}

/// What is read as a segment is the segment in octets.
pub proof fn law_read_segment_was_written(
    source: IpAddress,
    destination: IpAddress,
    tcp: Seq<u8>,
)
    ensures
        tcp_segment_of(source, destination, tcp) matches Some(segment) ==> segment.source == source
            && segment.destination == destination && exists|extras: TcpExtras| #[trigger]
            extras.fits() && tcp == tcp_written(segment, extras),
{
    if let Some(segment) = tcp_segment_of(source, destination, tcp) {
        let length = (tcp[12] / 16 * 4) as int;
        let extras = TcpExtras {
            reserved: tcp[12] % 16,
            push: tcp[13] / 8 % 2 == 1,
            other_flags: tcp[13] / 32,
            window: tcp.subrange(14, 20),
            options: tcp.subrange(20, length),
        };
        lemma_powers();
        lemma_flag_octet(tcp[13]);
        lemma_big_endian_bound(tcp.subrange(0, 2));
        lemma_big_endian_bound(tcp.subrange(2, 4));
        lemma_big_endian_bound(tcp.subrange(4, 8));
        lemma_big_endian_bound(tcp.subrange(8, 12));
        law_read_number_is_written(tcp.subrange(0, 2));
        law_read_number_is_written(tcp.subrange(2, 4));
        law_read_number_is_written(tcp.subrange(4, 8));
        law_read_number_is_written(tcp.subrange(8, 12));
        assert(extras.fits());
        assert(tcp_written(segment, extras) =~= tcp);
    }
}

proof fn lemma_ipv4_header(source: u32, destination: u32, length: nat, extras: Ipv4Extras)
    requires
        extras.fits(),
        20 + extras.options.len() + length < 0x1_0000,
    ensures
        ({
            let head = ipv4_header(source, destination, length, extras);
            &&& head.len() == 20
            &&& head[0] == 0x45 + extras.options.len() / 4
            &&& big_endian_at(head, 2, 2) == 20 + extras.options.len() + length
            &&& big_endian_at(head, 6, 2) % 0x4000 == 0
            &&& head[9] == 6
            &&& big_endian_at(head, 12, 4) == source
            &&& big_endian_at(head, 16, 4) == destination
        }),
{
    let head = ipv4_header(source, destination, length, extras);
    let total = 20 + extras.options.len() + length;
    lemma_powers();
    law_written_number_is_read(total, 2);
    law_written_number_is_read(source as nat, 4);
    law_written_number_is_read(destination as nat, 4);
    assert(head.len() == 20);
    assert(head.subrange(2, 4) =~= written(total, 2));
    lemma_read_at(head, 2, total, 2);
    assert(head.subrange(12, 16) =~= written(source as nat, 4));
    lemma_read_at(head, 12, source as nat, 4);
    assert(head.subrange(16, 20) =~= written(destination as nat, 4));
    lemma_read_at(head, 16, destination as nat, 4);
    lemma_two_octets(head, 6);
    assert(head[7] == 0);
    assert(head[6] == bit(extras.reserved, 0x80) + bit(extras.dont_fragment, 0x40));
}

/// An IPv4 packet brings what is read from its content.
proof fn lemma_written_ipv4(source: u32, destination: u32, content: Seq<u8>, extras: Ipv4Extras)
    requires
        extras.fits(),
        20 + extras.options.len() + content.len() < 0x1_0000,
    ensures
        ipv4_segment_of(ipv4_written(source, destination, content, extras)) == tcp_segment_of(
            IpAddress::V4(source),
            IpAddress::V4(destination),
            content,
        ),
{
    let packet = ipv4_written(source, destination, content, extras);
    let head = ipv4_header(source, destination, content.len(), extras);
    let length = (20 + extras.options.len()) as int;
    lemma_ipv4_header(source, destination, content.len(), extras);
    assert(packet.subrange(2, 4) =~= head.subrange(2, 4));
    assert(packet.subrange(6, 8) =~= head.subrange(6, 8));
    assert(packet.subrange(12, 16) =~= head.subrange(12, 16));
    assert(packet.subrange(16, 20) =~= head.subrange(16, 20));
    assert(packet[0] == head[0] && packet[9] == head[9]);
    assert(packet[0] % 16 * 4 == length);
    assert(packet.subrange(length, length + content.len()) =~= content);
}

/// An IPv6 packet brings what is read from its content.
proof fn lemma_written_ipv6(source: u128, destination: u128, content: Seq<u8>, extras: Ipv6Extras)
    requires
        extras.fits(),
        content.len() < 0x1_0000,
    ensures
        ipv6_segment_of(ipv6_written(source, destination, content, extras)) == tcp_segment_of(
            IpAddress::V6(source),
            IpAddress::V6(destination),
            content,
        ),
{
    let packet = ipv6_written(source, destination, content, extras);
    lemma_powers();
    law_written_number_is_read(content.len(), 2);
    law_written_number_is_read(source as nat, 16);
    law_written_number_is_read(destination as nat, 16);
    assert(packet.subrange(4, 6) =~= written(content.len(), 2));
    lemma_read_at(packet, 4, content.len(), 2);
    assert(packet.subrange(8, 24) =~= written(source as nat, 16));
    lemma_read_at(packet, 8, source as nat, 16);
    assert(packet.subrange(24, 40) =~= written(destination as nat, 16));
    lemma_read_at(packet, 24, destination as nat, 16);
    assert(packet[0] / 16 == 6);
    assert(packet[6] == 6);
    assert(packet.subrange(40, (40 + content.len()) as int) =~= content);
}

/// Reads a packet of one of the two kinds.
spec fn segment_in(packet: Seq<u8>, six: bool) -> Option<TcpSegmentView> {
    if six {
        ipv6_segment_of(packet)
    } else {
        ipv4_segment_of(packet)
    }
}

proof fn lemma_packed_is_read(packet: Seq<u8>, six: bool, segment: TcpSegmentView)
    requires
        is_packed(packet, six, segment),
    ensures
        segment_in(packet, six) == Some(segment),
{
    let extras = choose|extras: TcpExtras| #[trigger]
        extras.fits() && (if six {
            is_packed_in_ipv6(packet, segment, tcp_written(segment, extras))
        } else {
            is_packed_in_ipv4(packet, segment, tcp_written(segment, extras))
        });
    let content = tcp_written(segment, extras);
    law_written_segment_is_read(segment, extras);
    match (segment.source, segment.destination) {
        (IpAddress::V4(source), IpAddress::V4(destination)) => {
            let around = choose|around: Ipv4Extras| #[trigger]
                around.fits() && 20 + around.options.len() + content.len() < 0x1_0000 && packet
                    == ipv4_written(source, destination, content, around);
            lemma_written_ipv4(source, destination, content, around);
        },
        (IpAddress::V6(source), IpAddress::V6(destination)) => {
            let around = choose|around: Ipv6Extras| #[trigger]
                around.fits() && content.len() < 0x1_0000 && packet == ipv6_written(
                    source,
                    destination,
                    content,
                    around,
                );
            lemma_written_ipv6(source, destination, content, around);
        },
        _ => {},
    }
}

proof fn lemma_read_ipv4(packet: Seq<u8>)
    ensures
        ipv4_segment_of(packet) matches Some(segment) ==> is_packed(packet, false, segment),
{
    if let Some(segment) = ipv4_segment_of(packet) {
        let length = (packet[0] % 16 * 4) as int;
        let total = big_endian_at(packet, 2, 2) as int;
        let content = packet.subrange(length, total);
        let source = big_endian_at(packet, 12, 4) as u32;
        let destination = big_endian_at(packet, 16, 4) as u32;
        let around = Ipv4Extras {
            service: packet[1],
            identification: packet.subrange(4, 6),
            reserved: packet[6] / 0x80 == 1,
            dont_fragment: packet[6] / 0x40 % 2 == 1,
            time_to_live: packet[8],
            checksum: packet.subrange(10, 12),
            options: packet.subrange(20, length),
            padding: packet.skip(total),
        };
        lemma_powers();
        lemma_big_endian_bound(packet.subrange(2, 4));
        lemma_big_endian_bound(packet.subrange(12, 16));
        lemma_big_endian_bound(packet.subrange(16, 20));
        law_read_number_is_written(packet.subrange(2, 4));
        law_read_number_is_written(packet.subrange(12, 16));
        law_read_number_is_written(packet.subrange(16, 20));
        let part = packet.subrange(6, 8);
        assert(part.drop_last().drop_last() =~= Seq::<u8>::empty());
        reveal_with_fuel(big_endian, 3);
        assert(big_endian(part) == packet[6] * 256 + packet[7]);
        assert(packet[7] == 0 && packet[6] % 0x40 == 0);
        assert(around.fits());
        assert(ipv4_written(source, destination, content, around) =~= packet);
        law_read_segment_was_written(IpAddress::V4(source), IpAddress::V4(destination), content);
        assert(is_packed_in_ipv4(packet, segment, content));
    }
}

proof fn lemma_read_ipv6(packet: Seq<u8>)
    ensures
        ipv6_segment_of(packet) matches Some(segment) ==> is_packed(packet, true, segment),
{
    if let Some(segment) = ipv6_segment_of(packet) {
        let total = 40 + big_endian_at(packet, 4, 2) as int;
        let content = packet.subrange(40, total);
        let source = big_endian_at(packet, 8, 16) as u128;
        let destination = big_endian_at(packet, 24, 16) as u128;
        let around = Ipv6Extras {
            class: packet[0] % 16,
            label: packet.subrange(1, 4),
            hop_limit: packet[7],
            padding: packet.skip(total),
        };
        lemma_powers();
        lemma_big_endian_bound(packet.subrange(4, 6));
        lemma_big_endian_bound(packet.subrange(8, 24));
        lemma_big_endian_bound(packet.subrange(24, 40));
        law_read_number_is_written(packet.subrange(4, 6));
        law_read_number_is_written(packet.subrange(8, 24));
        law_read_number_is_written(packet.subrange(24, 40));
        assert(around.fits());
        assert(ipv6_written(source, destination, content, around) =~= packet);
        law_read_segment_was_written(IpAddress::V6(source), IpAddress::V6(destination), content);
        assert(is_packed_in_ipv6(packet, segment, content));
    }
}

/// A packet of one of the two kinds.
spec fn kind_of_packet(packet: Seq<u8>, six: bool) -> IpPacketView {
    if six {
        IpPacketView::V6(packet)
    } else {
        IpPacketView::V4(packet)
    }
}

proof fn lemma_two_octets(octets: Seq<u8>, at: int)
    requires
        0 <= at,
        at + 2 <= octets.len(),
    ensures
        big_endian_at(octets, at, 2) == octets[at] * 256 + octets[at + 1],
{
    let part = octets.subrange(at, at + 2);
    assert(part.drop_last().drop_last() =~= Seq::<u8>::empty());
    reveal_with_fuel(big_endian, 3);
}

proof fn lemma_tags_are_skipped(
    frame: Seq<u8>,
    offset: int,
    tags: Seq<VlanTag>,
    six: bool,
    packet: Seq<u8>,
)
    requires
        2 <= offset,
        offset - 2 <= frame.len(),
        frame.skip(offset - 2) == tags_written(tags, packet_type(six) + packet),
        forall|index: int| 0 <= index < tags.len() ==> (#[trigger] tags[index]).control.len() == 2,
    ensures
        offset <= frame.len(),
        packet_behind_tags(frame, offset, big_endian_at(frame, offset - 2, 2)) == Some(
            kind_of_packet(packet, six),
        ),
    decreases tags.len(),
{
    let rest = frame.skip(offset - 2);
    assert(packet_type(six).len() == 2);
    if tags.len() == 0 {
        assert(rest == packet_type(six) + packet);
        assert(rest.len() == 2 + packet.len());
        assert(rest[0] == frame[offset - 2] && rest[1] == frame[offset - 1]);
        lemma_two_octets(frame, offset - 2);
        assert(frame.skip(offset) =~= rest.skip(2));
        assert(rest.skip(2) =~= packet);
    } else {
        let behind = tags_written(tags.drop_first(), packet_type(six) + packet);
        assert(tags[0].control.len() == 2);
        assert(tag_type(tags[0]).len() == 2);
        assert(rest == tag_type(tags[0]) + tags[0].control + behind);
        assert(rest.len() == 4 + behind.len());
        assert(rest[0] == frame[offset - 2] && rest[1] == frame[offset - 1]);
        assert(rest[0] == tag_type(tags[0])[0] && rest[1] == tag_type(tags[0])[1]);
        lemma_two_octets(frame, offset - 2);
        assert(frame.skip(offset + 2) =~= rest.skip(4));
        assert(rest.skip(4) =~= behind);
        assert forall|index: int| 0 <= index < tags.drop_first().len() implies (
        #[trigger] tags.drop_first()[index]).control.len() == 2 by {
            assert(tags.drop_first()[index] == tags[index + 1]);
        }
        lemma_tags_are_skipped(frame, offset + 4, tags.drop_first(), six, packet);
    }
}

proof fn lemma_framed_is_read(
    link: LinkLayer,
    frame: Seq<u8>,
    native_family: u32,
    six: bool,
    packet: Seq<u8>,
)
    requires
        is_framed(link, frame, native_family, six, packet),
    ensures
        ip_packet_of(link, frame, native_family) == Some(kind_of_packet(packet, six)),
{
    match link {
        LinkLayer::Ethernet => {
            let (addresses, tags) = choose|addresses: Seq<u8>, tags: Seq<VlanTag>|
                #![trigger addresses + tags_written(tags, packet_type(six) + packet)]
                addresses.len() == 12 && (forall|index: int|
                    0 <= index < tags.len() ==> (#[trigger] tags[index]).control.len() == 2)
                    && frame == addresses + tags_written(tags, packet_type(six) + packet);
            assert(frame.skip(12) =~= tags_written(tags, packet_type(six) + packet));
            lemma_tags_are_skipped(frame, 14, tags, six, packet);
        },
        LinkLayer::LinuxSll => {
            lemma_two_octets(frame, 14);
            assert(frame.skip(16) =~= packet);
        },
        LinkLayer::LinuxSll2 => {
            lemma_two_octets(frame, 0);
            assert(frame.skip(20) =~= packet);
        },
        LinkLayer::Null | LinkLayer::Loop => {
            let number = choose|number: u32|
                #![trigger written(number as nat, 4)]
                frame == written(number as nat, 4) + packet && (is_family(
                    number as nat,
                    six,
                ) || is_family(native_family as nat, six)) && (six ==> number != 2 && native_family
                    != 2);
            lemma_powers();
            law_written_number_is_read(number as nat, 4);
            assert(frame.subrange(0, 4) =~= written(number as nat, 4));
            assert(frame.skip(4) =~= packet);
        },
        _ => {},
    }
}

proof fn lemma_skipped_tags(frame: Seq<u8>, offset: int, six: bool, packet: Seq<u8>) -> (tags: Seq<
    VlanTag,
>)
    requires
        2 <= offset <= frame.len(),
        packet_behind_tags(frame, offset, big_endian_at(frame, offset - 2, 2)) == Some(
            kind_of_packet(packet, six),
        ),
    ensures
        frame.skip(offset - 2) == tags_written(tags, packet_type(six) + packet),
        forall|index: int| 0 <= index < tags.len() ==> (#[trigger] tags[index]).control.len() == 2,
    decreases frame.len() - offset,
{
    lemma_two_octets(frame, offset - 2);
    let high = frame[offset - 2];
    let low = frame[offset - 1];
    let vlan = (high == 0x81 && low == 0) || (high == 0x88 && low == 0xa8) || (high == 0x91 && low
        == 0);
    if vlan {
        let tag = VlanTag {
            outer: high == 0x88,
            old: high == 0x91,
            control: frame.subrange(offset, offset + 2),
        };
        let more = lemma_skipped_tags(frame, offset + 4, six, packet);
        let tags = seq![tag] + more;
        assert(tags.drop_first() =~= more);
        assert(frame.skip(offset - 2) =~= tag_type(tag) + tag.control + frame.skip(offset + 2));
        assert forall|index: int| 0 <= index < tags.len() implies (
        #[trigger] tags[index]).control.len() == 2 by {
            if index > 0 {
                assert(tags[index] == more[index - 1]);
            }
        }
        tags
    } else {
        assert(frame.skip(offset - 2) =~= packet_type(six) + packet);
        Seq::empty()
    }
}

proof fn lemma_read_was_framed(
    link: LinkLayer,
    frame: Seq<u8>,
    native_family: u32,
    six: bool,
    packet: Seq<u8>,
)
    requires
        ip_packet_of(link, frame, native_family) == Some(kind_of_packet(packet, six)),
    ensures
        is_framed(link, frame, native_family, six, packet),
{
    match link {
        LinkLayer::Ethernet => {
            let tags = lemma_skipped_tags(frame, 14, six, packet);
            let addresses = frame.take(12);
            assert(frame =~= addresses + tags_written(tags, packet_type(six) + packet));
        },
        LinkLayer::LinuxSll => {
            lemma_two_octets(frame, 14);
            let before = frame.take(14);
            assert(frame =~= before + packet_type(six) + packet);
        },
        LinkLayer::LinuxSll2 => {
            lemma_two_octets(frame, 0);
            let behind = frame.subrange(2, 20);
            assert(frame =~= packet_type(six) + behind + packet);
        },
        LinkLayer::Null | LinkLayer::Loop => {
            let octets = frame.subrange(0, 4);
            lemma_powers();
            lemma_big_endian_bound(octets);
            law_read_number_is_written(octets);
            let number = big_endian(octets) as u32;
            assert(frame =~= written(number as nat, 4) + packet);
        },
        _ => {},
    }
}

/// Decoding is the inverse of writing down: a frame brings a segment exactly if it holds it, in a
/// whole unfragmented packet, behind any number of VLAN tags, and whatever options the headers
/// hold. The ports, the sequence numbers, the flags and the payload are those that were written.
pub proof fn law_decoding_reads_what_was_written(
    link: LinkLayer,
    frame: Seq<u8>,
    native_family: u32,
    segment: TcpSegmentView,
)
    ensures
        segment_of(link, frame, native_family) == Some(segment) <==> carries(
            link,
            frame,
            native_family,
            segment,
        ),
{
    if carries(link, frame, native_family, segment) {
        let (six, packet) = choose|six: bool, packet: Seq<u8>| #[trigger]
            is_framed(link, frame, native_family, six, packet) && is_packed(packet, six, segment);
        lemma_framed_is_read(link, frame, native_family, six, packet);
        lemma_packed_is_read(packet, six, segment);
    }
    if segment_of(link, frame, native_family) == Some(segment) {
        match ip_packet_of(link, frame, native_family) {
            Some(IpPacketView::V4(packet)) => {
                lemma_read_was_framed(link, frame, native_family, false, packet);
                lemma_read_ipv4(packet);
            },
            Some(IpPacketView::V6(packet)) => {
                lemma_read_was_framed(link, frame, native_family, true, packet);
                lemma_read_ipv6(packet);
            },
            None => {},
        }
    }
}

/// A SYN takes a sequence number before the payload. A FIN or a reset closes its direction behind the
/// payload, and nothing else does: cut in two, a segment starts and closes at the same places.
pub proof fn law_segment_can_be_cut(
    whole: TcpSegmentView,
    first: TcpSegmentView,
    second: TcpSegmentView,
)
    requires
        first.payload + second.payload == whole.payload,
        first.sequence == whole.sequence,
        first.flags.syn == whole.flags.syn,
        !first.flags.fin && !first.flags.rst,
        !second.flags.syn,
        second.flags.fin == whole.flags.fin,
        second.flags.rst == whole.flags.rst,
        second.sequence == seq_advance(
            whole.sequence,
            (first.payload.len() + bit(whole.flags.syn, 1)) as nat,
        ),
    ensures
        first.first_sequence() == whole.first_sequence(),
        second.first_sequence() == second.sequence,
        second.first_sequence() == seq_advance(first.first_sequence(), first.payload.len()),
        first.closing_sequence() is None,
        second.closing_sequence() == whole.closing_sequence(),
        whole.flags.fin || whole.flags.rst ==> whole.closing_sequence() == Some(
            seq_advance(second.sequence, second.payload.len()),
        ),
        !whole.flags.fin && !whole.flags.rst ==> whole.closing_sequence() is None,
{
    assert(whole.payload.len() == first.payload.len() + second.payload.len());
    law_advance_composes(
        whole.sequence,
        if whole.flags.syn {
            1
        } else {
            0
        },
        first.payload.len(),
    );
    law_advance_composes(whole.first_sequence(), first.payload.len(), second.payload.len());
    law_advance_composes(second.sequence, 0, second.payload.len());
}

} // verus!
