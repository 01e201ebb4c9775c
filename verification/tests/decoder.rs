use capture::libpcap::decoder::{
    DecodedTcpSegment, LinkLayer, TcpFlags, ETHERTYPE_8021Q, ETHERTYPE_IPV4, ETHERTYPE_IPV6,
    LOOPBACK_AF_INET,
};
use capture::IpAddress;

#[test]
fn payload_and_close_sequences_account_for_tcp_control_bytes() {
    let syn_data_fin = DecodedTcpSegment {
        source: IpAddress::v4([10, 0, 0, 1]),
        destination: IpAddress::v4([10, 0, 0, 2]),
        source_port: 50_000,
        destination_port: 80,
        sequence: 41,
        acknowledgment: 0,
        flags: TcpFlags {
            syn: true,
            ack: true,
            fin: true,
            rst: false,
        },
        payload: b"hi",
    };
    let pure_fin = DecodedTcpSegment {
        sequence: 108,
        acknowledgment: 0,
        flags: TcpFlags {
            syn: false,
            ack: true,
            fin: true,
            rst: false,
        },
        payload: b"",
        ..syn_data_fin
    };

    assert_eq!(syn_data_fin.payload_sequence(), 42);
    assert_eq!(syn_data_fin.close_sequence(), Some(44));
    assert_eq!(pure_fin.payload_sequence(), 108);
    assert_eq!(pure_fin.close_sequence(), Some(108));
}

#[test]
fn decodes_ethernet_ipv4_tcp_http_request_payload() {
    let frame = ethernet_ipv4_tcp_frame(
        [10, 0, 0, 1],
        [10, 0, 0, 2],
        50_000,
        80,
        100,
        b"GET / HTTP/1.1\r\n\r\n",
    );

    let decoded =
        DecodedTcpSegment::decode(LinkLayer::Ethernet, &frame).expect("expected tcp payload");

    assert_eq!(decoded.source, IpAddress::v4([10, 0, 0, 1]));
    assert_eq!(decoded.destination, IpAddress::v4([10, 0, 0, 2]));
    assert_eq!(decoded.source_port, 50_000);
    assert_eq!(decoded.destination_port, 80);
    assert_eq!(decoded.sequence, 100);
    assert_eq!(decoded.payload, b"GET / HTTP/1.1\r\n\r\n");
}

#[test]
fn decodes_linux_sll_ipv4_tcp_http_response_payload() {
    let packet = ipv4_tcp_packet(
        [10, 0, 0, 2],
        [10, 0, 0, 1],
        80,
        50_000,
        200,
        b"HTTP/1.1 200 OK\r\nContent-Length: 0\r\n\r\n",
    );
    let mut frame = vec![0; 16];
    frame[14..16].copy_from_slice(&0x0800u16.to_be_bytes());
    frame.extend_from_slice(&packet);

    let decoded =
        DecodedTcpSegment::decode(LinkLayer::LinuxSll, &frame).expect("expected tcp payload");

    assert_eq!(decoded.source, IpAddress::v4([10, 0, 0, 2]));
    assert_eq!(decoded.destination, IpAddress::v4([10, 0, 0, 1]));
    assert_eq!(
        decoded.payload,
        b"HTTP/1.1 200 OK\r\nContent-Length: 0\r\n\r\n"
    );
}

#[test]
fn decodes_linux_sll2_ipv6_tcp_http_request_payload() {
    let source = [0x20, 0x01, 0x0d, 0xb8, 0, 0, 0, 0, 0, 0, 0, 0, 0, 0, 0, 1];
    let destination = [0x20, 0x01, 0x0d, 0xb8, 0, 0, 0, 0, 0, 0, 0, 0, 0, 0, 0, 2];
    let mut frame = vec![0; 20];
    frame[0..2].copy_from_slice(&ETHERTYPE_IPV6.to_be_bytes());
    frame.extend_from_slice(&ipv6_tcp_packet(
        source,
        destination,
        50_000,
        80,
        100,
        b"GET / HTTP/1.1\r\n\r\n",
    ));

    let decoded =
        DecodedTcpSegment::decode(LinkLayer::LinuxSll2, &frame).expect("expected tcp payload");

    assert_eq!(decoded.source, IpAddress::v6(source));
    assert_eq!(decoded.destination, IpAddress::v6(destination));
    assert_eq!(decoded.payload, b"GET / HTTP/1.1\r\n\r\n");
}

#[test]
fn decodes_ethernet_ipv6_tcp_http_request_payload() {
    let source = [0x20, 0x01, 0x0d, 0xb8, 0, 0, 0, 0, 0, 0, 0, 0, 0, 0, 0, 1];
    let destination = [0x20, 0x01, 0x0d, 0xb8, 0, 0, 0, 0, 0, 0, 0, 0, 0, 0, 0, 2];
    let frame = ethernet_ipv6_tcp_frame(
        source,
        destination,
        50_000,
        80,
        100,
        b"GET / HTTP/1.1\r\n\r\n",
    );

    let decoded =
        DecodedTcpSegment::decode(LinkLayer::Ethernet, &frame).expect("expected tcp payload");

    assert_eq!(decoded.source, IpAddress::v6(source));
    assert_eq!(decoded.destination, IpAddress::v6(destination));
    assert_eq!(decoded.source_port, 50_000);
    assert_eq!(decoded.destination_port, 80);
    assert_eq!(decoded.sequence, 100);
    assert_eq!(decoded.payload, b"GET / HTTP/1.1\r\n\r\n");
}

#[test]
fn decodes_vlan_ethernet_ipv4_tcp_http_request_payload() {
    let mut frame = vec![0; 12];
    frame.extend_from_slice(&ETHERTYPE_8021Q.to_be_bytes());
    frame.extend_from_slice(&100u16.to_be_bytes());
    frame.extend_from_slice(&ETHERTYPE_IPV4.to_be_bytes());
    frame.extend_from_slice(&ipv4_tcp_packet(
        [10, 0, 0, 1],
        [10, 0, 0, 2],
        50_000,
        80,
        100,
        b"GET / HTTP/1.1\r\n\r\n",
    ));

    let decoded =
        DecodedTcpSegment::decode(LinkLayer::Ethernet, &frame).expect("expected tcp payload");

    assert_eq!(decoded.source, IpAddress::v4([10, 0, 0, 1]));
    assert_eq!(decoded.destination, IpAddress::v4([10, 0, 0, 2]));
    assert_eq!(decoded.payload, b"GET / HTTP/1.1\r\n\r\n");
}

#[test]
fn decodes_loopback_ipv6_tcp_http_request_payload() {
    let source = [0, 0, 0, 0, 0, 0, 0, 0, 0, 0, 0, 0, 0, 0, 0, 1];
    let destination = [0, 0, 0, 0, 0, 0, 0, 0, 0, 0, 0, 0, 0, 0, 0, 1];
    let mut frame = 10u32.to_ne_bytes().to_vec();
    frame.extend_from_slice(&ipv6_tcp_packet(
        source,
        destination,
        50_000,
        80,
        100,
        b"GET / HTTP/1.1\r\n\r\n",
    ));

    let decoded =
        DecodedTcpSegment::decode(LinkLayer::Loop, &frame).expect("expected tcp payload");

    assert_eq!(decoded.source, IpAddress::v6([0, 0, 0, 0, 0, 0, 0, 0, 0, 0, 0, 0, 0, 0, 0, 1]));
    assert_eq!(decoded.destination, IpAddress::v6([0, 0, 0, 0, 0, 0, 0, 0, 0, 0, 0, 0, 0, 0, 0, 1]));
    assert_eq!(decoded.payload, b"GET / HTTP/1.1\r\n\r\n");
}

#[test]
fn decodes_loopback_big_endian_ipv4_tcp_http_request_payload() {
    let mut frame = LOOPBACK_AF_INET.to_be_bytes().to_vec();
    frame.extend_from_slice(&ipv4_tcp_packet(
        [127, 0, 0, 1],
        [127, 0, 0, 1],
        50_000,
        80,
        100,
        b"GET / HTTP/1.1\r\n\r\n",
    ));

    let decoded =
        DecodedTcpSegment::decode(LinkLayer::Null, &frame).expect("expected tcp payload");

    assert_eq!(decoded.source, IpAddress::v4([127, 0, 0, 1]));
    assert_eq!(decoded.destination, IpAddress::v4([127, 0, 0, 1]));
    assert_eq!(decoded.payload, b"GET / HTTP/1.1\r\n\r\n");
}

#[test]
fn decodes_raw_and_direct_ip_tcp_http_request_payload() {
    let ipv4_packet = ipv4_tcp_packet(
        [10, 0, 0, 1],
        [10, 0, 0, 2],
        50_000,
        80,
        100,
        b"GET / HTTP/1.1\r\n\r\n",
    );
    let decoded_ipv4 =
        DecodedTcpSegment::decode(LinkLayer::Raw, &ipv4_packet).expect("expected tcp payload");
    assert_eq!(decoded_ipv4.source, IpAddress::v4([10, 0, 0, 1]));
    assert_eq!(decoded_ipv4.payload, b"GET / HTTP/1.1\r\n\r\n");

    let source = [0x20, 0x01, 0x0d, 0xb8, 0, 0, 0, 0, 0, 0, 0, 0, 0, 0, 0, 1];
    let destination = [0x20, 0x01, 0x0d, 0xb8, 0, 0, 0, 0, 0, 0, 0, 0, 0, 0, 0, 2];
    let ipv6_packet = ipv6_tcp_packet(
        source,
        destination,
        50_000,
        80,
        100,
        b"GET / HTTP/1.1\r\n\r\n",
    );
    let decoded_ipv6 =
        DecodedTcpSegment::decode(LinkLayer::Ipv6, &ipv6_packet).expect("expected tcp payload");
    assert_eq!(decoded_ipv6.source, IpAddress::v6(source));
    assert_eq!(decoded_ipv6.payload, b"GET / HTTP/1.1\r\n\r\n");
}

#[test]
fn skips_fragmented_or_truncated_ipv4_packets() {
    let mut fragment = ipv4_tcp_packet(
        [10, 0, 0, 1],
        [10, 0, 0, 2],
        50_000,
        80,
        100,
        b"GET / HTTP/1.1\r\n\r\n",
    );
    fragment[6..8].copy_from_slice(&0x2000u16.to_be_bytes());
    assert!(DecodedTcpSegment::decode(LinkLayer::Ipv4, &fragment).is_none());

    let mut truncated = ipv4_tcp_packet(
        [10, 0, 0, 1],
        [10, 0, 0, 2],
        50_000,
        80,
        100,
        b"GET / HTTP/1.1\r\n\r\n",
    );
    truncated.truncate(truncated.len() - 1);
    assert!(DecodedTcpSegment::decode(LinkLayer::Ipv4, &truncated).is_none());
}

#[test]
fn skips_ipv6_extension_or_truncated_packets() {
    let source = [0x20, 0x01, 0x0d, 0xb8, 0, 0, 0, 0, 0, 0, 0, 0, 0, 0, 0, 1];
    let destination = [0x20, 0x01, 0x0d, 0xb8, 0, 0, 0, 0, 0, 0, 0, 0, 0, 0, 0, 2];
    let mut extension = ipv6_tcp_packet(
        source,
        destination,
        50_000,
        80,
        100,
        b"GET / HTTP/1.1\r\n\r\n",
    );
    extension[6] = 44;
    assert!(DecodedTcpSegment::decode(LinkLayer::Ipv6, &extension).is_none());

    let mut truncated = ipv6_tcp_packet(
        source,
        destination,
        50_000,
        80,
        100,
        b"GET / HTTP/1.1\r\n\r\n",
    );
    truncated.truncate(truncated.len() - 1);
    assert!(DecodedTcpSegment::decode(LinkLayer::Ipv6, &truncated).is_none());
}

#[test]
fn decodes_empty_fin_segment_for_flow_lifecycle() {
    let mut packet = ipv4_tcp_packet([10, 0, 0, 1], [10, 0, 0, 2], 50_000, 80, 100, b"");
    packet[33] = 0x11;

    let decoded =
        DecodedTcpSegment::decode(LinkLayer::Ipv4, &packet).expect("expected tcp fin segment");

    assert!(decoded.payload.is_empty());
    assert!(decoded.has_fin());
}

#[test]
fn decodes_empty_syn_segment_for_flow_lifecycle() {
    let mut packet = ipv4_tcp_packet([10, 0, 0, 1], [10, 0, 0, 2], 50_000, 80, 100, b"");
    packet[33] = 0x02;

    let decoded =
        DecodedTcpSegment::decode(LinkLayer::Ipv4, &packet).expect("expected tcp syn segment");

    assert!(decoded.payload.is_empty());
    assert!(decoded.has_syn());
    assert!(decoded.has_lifecycle_signal());
}

#[test]
fn decodes_empty_syn_ack_segment_for_flow_lifecycle() {
    let mut packet = ipv4_tcp_packet([10, 0, 0, 2], [10, 0, 0, 1], 80, 50_000, 200, b"");
    packet[28..32].copy_from_slice(&101u32.to_be_bytes());
    packet[33] = 0x12;

    let decoded = DecodedTcpSegment::decode(LinkLayer::Ipv4, &packet)
        .expect("expected tcp syn-ack segment");

    assert!(decoded.payload.is_empty());
    assert!(decoded.has_syn());
    assert!(decoded.has_syn_ack());
    assert_eq!(decoded.acknowledgment, 101);
    assert!(decoded.acknowledges_syn_sequence(100));
    assert!(decoded.has_lifecycle_signal());
}

fn ethernet_ipv4_tcp_frame(
    source: [u8; 4],
    destination: [u8; 4],
    source_port: u16,
    destination_port: u16,
    sequence: u32,
    payload: &[u8],
) -> Vec<u8> {
    let mut frame = vec![0; 12];
    frame.extend_from_slice(&0x0800u16.to_be_bytes());
    frame.extend_from_slice(&ipv4_tcp_packet(
        source,
        destination,
        source_port,
        destination_port,
        sequence,
        payload,
    ));
    frame
}

fn ethernet_ipv6_tcp_frame(
    source: [u8; 16],
    destination: [u8; 16],
    source_port: u16,
    destination_port: u16,
    sequence: u32,
    payload: &[u8],
) -> Vec<u8> {
    let mut frame = vec![0; 12];
    frame.extend_from_slice(&ETHERTYPE_IPV6.to_be_bytes());
    frame.extend_from_slice(&ipv6_tcp_packet(
        source,
        destination,
        source_port,
        destination_port,
        sequence,
        payload,
    ));
    frame
}

fn ipv4_tcp_packet(
    source: [u8; 4],
    destination: [u8; 4],
    source_port: u16,
    destination_port: u16,
    sequence: u32,
    payload: &[u8],
) -> Vec<u8> {
    let total_len = 20 + 20 + payload.len();
    let mut packet = vec![0; 20 + 20];
    packet[0] = 0x45;
    packet[2..4].copy_from_slice(&(total_len as u16).to_be_bytes());
    packet[8] = 64;
    packet[9] = 6;
    packet[12..16].copy_from_slice(&source);
    packet[16..20].copy_from_slice(&destination);
    packet[20..22].copy_from_slice(&source_port.to_be_bytes());
    packet[22..24].copy_from_slice(&destination_port.to_be_bytes());
    packet[24..28].copy_from_slice(&sequence.to_be_bytes());
    packet[32] = 5 << 4;
    packet[33] = 0x18;
    packet.extend_from_slice(payload);
    packet
}

fn ipv6_tcp_packet(
    source: [u8; 16],
    destination: [u8; 16],
    source_port: u16,
    destination_port: u16,
    sequence: u32,
    payload: &[u8],
) -> Vec<u8> {
    let payload_len = 20 + payload.len();
    let mut packet = vec![0; 40 + 20];
    packet[0] = 0x60;
    packet[4..6].copy_from_slice(&(payload_len as u16).to_be_bytes());
    packet[6] = 6;
    packet[7] = 64;
    packet[8..24].copy_from_slice(&source);
    packet[24..40].copy_from_slice(&destination);
    packet[40..42].copy_from_slice(&source_port.to_be_bytes());
    packet[42..44].copy_from_slice(&destination_port.to_be_bytes());
    packet[44..48].copy_from_slice(&sequence.to_be_bytes());
    packet[52] = 5 << 4;
    packet[53] = 0x18;
    packet.extend_from_slice(payload);
    packet
}
