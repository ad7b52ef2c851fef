use net_monitor::address::IpAddress;
use net_monitor::capture::{capture_step, open_failure, CaptureStep, Captured};
use net_monitor::parser::{
    icmp_v4_ports, icmp_v6_ports, packet_from_layers, parse_packet, sctp_ports_and_len,
    try_parse_sctp_after_ip, Endpoints, Layers, Protocol, RawPacket, Segment,
};

const SRC: [u8; 4] = [10, 0, 0, 1];
const DST: [u8; 4] = [192, 168, 1, 20];

fn ipv4(protocol: u8, flags_and_offset: [u8; 2], payload: &[u8]) -> Vec<u8> {
    let total = 20 + payload.len();
    let mut bytes = vec![0x45, 0, (total >> 8) as u8, total as u8, 0, 1];
    bytes.extend_from_slice(&flags_and_offset);
    bytes.extend_from_slice(&[64, protocol, 0, 0]);
    bytes.extend_from_slice(&SRC);
    bytes.extend_from_slice(&DST);
    bytes.extend_from_slice(payload);
    bytes
}

fn ipv6(next_header: u8, payload: &[u8]) -> Vec<u8> {
    let mut bytes = vec![0x60, 0, 0, 0, (payload.len() >> 8) as u8, payload.len() as u8];
    bytes.extend_from_slice(&[next_header, 64]);
    bytes.extend_from_slice(&[0xfe, 0x80, 0, 0, 0, 0, 0, 0, 0, 0, 0, 0, 0, 0, 0, 1]);
    bytes.extend_from_slice(&[0xfe, 0x80, 0, 0, 0, 0, 0, 0, 0, 0, 0, 0, 0, 0, 0, 2]);
    bytes.extend_from_slice(payload);
    bytes
}

fn ethernet(ether_type: [u8; 2], payload: &[u8]) -> Vec<u8> {
    let mut bytes = vec![2, 0, 0, 0, 0, 1, 2, 0, 0, 0, 0, 2];
    bytes.extend_from_slice(&ether_type);
    bytes.extend_from_slice(payload);
    bytes
}

fn tcp(src: u16, dst: u16, data: &[u8]) -> Vec<u8> {
    let mut bytes = Vec::new();
    bytes.extend_from_slice(&src.to_be_bytes());
    bytes.extend_from_slice(&dst.to_be_bytes());
    bytes.extend_from_slice(&[0, 0, 0, 1, 0, 0, 0, 0, 0x50, 0x10, 0x20, 0, 0, 0, 0, 0]);
    bytes.extend_from_slice(data);
    bytes
}

fn udp(src: u16, dst: u16, data: &[u8]) -> Vec<u8> {
    let len = 8 + data.len();
    let mut bytes = Vec::new();
    bytes.extend_from_slice(&src.to_be_bytes());
    bytes.extend_from_slice(&dst.to_be_bytes());
    bytes.extend_from_slice(&[(len >> 8) as u8, len as u8, 0, 0]);
    bytes.extend_from_slice(data);
    bytes
}

fn fields(p: &RawPacket) -> (String, u16, String, u16, Protocol, u64) {
    (p.src_ip.text(), p.src_port, p.dst_ip.text(), p.dst_port, p.protocol, p.length)
}

#[test]
fn tcp_in_ethernet_is_parsed() {
    let frame = ethernet([8, 0], &ipv4(6, [0x40, 0], &tcp(443, 50000, b"hello")));
    let packet = parse_packet(&frame).unwrap();
    assert_eq!(
        fields(&packet),
        ("10.0.0.1".to_string(), 443, "192.168.1.20".to_string(), 50000, Protocol::Tcp, 25)
    );
}

#[test]
fn udp_in_ethernet_ipv6_is_parsed() {
    let frame = ethernet([0x86, 0xdd], &ipv6(17, &udp(5353, 53, b"abc")));
    let packet = parse_packet(&frame).unwrap();
    assert_eq!(
        fields(&packet),
        ("fe80::1".to_string(), 5353, "fe80::2".to_string(), 53, Protocol::Udp, 11)
    );
}

#[test]
fn bare_ip_is_parsed_where_ethernet_fails() {
    // Read as Ethernet, the first two bytes of the source address announce IPv4.
    let mut bytes = ipv4(17, [0, 0], &udp(7, 9, b""));
    bytes[12..16].copy_from_slice(&[8, 0, 1, 1]);
    let packet = parse_packet(&bytes).unwrap();
    assert_eq!(
        fields(&packet),
        ("8.0.1.1".to_string(), 7, "192.168.1.20".to_string(), 9, Protocol::Udp, 8)
    );
}

#[test]
fn echo_request_carries_identifier_and_sequence() {
    let message = [8, 0, 0, 0, 0x12, 0x34, 0, 7, 1, 2, 3];
    let frame = ethernet([8, 0], &ipv4(1, [0, 0], &message));
    let packet = parse_packet(&frame).unwrap();
    assert_eq!((packet.src_port, packet.dst_port), (0x1234, 7));
    assert_eq!((packet.protocol, packet.length), (Protocol::Icmpv4, 11));
}

#[test]
fn other_icmp_carries_type_and_code() {
    let message = [3, 1, 0, 0, 0, 0, 0, 0];
    let frame = ethernet([8, 0], &ipv4(1, [0, 0], &message));
    let packet = parse_packet(&frame).unwrap();
    assert_eq!((packet.src_port, packet.dst_port), (0x0301, 0));
    assert_eq!(packet.protocol, Protocol::Icmpv4);
}

#[test]
fn icmpv6_echo_reply_is_parsed() {
    let message = [129, 0, 0, 0, 0xab, 0xcd, 0x01, 0x02];
    let frame = ethernet([0x86, 0xdd], &ipv6(58, &message));
    let packet = parse_packet(&frame).unwrap();
    assert_eq!((packet.src_port, packet.dst_port), (0xabcd, 0x0102));
    assert_eq!((packet.protocol, packet.length), (Protocol::Icmpv6, 8));
}

#[test]
fn icmp_ports_follow_type_and_code() {
    assert_eq!(icmp_v4_ports(&[0, 0, 0, 0, 1, 2, 3, 4]), (0x0102, 0x0304));
    assert_eq!(icmp_v4_ports(&[8, 1, 0, 0, 1, 2, 3, 4]), (0x0801, 0));
    assert_eq!(icmp_v4_ports(&[8, 0, 0, 0, 1, 2, 3]), (0x0800, 0));
    assert_eq!(icmp_v6_ports(&[128, 0, 0, 0, 1, 2, 3, 4]), (0x0102, 0x0304));
    assert_eq!(icmp_v6_ports(&[8, 0, 0, 0, 1, 2, 3, 4]), (0x0800, 0));
}

#[test]
fn sctp_is_read_from_the_ip_payload() {
    let sctp = [0x0b, 0x59, 0x0b, 0x5a, 1, 2, 3, 4, 5, 6, 7, 8, 9, 9, 9, 9];
    let frame = ethernet([8, 0], &ipv4(132, [0, 0], &sctp));
    let packet = parse_packet(&frame).unwrap();
    assert_eq!(
        fields(&packet),
        ("10.0.0.1".to_string(), 2905, "192.168.1.20".to_string(), 2906, Protocol::Sctp, 16)
    );
}

#[test]
fn fragmented_sctp_is_not_parsed() {
    let sctp = [0x0b, 0x59, 0x0b, 0x5a, 1, 2, 3, 4, 5, 6, 7, 8];
    let frame = ethernet([8, 0], &ipv4(132, [0x20, 0], &sctp));
    assert!(parse_packet(&frame).is_none());
}

#[test]
fn short_sctp_is_not_parsed() {
    assert_eq!(sctp_ports_and_len(&[0; 11]), None);
    assert_eq!(sctp_ports_and_len(&[0, 1, 0, 2, 0, 0, 0, 0, 0, 0, 0, 0]), Some((1, 2, 12)));
    let net = Endpoints::V4(SRC, DST);
    assert!(try_parse_sctp_after_ip(net, Some((132, false, &[0; 11]))).is_none());
    assert!(try_parse_sctp_after_ip(net, Some((6, false, &[0; 12]))).is_none());
    assert!(try_parse_sctp_after_ip(net, Some((132, true, &[0; 12]))).is_none());
    assert!(try_parse_sctp_after_ip(net, None).is_none());
    assert!(try_parse_sctp_after_ip(net, Some((132, false, &[0; 12]))).is_some());
}

#[test]
fn garbage_and_arp_hold_no_packet() {
    assert!(parse_packet(&[]).is_none());
    assert!(parse_packet(&[1, 2, 3]).is_none());
    let arp = [0, 1, 8, 0, 6, 4, 0, 1, 0, 0, 0, 0, 0, 0, 0, 0, 0, 0, 0, 0, 0, 0, 0, 0, 0, 0, 0, 0];
    assert!(parse_packet(&ethernet([8, 6], &arp)).is_none());
}

#[test]
fn layers_without_ip_hold_no_packet() {
    let bytes = udp(1, 2, b"");
    let layers = Layers {
        network: None,
        payload: None,
        transport: Some(Segment::UdpDatagram(&bytes[..])),
    };
    assert!(packet_from_layers(&layers).is_none());
    let layers = Layers { network: Some(Endpoints::V4(SRC, DST)), ..layers };
    let packet = packet_from_layers(&layers).unwrap();
    assert_eq!((packet.src_port, packet.dst_port, packet.length), (1, 2, 8));
}

#[test]
fn protocol_names() {
    assert_eq!(Protocol::Tcp.as_str(), "TCP");
    assert_eq!(Protocol::Udp.as_str(), "UDP");
    assert_eq!(Protocol::Sctp.as_str(), "SCTP");
    assert_eq!(Protocol::Icmpv4.as_str(), "ICMPv4");
    assert_eq!(Protocol::Icmpv6.as_str(), "ICMPv6");
}

#[test]
fn capture_hands_on_packets_and_stops_on_failure() {
    let frame = ethernet([8, 0], &ipv4(6, [0, 0], &tcp(1, 2, b"")));
    assert!(matches!(capture_step(Captured::Frame(&frame)), CaptureStep::Send(p) if p.length == 20));
    assert!(matches!(capture_step(Captured::Frame(&[0])), CaptureStep::Skip));
    assert!(matches!(capture_step(Captured::TimedOut), CaptureStep::Skip));
    assert!(matches!(capture_step(Captured::Failed), CaptureStep::Stop));
}

#[test]
fn want_of_permission_gets_a_hint() {
    assert_eq!(
        open_failure("eth0", "socket: Operation not PERMITTED (Permission denied)"),
        "Error: packet capture requires root privileges. Run with sudo."
    );
    assert_eq!(
        open_failure("eth7", "No such device"),
        "Error: failed to open capture interface eth7: No such device"
    );
}

#[test]
fn address_texts() {
    let v6 = |groups: [u16; 8]| {
        let mut b = [0u8; 16];
        for (i, g) in groups.iter().enumerate() {
            b[2 * i] = (g >> 8) as u8;
            b[2 * i + 1] = *g as u8;
        }
        IpAddress::V6(b).text()
    };
    assert_eq!(v6([0, 0, 0, 0, 0, 0, 0, 0]), "::");
    assert_eq!(v6([0, 0, 0, 0, 0, 0, 0, 1]), "::1");
    assert_eq!(v6([0x2001, 0xdb8, 0, 0, 1, 0, 0, 1]), "2001:db8::1:0:0:1");
    assert_eq!(v6([0x2001, 0xdb8, 0, 1, 1, 1, 1, 1]), "2001:db8:0:1:1:1:1:1");
    assert_eq!(v6([1, 0, 0, 2, 0, 0, 0, 3]), "1:0:0:2::3");
    assert_eq!(v6([1, 2, 3, 4, 5, 6, 0, 0]), "1:2:3:4:5:6::");
    assert_eq!(v6([0, 0, 3, 4, 5, 6, 7, 8]), "::3:4:5:6:7:8");
    assert_eq!(v6([0, 0, 0, 0, 0, 0xffff, 0x0102, 0x0304]), "::ffff:1.2.3.4");
    assert_eq!(v6([0, 0, 0, 0, 0, 0, 0x0102, 0x0304]), "::102:304");
    assert_eq!(v6([0xfe80, 0, 0, 0, 0xabcd, 0xef, 0x10, 0xffff]), "fe80::abcd:ef:10:ffff");
    assert_eq!(IpAddress::V4([0, 10, 255, 1]).text(), "0.10.255.1");
}

#[test]
fn addresses_are_compared_by_their_bytes() {
    let mapped = IpAddress::V6([0, 0, 0, 0, 0, 0, 0, 0, 0, 0, 255, 255, 10, 0, 0, 1]);
    assert!(IpAddress::V4(SRC).same(&IpAddress::V4([10, 0, 0, 1])));
    assert!(!IpAddress::V4(SRC).same(&IpAddress::V4(DST)));
    assert!(!IpAddress::V4(SRC).same(&mapped));
    assert!(mapped.same(&mapped));
}

#[test]
fn different_addresses_have_different_texts() {
    let mut texts = Vec::new();
    for i in 0..16 {
        for value in [1u8, 255] {
            let mut b = [0u8; 16];
            b[i] = value;
            texts.push(IpAddress::V6(b).text());
            b[10] = 255;
            b[11] = 255;
            if i != 10 && i != 11 {
                texts.push(IpAddress::V6(b).text());
            }
        }
    }
    for i in 0..4 {
        let mut b = [0u8; 4];
        b[i] = 7;
        texts.push(IpAddress::V4(b).text());
    }
    let count = texts.len();
    texts.sort();
    texts.dedup();
    assert_eq!(texts.len(), count);
}
