//! From captured bytes to the packet that they hold.

use etherparse::NetSlice::{Ipv4, Ipv6};
use etherparse::SlicedPacket;
use etherparse::TransportSlice::{Icmpv4, Icmpv6, Tcp, Udp};
use vstd::prelude::*;

use self::Endpoints::{V4, V6};
use self::Segment::{Icmpv4Message, Icmpv6Message, TcpSegment, UdpDatagram};
use crate::address::IpAddress;

verus! {

/// The protocols that the monitor counts.
#[derive(Clone, Copy, Debug, PartialEq, Eq, Structural)]
pub enum Protocol {
    Tcp,
    Udp,
    Sctp,
    Icmpv4,
    Icmpv6,
}

/// The name of a protocol.
pub open spec fn protocol_name(protocol: Protocol) -> Seq<char> {
    match protocol {
        Protocol::Tcp => "TCP"@,
        Protocol::Udp => "UDP"@,
        Protocol::Sctp => "SCTP"@,
        Protocol::Icmpv4 => "ICMPv4"@,
        Protocol::Icmpv6 => "ICMPv6"@,
    }
}

impl Protocol {
    /// The name of the protocol.
    pub fn as_str(self) -> (name: &'static str)
        ensures
            name@ == protocol_name(self),
    {
        match self {
            Protocol::Tcp => "TCP",
            Protocol::Udp => "UDP",
            Protocol::Sctp => "SCTP",
            Protocol::Icmpv4 => "ICMPv4",
            Protocol::Icmpv6 => "ICMPv6",
        }
    }
}

/// What the monitor takes from a packet. An ICMP message has no ports: they hold its
/// echo identifier and sequence number, or its type and code.
#[derive(Clone, Copy, Debug)]
pub struct RawPacket {
    pub src_ip: IpAddress,
    pub dst_ip: IpAddress,
    pub src_port: u16,
    pub dst_port: u16,
    pub protocol: Protocol,
    pub length: u64,
}

/// The two addresses of an IP packet, the sender's first.
#[derive(Clone, Copy, Debug)]
pub enum Endpoints {
    V4([u8; 4], [u8; 4]),
    V6([u8; 16], [u8; 16]),
}

/// A transport header with its payload.
#[derive(Clone, Copy, Debug)]
pub enum Segment<Bytes> {
    TcpSegment(Bytes),
    UdpDatagram(Bytes),
    Icmpv4Message(Bytes),
    Icmpv6Message(Bytes),
}

/// The layers of a packet: its addresses; its IP payload, as protocol number, whether it
/// is a fragment, and bytes; its transport part.
#[derive(Clone, Copy, Debug)]
pub struct Layers<Bytes> {
    pub network: Option<Endpoints>,
    pub payload: Option<(u8, bool, Bytes)>,
    pub transport: Option<Segment<Bytes>>,
}

/// A segment with its bytes as a sequence.
pub open spec fn segment_view(segment: Segment<&[u8]>) -> Segment<Seq<u8>> {
    match segment {
        Segment::TcpSegment(b) => Segment::TcpSegment(b@),
        Segment::UdpDatagram(b) => Segment::UdpDatagram(b@),
        Segment::Icmpv4Message(b) => Segment::Icmpv4Message(b@),
        Segment::Icmpv6Message(b) => Segment::Icmpv6Message(b@),
    }
}

/// Layers with their bytes as sequences.
pub open spec fn layers_view(layers: Layers<&[u8]>) -> Layers<Seq<u8>> {
    Layers {
        network: layers.network,
        payload: match layers.payload {
            Some(p) => Some((p.0, p.1, p.2@)),
            None => None,
        },
        transport: match layers.transport {
            Some(t) => Some(segment_view(t)),
            None => None,
        },
    }
}

/// The layers of a packet that could be sliced, with their bytes as sequences.
pub open spec fn sliced_view(layers: Option<Layers<&[u8]>>) -> Option<Layers<Seq<u8>>> {
    match layers {
        Some(l) => Some(layers_view(l)),
        None => None,
    }
}

/// A transport part holds at least the fixed part of its header.
pub open spec fn headers_complete(layers: Layers<Seq<u8>>) -> bool {
    match layers.transport {
        Some(Segment::TcpSegment(b)) => b.len() >= 20,
        Some(Segment::UdpDatagram(b)) => b.len() >= 8,
        Some(Segment::Icmpv4Message(b)) => b.len() >= 8,
        Some(Segment::Icmpv6Message(b)) => b.len() >= 8,
        None => true,
    }
}

/// The layers of bytes that begin with an Ethernet II header, if they can be sliced.
pub uninterp spec fn ethernet_layers(bytes: Seq<u8>) -> Option<Layers<Seq<u8>>>;

/// The layers of bytes that begin with an IP header, if they can be sliced.
pub uninterp spec fn ip_layers(bytes: Seq<u8>) -> Option<Layers<Seq<u8>>>;

/// `SlicedPacket::from_ethernet` of etherparse. The result depends on the bytes alone; it
/// is named [`ethernet_layers`]. A slice of a transport protocol is at least as long as
/// the fixed part of its header: the constructors of the slices check that.
#[verifier::external_body]
fn slice_ethernet(bytes: &[u8]) -> (layers: Option<Layers<&[u8]>>)
    ensures
        sliced_view(layers) == ethernet_layers(bytes@),
        layers matches Some(l) ==> headers_complete(layers_view(l)),
{
    let packet = SlicedPacket::from_ethernet(bytes).ok()?;
    Some(Layers {
        payload: packet.ip_payload().map(|p| (p.ip_number.0, p.fragmented, p.payload)),
        network: packet.net.map(|n| match n {
            Ipv4(s) => V4(s.header().source(), s.header().destination()),
            Ipv6(s) => V6(s.header().source(), s.header().destination()),
        }),
        transport: packet.transport.map(|t| match t {
            Tcp(s) => TcpSegment(s.slice()),
            Udp(s) => UdpDatagram(s.slice()),
            Icmpv4(s) => Icmpv4Message(s.slice()),
            Icmpv6(s) => Icmpv6Message(s.slice()),
        }),
    })
}

/// `SlicedPacket::from_ip` of etherparse. The result depends on the bytes alone; it is
/// named [`ip_layers`]. A slice of a transport protocol is at least as long as the fixed
/// part of its header: the constructors of the slices check that.
#[verifier::external_body]
fn slice_ip(bytes: &[u8]) -> (layers: Option<Layers<&[u8]>>)
    ensures
        sliced_view(layers) == ip_layers(bytes@),
        layers matches Some(l) ==> headers_complete(layers_view(l)),
{
    let packet = SlicedPacket::from_ip(bytes).ok()?;
    Some(Layers {
        payload: packet.ip_payload().map(|p| (p.ip_number.0, p.fragmented, p.payload)),
        network: packet.net.map(|n| match n {
            Ipv4(s) => V4(s.header().source(), s.header().destination()),
            Ipv6(s) => V6(s.header().source(), s.header().destination()),
        }),
        transport: packet.transport.map(|t| match t {
            Tcp(s) => TcpSegment(s.slice()),
            Udp(s) => UdpDatagram(s.slice()),
            Icmpv4(s) => Icmpv4Message(s.slice()),
            Icmpv6(s) => Icmpv6Message(s.slice()),
        }),
    })
}

/// The number that two bytes at position `i` denote, the more significant one first.
pub open spec fn be16(bytes: Seq<u8>, i: int) -> u16 {
    (bytes[i] * 256 + bytes[i + 1]) as u16
}

/// `IcmpEchoHeader::from_bytes` of etherparse: the identifier is in the first two bytes
/// and the sequence number in the other two, each with the more significant byte first.
#[verifier::external_body]
fn echo_header(bytes5to8: [u8; 4]) -> (id_and_seq: (u16, u16))
    ensures
        id_and_seq.0 == be16(bytes5to8@, 0),
        id_and_seq.1 == be16(bytes5to8@, 2),
{
    let echo = etherparse::IcmpEchoHeader::from_bytes(bytes5to8);
    (echo.id, echo.seq)
}

fn read_be16(bytes: &[u8], i: usize) -> (n: u16)
    requires
        i + 1 < bytes@.len(),
    ensures
        n == be16(bytes@, i as int),
{
    (bytes[i] as u16) * 256 + (bytes[i + 1] as u16)
}

/// The ICMPv4 message types of an echo request and an echo reply.
pub const V4_ECHO_REQUEST: u8 = 8;

pub const V4_ECHO_REPLY: u8 = 0;

/// The ICMPv6 message types of an echo request and an echo reply.
pub const V6_ECHO_REQUEST: u8 = 128;

pub const V6_ECHO_REPLY: u8 = 129;

/// What stands for the ports of an ICMP message: the identifier and the sequence number
/// of an echo; else the type and the code in one number, and zero.
pub open spec fn icmp_ports(message: Seq<u8>, request: u8, reply: u8) -> (u16, u16) {
    if message.len() >= 8 && (message[0] == request || message[0] == reply) && message[1] == 0 {
        (be16(message, 4), be16(message, 6))
    } else {
        (be16(message, 0), 0)
    }
}

fn read_icmp_ports(message: &[u8], request: u8, reply: u8) -> (ports: (u16, u16))
    requires
        message@.len() >= 2,
    ensures
        ports == icmp_ports(message@, request, reply),
{
    let t: u8 = message[0];
    let c: u8 = message[1];
    if message.len() >= 8 && ((t == request && c == 0) || (t == reply && c == 0)) {
        return echo_header([message[4], message[5], message[6], message[7]]);
    }
    (read_be16(message, 0), 0)
}

/// What stands for the ports of an ICMPv4 message.
pub fn icmp_v4_ports(message: &[u8]) -> (ports: (u16, u16))
    requires
        message@.len() >= 2,
    ensures
        ports == icmp_ports(message@, V4_ECHO_REQUEST, V4_ECHO_REPLY),
{
    read_icmp_ports(message, V4_ECHO_REQUEST, V4_ECHO_REPLY)
}

/// What stands for the ports of an ICMPv6 message.
pub fn icmp_v6_ports(message: &[u8]) -> (ports: (u16, u16))
    requires
        message@.len() >= 2,
    ensures
        ports == icmp_ports(message@, V6_ECHO_REQUEST, V6_ECHO_REPLY),
{
    read_icmp_ports(message, V6_ECHO_REQUEST, V6_ECHO_REPLY)
}

/// The length of the common header of SCTP (RFC 4960): both ports, the verification tag
/// and the checksum.
pub const SCTP_HEADER_LEN: usize = 12;

/// The protocol number of SCTP in an IP header.
pub const SCTP_IP_NUMBER: u8 = 132;

/// The ports and the length of an SCTP packet, if it holds a whole common header.
pub open spec fn sctp_header(payload: Seq<u8>) -> Option<(u16, u16, u64)> {
    if payload.len() < SCTP_HEADER_LEN {
        None
    } else {
        Some((be16(payload, 0), be16(payload, 2), payload.len() as u64))
    }
}

/// The ports and the length of an SCTP packet, if it holds a whole common header.
pub fn sctp_ports_and_len(payload: &[u8]) -> (ports_and_len: Option<(u16, u16, u64)>)
    ensures
        ports_and_len == sctp_header(payload@),
{
    if payload.len() < SCTP_HEADER_LEN {
        return None;
    }
    Some((read_be16(payload, 0), read_be16(payload, 2), payload.len() as u64))
}

/// The address of the sender.
pub open spec fn source_of(network: Endpoints) -> IpAddress {
    match network {
        Endpoints::V4(src, _) => IpAddress::V4(src),
        Endpoints::V6(src, _) => IpAddress::V6(src),
    }
}

/// The address of the receiver.
pub open spec fn destination_of(network: Endpoints) -> IpAddress {
    match network {
        Endpoints::V4(_, dst) => IpAddress::V4(dst),
        Endpoints::V6(_, dst) => IpAddress::V6(dst),
    }
}

/// A packet between the two addresses.
pub open spec fn packet_between(
    network: Endpoints,
    ports: (u16, u16),
    protocol: Protocol,
    length: nat,
) -> RawPacket {
    RawPacket {
        src_ip: source_of(network),
        dst_ip: destination_of(network),
        src_port: ports.0,
        dst_port: ports.1,
        protocol,
        length: length as u64,
    }
}

/// The packet that a transport part makes up.
pub open spec fn transport_packet(network: Endpoints, segment: Segment<Seq<u8>>) -> RawPacket {
    match segment {
        Segment::TcpSegment(b) => packet_between(
            network,
            (be16(b, 0), be16(b, 2)),
            Protocol::Tcp,
            b.len(),
        ),
        Segment::UdpDatagram(b) => packet_between(
            network,
            (be16(b, 0), be16(b, 2)),
            Protocol::Udp,
            b.len(),
        ),
        Segment::Icmpv4Message(b) => packet_between(
            network,
            icmp_ports(b, V4_ECHO_REQUEST, V4_ECHO_REPLY),
            Protocol::Icmpv4,
            b.len(),
        ),
        Segment::Icmpv6Message(b) => packet_between(
            network,
            icmp_ports(b, V6_ECHO_REQUEST, V6_ECHO_REPLY),
            Protocol::Icmpv6,
            b.len(),
        ),
    }
}

/// The SCTP packet that an IP payload holds: it is one if the protocol number says so, it
/// is no fragment, and the common header is complete.
pub open spec fn sctp_packet(
    network: Endpoints,
    payload: Option<(u8, bool, Seq<u8>)>,
) -> Option<RawPacket> {
    match payload {
        Some((number, fragment, b)) => if number == SCTP_IP_NUMBER && !fragment && b.len()
            >= SCTP_HEADER_LEN {
            Some(packet_between(network, (be16(b, 0), be16(b, 2)), Protocol::Sctp, b.len()))
        } else {
            None
        },
        None => None,
    }
}

/// The packet that the layers hold: none without IP; else the TCP, UDP or ICMP packet, or
/// the SCTP packet in the IP payload.
pub open spec fn packet_of(layers: Layers<Seq<u8>>) -> Option<RawPacket> {
    match layers.network {
        Some(network) => match layers.transport {
            Some(segment) => Some(transport_packet(network, segment)),
            None => sctp_packet(network, layers.payload),
        },
        None => None,
    }
}

fn addresses(network: Endpoints) -> (pair: (IpAddress, IpAddress))
    ensures
        pair == (source_of(network), destination_of(network)),
{
    match network {
        Endpoints::V4(src, dst) => (IpAddress::V4(src), IpAddress::V4(dst)),
        Endpoints::V6(src, dst) => (IpAddress::V6(src), IpAddress::V6(dst)),
    }
}

/// The SCTP packet in an IP payload.
pub fn try_parse_sctp_after_ip(
    network: Endpoints,
    payload: Option<(u8, bool, &[u8])>,
) -> (packet: Option<RawPacket>)
    ensures
        packet == sctp_packet(
            network,
            match payload {
                Some(p) => Some((p.0, p.1, p.2@)),
                None => None,
            },
        ),
{
    let (src_ip, dst_ip) = addresses(network);
    match payload {
        Some((number, fragment, bytes)) => {
            if number != SCTP_IP_NUMBER || fragment {
                return None;
            }
            match sctp_ports_and_len(bytes) {
                Some((src_port, dst_port, length)) => Some(
                    RawPacket {
                        src_ip,
                        dst_ip,
                        src_port,
                        dst_port,
                        protocol: Protocol::Sctp,
                        length,
                    },
                ),
                None => None,
            }
        },
        None => None,
    }
}

fn byte_count(bytes: &[u8]) -> (n: u64)
    ensures
        n == bytes@.len(),
{
    bytes.len() as u64
}

/// The packet that the layers of a captured frame hold.
pub fn packet_from_layers(layers: &Layers<&[u8]>) -> (packet: Option<RawPacket>)
    requires
        headers_complete(layers_view(*layers)),
    ensures
        packet == packet_of(layers_view(*layers)),
{
    let network = match layers.network {
        Some(network) => network,
        None => return None,
    };
    let (src_ip, dst_ip) = addresses(network);
    match layers.transport {
        Some(segment) => {
            let (src_port, dst_port, protocol, length): (u16, u16, Protocol, u64) = match segment {
                Segment::TcpSegment(b) => (
                    read_be16(b, 0),
                    read_be16(b, 2),
                    Protocol::Tcp,
                    byte_count(b),
                ),
                Segment::UdpDatagram(b) => (
                    read_be16(b, 0),
                    read_be16(b, 2),
                    Protocol::Udp,
                    byte_count(b),
                ),
                Segment::Icmpv4Message(b) => {
                    let (id, seq) = icmp_v4_ports(b);
                    (id, seq, Protocol::Icmpv4, byte_count(b))
                },
                Segment::Icmpv6Message(b) => {
                    let (id, seq) = icmp_v6_ports(b);
                    (id, seq, Protocol::Icmpv6, byte_count(b))
                },
            };
            Some(RawPacket { src_ip, dst_ip, src_port, dst_port, protocol, length })
        },
        None => try_parse_sctp_after_ip(network, layers.payload),
    }
}

/// The packet that captured bytes hold: they are sliced from an Ethernet header on, or,
/// where that fails, from an IP header on.
pub open spec fn parsed(bytes: Seq<u8>) -> Option<RawPacket> {
    match ethernet_layers(bytes) {
        Some(layers) => packet_of(layers),
        None => match ip_layers(bytes) {
            Some(layers) => packet_of(layers),
            None => None,
        },
    }
}

/// The packet that captured bytes hold.
pub fn parse_packet(bytes: &[u8]) -> (packet: Option<RawPacket>)
    ensures
        packet == parsed(bytes@),
{
    match slice_ethernet(bytes) {
        Some(layers) => packet_from_layers(&layers),
        None => match slice_ip(bytes) {
            Some(layers) => packet_from_layers(&layers),
            None => None,
        },
    }
}

/// A packet with an IP header and a transport part is always captured, whichever version of
/// IP carries it: with the addresses of the IP header, the protocol of the transport part,
/// its number of bytes, and the two ports that its first four bytes denote. An ICMP message
/// has the identifier and the sequence number of an echo in place of the ports, and else
/// its type and code.
pub proof fn lemma_transport_is_captured(
    layers: Layers<Seq<u8>>,
    network: Endpoints,
    segment: Segment<Seq<u8>>,
)
    requires
        layers.network == Some(network),
        layers.transport == Some(segment),
        headers_complete(layers),
        match segment {
            Segment::TcpSegment(b) => b.len() <= u64::MAX,
            Segment::UdpDatagram(b) => b.len() <= u64::MAX,
            Segment::Icmpv4Message(b) => b.len() <= u64::MAX,
            Segment::Icmpv6Message(b) => b.len() <= u64::MAX,
        },
    ensures
        packet_of(layers) matches Some(p) && {
            &&& match network {
                Endpoints::V4(src, dst) => p.src_ip == IpAddress::V4(src) && p.dst_ip
                    == IpAddress::V4(dst),
                Endpoints::V6(src, dst) => p.src_ip == IpAddress::V6(src) && p.dst_ip
                    == IpAddress::V6(dst),
            }
            &&& match segment {
                Segment::TcpSegment(b) => {
                    &&& p.protocol == Protocol::Tcp
                    &&& p.length == b.len()
                    &&& p.src_port == b[0] * 256 + b[1]
                    &&& p.dst_port == b[2] * 256 + b[3]
                },
                Segment::UdpDatagram(b) => {
                    &&& p.protocol == Protocol::Udp
                    &&& p.length == b.len()
                    &&& p.src_port == b[0] * 256 + b[1]
                    &&& p.dst_port == b[2] * 256 + b[3]
                },
                Segment::Icmpv4Message(b) => {
                    &&& p.protocol == Protocol::Icmpv4
                    &&& p.length == b.len()
                    &&& (b[0] == 8 || b[0] == 0) && b[1] == 0 ==> p.src_port == b[4] * 256 + b[5]
                        && p.dst_port == b[6] * 256 + b[7]
                    &&& !((b[0] == 8 || b[0] == 0) && b[1] == 0) ==> p.src_port == b[0] * 256 + b[1]
                        && p.dst_port == 0
                },
                Segment::Icmpv6Message(b) => {
                    &&& p.protocol == Protocol::Icmpv6
                    &&& p.length == b.len()
                    &&& (b[0] == 128 || b[0] == 129) && b[1] == 0 ==> p.src_port == b[4] * 256
                        + b[5] && p.dst_port == b[6] * 256 + b[7]
                    &&& !((b[0] == 128 || b[0] == 129) && b[1] == 0) ==> p.src_port == b[0] * 256
                        + b[1] && p.dst_port == 0
                },
            }
        },
{
}

/// The addresses decide nothing but the addresses: two packets that differ in them alone,
/// also in the version of IP, are both captured or both not, and with the same ports,
/// protocol and length.
pub proof fn lemma_addresses_do_not_matter(a: Layers<Seq<u8>>, b: Layers<Seq<u8>>)
    requires
        a.network is Some,
        b.network is Some,
        a.payload == b.payload,
        a.transport == b.transport,
    ensures
        packet_of(a) is Some == packet_of(b) is Some,
        packet_of(a) matches Some(p) ==> packet_of(b) matches Some(q) && {
            &&& p.src_port == q.src_port
            &&& p.dst_port == q.dst_port
            &&& p.protocol == q.protocol
            &&& p.length == q.length
        },
{
}

/// A packet that goes back, from the receiver to the sender and with the ports exchanged,
/// is captured with its two ends exchanged.
pub proof fn lemma_way_back_is_mirrored(
    there: Layers<Seq<u8>>,
    back: Layers<Seq<u8>>,
    t: Seq<u8>,
    b: Seq<u8>,
)
    requires
        match (there.network, back.network) {
            (Some(Endpoints::V4(x, y)), Some(Endpoints::V4(u, v))) => x == v && y == u,
            (Some(Endpoints::V6(x, y)), Some(Endpoints::V6(u, v))) => x == v && y == u,
            _ => false,
        },
        match (there.transport, back.transport) {
            (Some(Segment::TcpSegment(x)), Some(Segment::TcpSegment(y))) => x == t && y == b,
            (Some(Segment::UdpDatagram(x)), Some(Segment::UdpDatagram(y))) => x == t && y == b,
            (None, None) => {
                &&& there.payload == Some((132u8, false, t))
                &&& back.payload == Some((132u8, false, b))
                &&& t.len() >= 12
            },
            _ => false,
        },
        t.len() == b.len(),
        t[0] == b[2] && t[1] == b[3] && t[2] == b[0] && t[3] == b[1],
    ensures
        packet_of(there) matches Some(p) && packet_of(back) matches Some(q) && {
            &&& q.src_ip == p.dst_ip
            &&& q.dst_ip == p.src_ip
            &&& q.src_port == p.dst_port
            &&& q.dst_port == p.src_port
            &&& q.protocol == p.protocol
            &&& q.length == p.length
        },
{
}

/// An IP payload of protocol number 132 that is no fragment and holds the twelve bytes of
/// a common header is an SCTP packet, with the ports in its first four bytes; nothing else
/// without a transport part is captured.
pub proof fn lemma_sctp_is_captured(layers: Layers<Seq<u8>>, network: Endpoints)
    requires
        layers.network == Some(network),
        layers.transport is None,
    ensures
        packet_of(layers) is Some == (layers.payload matches Some((number, fragment, b)) && number
            == 132 && !fragment && b.len() >= 12),
        packet_of(layers) matches Some(p) ==> {
            &&& p.protocol == Protocol::Sctp
            &&& match network {
                Endpoints::V4(src, dst) => p.src_ip == IpAddress::V4(src) && p.dst_ip
                    == IpAddress::V4(dst),
                Endpoints::V6(src, dst) => p.src_ip == IpAddress::V6(src) && p.dst_ip
                    == IpAddress::V6(dst),
            }
            &&& layers.payload matches Some((_, _, b)) && {
                &&& p.src_port == b[0] * 256 + b[1]
                &&& p.dst_port == b[2] * 256 + b[3]
                &&& b.len() <= u64::MAX ==> p.length == b.len()
            }
        },
{
}

/// An IP packet is captured alike with an Ethernet header before it and without one, and
/// what an Ethernet header leads to is not read in another way.
pub proof fn lemma_link_header_does_not_matter(
    frame: Seq<u8>,
    bare: Seq<u8>,
    layers: Layers<Seq<u8>>,
)
    requires
        ethernet_layers(frame) == Some(layers),
        ethernet_layers(bare) is None,
        ip_layers(bare) == Some(layers),
    ensures
        parsed(frame) == parsed(bare),
        parsed(frame) == packet_of(layers),
        layers.network is Some && layers.transport is Some ==> parsed(frame) is Some,
        layers.network is None ==> parsed(frame) is None,
{
}

/// Bytes that hold neither an Ethernet frame nor an IP packet hold no packet.
pub proof fn lemma_no_layers_no_packet(bytes: Seq<u8>)
    requires
        ethernet_layers(bytes) is None,
        ip_layers(bytes) is None,
    ensures
        parsed(bytes) is None,
{
}

/// Layers are seen as they are: the addresses, the payload and the transport part, each with
/// all of its bytes and of its own kind.
pub proof fn lemma_layers_are_seen(layers: Layers<&[u8]>)
    ensures
        sliced_view(Some(layers)) == Some(layers_view(layers)),
        sliced_view(None) is None,
        layers_view(layers).network == layers.network,
        layers.payload is None <==> layers_view(layers).payload is None,
        layers.payload matches Some((number, fragment, b)) ==> layers_view(layers).payload == Some(
            (number, fragment, b@),
        ),
        layers.transport is None <==> layers_view(layers).transport is None,
        layers.transport matches Some(Segment::TcpSegment(b)) ==> layers_view(layers).transport
            == Some(Segment::TcpSegment(b@)),
        layers.transport matches Some(Segment::UdpDatagram(b)) ==> layers_view(layers).transport
            == Some(Segment::UdpDatagram(b@)),
        layers.transport matches Some(Segment::Icmpv4Message(b)) ==> layers_view(layers).transport
            == Some(Segment::Icmpv4Message(b@)),
        layers.transport matches Some(Segment::Icmpv6Message(b)) ==> layers_view(layers).transport
            == Some(Segment::Icmpv6Message(b@)),
{
}

/// An SCTP packet needs the twelve bytes of its header; its ports are in the first four, and
/// all of its bytes count.
pub proof fn lemma_sctp_header_is_read(payload: Seq<u8>)
    requires
        payload.len() <= u64::MAX,
    ensures
        sctp_header(payload) is Some <==> payload.len() >= 12,
        sctp_header(payload) matches Some((src, dst, length)) ==> {
            &&& src == payload[0] * 256 + payload[1]
            &&& dst == payload[2] * 256 + payload[3]
            &&& length == payload.len()
        },
{
}

} // verus!
