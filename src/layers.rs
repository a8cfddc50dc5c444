use pnet::packet::Packet;
use vstd::prelude::*;

verus! {

/// Ethertype of IPv4 in a link-layer header.
pub const ETHERTYPE_IPV4: u16 = 0x0800;

/// IP protocol number of UDP.
pub const IP_PROTOCOL_UDP: u8 = 17;

/// Big-endian 16-bit field at offset `i`.
pub open spec fn be16_at(b: Seq<u8>, i: int) -> int {
    b[i] as int * 256 + b[i + 1] as int
}

/// Ethernet header: 14 bytes, ethertype at offset 12, payload is the rest.
pub open spec fn ethernet_decode(f: Seq<u8>) -> Option<(u16, Seq<u8>)> {
    if f.len() >= 14 {
        Some((be16_at(f, 12) as u16, f.subrange(14, f.len() as int)))
    } else {
        None
    }
}

/// What the relay reads of an IPv4 header.
pub struct Ipv4Fields {
    pub multicast_destination: bool,
    pub protocol: u8,
    pub payload: Vec<u8>,
}

/// Offset of the IPv4 payload: the header length in 32-bit words, at least 20.
pub open spec fn ipv4_payload_start(p: Seq<u8>) -> int {
    let h = (p[0] % 16) as int * 4;
    if h > 20 { h } else { 20 }
}

/// End of the IPv4 payload: the total length field less the header length,
/// clamped to the buffer.
pub open spec fn ipv4_payload_end(p: Seq<u8>) -> int {
    let h = (p[0] % 16) as int * 4;
    let total = be16_at(p, 2);
    let plen = if total > h { total - h } else { 0 };
    let e = ipv4_payload_start(p) + plen;
    if e < p.len() { e } else { p.len() as int }
}

pub open spec fn ipv4_payload(p: Seq<u8>) -> Seq<u8> {
    if p.len() <= ipv4_payload_start(p) {
        Seq::empty()
    } else {
        p.subrange(ipv4_payload_start(p), ipv4_payload_end(p))
    }
}

/// An IPv4 destination is multicast when it lies in 224.0.0.0/4.
pub open spec fn ipv4_decode(p: Seq<u8>) -> Option<(bool, u8, Seq<u8>)> {
    if p.len() >= 20 {
        Some((224 <= p[16] && p[16] <= 239, p[9], ipv4_payload(p)))
    } else {
        None
    }
}

/// UDP header: 8 bytes, payload is the rest.
pub open spec fn udp_decode(s: Seq<u8>) -> Option<Seq<u8>> {
    if s.len() >= 8 {
        Some(s.subrange(8, s.len() as int))
    } else {
        None
    }
}

/// Relies on pnet's `EthernetPacket::new`, `get_ethertype` and `payload`: a
/// buffer of at least 14 bytes is accepted, the ethertype is the big-endian
/// field at offset 12 and the payload is every byte after the header.
#[verifier::external_body]
pub(crate) fn ethernet_fields(frame: &[u8]) -> (r: Option<(u16, Vec<u8>)>)
    ensures
        match r {
            Some((t, p)) => ethernet_decode(frame@) == Some((t, p@)),
            None => ethernet_decode(frame@) is None,
        },
{
    pnet::packet::ethernet::EthernetPacket::new(frame).map(
        |e| (e.get_ethertype().0, e.payload().to_vec()),
    )
}

/// Relies on pnet's `Ipv4Packet::new`, `get_destination`, `get_next_level_protocol`
/// and `payload`, and on std's `Ipv4Addr::is_multicast`: a buffer of at least 20
/// bytes is accepted; the destination is at offset 16, the protocol at offset 9;
/// the payload starts after the header and spans the total length less the
/// header length, clamped to the buffer.
#[verifier::external_body]
pub(crate) fn ipv4_fields(packet: &[u8]) -> (r: Option<Ipv4Fields>)
    ensures
        match r {
            Some(h) => ipv4_decode(packet@) == Some(
                (h.multicast_destination, h.protocol, h.payload@),
            ),
            None => ipv4_decode(packet@) is None,
        },
{
    pnet::packet::ipv4::Ipv4Packet::new(packet).map(|p| Ipv4Fields {
        multicast_destination: p.get_destination().is_multicast(),
        protocol: p.get_next_level_protocol().0,
        payload: p.payload().to_vec(),
    })
}

/// Relies on pnet's `UdpPacket::new` and `payload`: a buffer of at least 8 bytes
/// is accepted and the payload is every byte after the header.
#[verifier::external_body]
pub(crate) fn udp_payload(segment: &[u8]) -> (r: Option<Vec<u8>>)
    ensures
        match r {
            Some(p) => udp_decode(segment@) == Some(p@),
            None => udp_decode(segment@) is None,
        },
{
    pnet::packet::udp::UdpPacket::new(segment).map(|u| u.payload().to_vec())
}

} // verus!
