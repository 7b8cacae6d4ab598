//! Link-layer frames: which hosts an Ethernet frame with an IPv4 packet
//! runs between.

use pnet::packet::ethernet::EthernetPacket;
use pnet::packet::ipv4::Ipv4Packet;
use pnet::packet::Packet;
use vstd::prelude::*;

verus! {

/// Length of an Ethernet header.
pub const ETHERNET_HEADER_LEN: usize = 14;

/// Length of an IPv4 header without options.
pub const IPV4_HEADER_LEN: usize = 20;

/// The EtherType of IPv4.
pub const ETHERTYPE_IPV4: u16 = 0x0800;

/// Two bytes read as a number, most significant byte first.
pub open spec fn be16(bytes: Seq<u8>, at: int) -> int {
    bytes[at] as int * 0x100 + bytes[at + 1] as int
}

/// Four bytes read as a number, most significant byte first.
pub open spec fn be32(bytes: Seq<u8>, at: int) -> int {
    bytes[at] as int * 0x100_0000 + bytes[at + 1] as int * 0x1_0000 + bytes[at + 2] as int * 0x100
        + bytes[at + 3] as int
}

/// Source and destination address of the IPv4 packet at the start of
/// `packet`, if it holds a whole header.
pub open spec fn ipv4_endpoints_of(packet: Seq<u8>) -> Option<(u32, u32)> {
    if packet.len() >= IPV4_HEADER_LEN {
        Some((be32(packet, 12) as u32, be32(packet, 16) as u32))
    } else {
        None
    }
}

/// Source and destination address of the IPv4 packet that an Ethernet frame
/// carries; `None` for a frame that is too short or carries something else.
pub open spec fn endpoints_of(frame: Seq<u8>) -> Option<(u32, u32)> {
    if frame.len() >= ETHERNET_HEADER_LEN && be16(frame, 12) == ETHERTYPE_IPV4 {
        ipv4_endpoints_of(frame.skip(ETHERNET_HEADER_LEN as int))
    } else {
        None
    }
}

/// Calls `EthernetPacket::new`, `get_ethertype` and `payload` of pnet.
///
/// Not proved: that a frame of at least 14 bytes is accepted and a shorter
/// one refused, that the EtherType is bytes 12 and 13 read most significant
/// first, and that the payload is everything behind the first 14 bytes.
#[verifier::external_body]
fn ethertype_and_payload(frame: &[u8]) -> (r: Option<(u16, Vec<u8>)>)
    ensures
        r is Some <==> frame@.len() >= ETHERNET_HEADER_LEN,
        r matches Some(parts) ==> parts.0 as int == be16(frame@, 12) && parts.1@ == frame@.skip(
            ETHERNET_HEADER_LEN as int,
        ),
{
    match EthernetPacket::new(frame) {
        Some(ethernet) => Some((ethernet.get_ethertype().0, ethernet.payload().to_vec())),
        None => None,
    }
}

/// Calls `Ipv4Packet::new`, `get_source` and `get_destination` of pnet.
///
/// Not proved: that a packet of at least 20 bytes is accepted and a shorter
/// one refused, and that source and destination are bytes 12 to 15 and 16
/// to 19, each read most significant first.
#[verifier::external_body]
fn ipv4_source_and_destination(packet: &[u8]) -> (r: Option<(u32, u32)>)
    ensures
        r == ipv4_endpoints_of(packet@),
{
    match Ipv4Packet::new(packet) {
        Some(ipv4) => Some((u32::from(ipv4.get_source()), u32::from(ipv4.get_destination()))),
        None => None,
    }
}

/// The hosts that a captured frame runs between: source and destination of
/// its IPv4 packet, or `None` for a frame without one.
pub fn frame_endpoints(frame: &[u8]) -> (r: Option<(u32, u32)>)
    ensures
        r == endpoints_of(frame@),
{
    match ethertype_and_payload(frame) {
        Some(parts) => {
            if parts.0 == ETHERTYPE_IPV4 {
                ipv4_source_and_destination(parts.1.as_slice())
            } else {
                None
            }
        },
        None => None,
    }
}

} // verus!
