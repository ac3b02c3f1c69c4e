//! The bytes of a minimal UDP datagram in an IPv4 packet in an Ethernet
//! frame, and the proof that the decoders read back what was put in.

use crate::decode::{
    ipv4_accepts, ipv4_header_len, network_layer, transport_layer, udp_accepts, udp_payload,
    NetworkLayer, TransportLayer,
};
use crate::engine::{frame_sighting, LinkType, Sighting};
use crate::wire::be16;
use vstd::prelude::*;

verus! {

/// The two bytes that spell `n`, most significant first.
pub open spec fn be16_bytes(n: int) -> Seq<u8> {
    seq![(n / 0x100) as u8, (n % 0x100) as u8]
}

/// A UDP datagram: the eight-byte header, with the checksum left at zero,
/// and the payload.
pub open spec fn udp_datagram(src_port: u16, dst_port: u16, payload: Seq<u8>) -> Seq<u8> {
    be16_bytes(src_port as int) + be16_bytes(dst_port as int) + be16_bytes(8 + payload.len() as int)
        + seq![0u8, 0u8] + payload
}

/// An IPv4 packet with the minimal header of 20 bytes, which holds the
/// version and header length, the total length, a time to live, the
/// protocol and the two addresses, and zero elsewhere.
pub open spec fn ipv4_packet(src: Seq<u8>, dst: Seq<u8>, protocol: u8, body: Seq<u8>) -> Seq<u8> {
    seq![0x45u8, 0u8] + be16_bytes(20 + body.len() as int) + seq![0u8, 0u8, 0u8, 0u8, 64u8, protocol, 0u8, 0u8]
        + src + dst + body
}

/// An Ethernet frame.
pub open spec fn ethernet_frame(
    destination: Seq<u8>,
    source: Seq<u8>,
    ethertype: int,
    payload: Seq<u8>,
) -> Seq<u8> {
    destination + source + be16_bytes(ethertype) + payload
}

/// A UDP datagram reads back as it was laid out.
pub proof fn lemma_udp_round_trip(src_port: u16, dst_port: u16, payload: Seq<u8>)
    requires
        8 + payload.len() <= 0xffff,
    ensures
        udp_accepts(udp_datagram(src_port, dst_port, payload)),
        be16(udp_datagram(src_port, dst_port, payload), 0) == src_port,
        be16(udp_datagram(src_port, dst_port, payload), 2) == dst_port,
        udp_payload(udp_datagram(src_port, dst_port, payload)) == payload,
{
    let d = udp_datagram(src_port, dst_port, payload);
    assert(d.len() == 8 + payload.len());
    assert(d[0] == (src_port as int / 0x100) as u8 && d[1] == (src_port as int % 0x100) as u8);
    assert(d[2] == (dst_port as int / 0x100) as u8 && d[3] == (dst_port as int % 0x100) as u8);
    assert(d[4] == ((8 + payload.len()) / 0x100) as u8 && d[5] == ((8 + payload.len()) % 0x100) as u8);
    assert(be16(d, 4) == 8 + payload.len());
    assert(udp_payload(d) =~= payload);
}

/// An IPv4 packet with the minimal header reads back as it was laid out.
pub proof fn lemma_ipv4_round_trip(src: Seq<u8>, dst: Seq<u8>, protocol: u8, body: Seq<u8>)
    requires
        src.len() == 4,
        dst.len() == 4,
        20 + body.len() <= 0xffff,
    ensures
        ipv4_accepts(ipv4_packet(src, dst, protocol, body)),
        ipv4_header_len(ipv4_packet(src, dst, protocol, body)) == 20,
        be16(ipv4_packet(src, dst, protocol, body), 2) == 20 + body.len(),
        ipv4_packet(src, dst, protocol, body)[9] == protocol,
        ipv4_packet(src, dst, protocol, body).subrange(12, 16) == src,
        ipv4_packet(src, dst, protocol, body).subrange(16, 20) == dst,
        ipv4_packet(src, dst, protocol, body).skip(20) == body,
{
    let p = ipv4_packet(src, dst, protocol, body);
    assert(p.len() == 20 + body.len());
    assert(p[0] == 0x45u8);
    assert(p[2] == ((20 + body.len()) / 0x100) as u8 && p[3] == ((20 + body.len()) % 0x100) as u8);
    assert(p[9] == protocol);
    assert(p.subrange(12, 16) =~= src);
    assert(p.subrange(16, 20) =~= dst);
    assert(p.skip(20) =~= body);
}

/// An Ethernet frame reads back as it was laid out.
pub proof fn lemma_ethernet_round_trip(
    destination: Seq<u8>,
    source: Seq<u8>,
    ethertype: u16,
    payload: Seq<u8>,
)
    requires
        destination.len() == 6,
        source.len() == 6,
    ensures
        ethernet_frame(destination, source, ethertype as int, payload).len() >= 14,
        ethernet_frame(destination, source, ethertype as int, payload).subrange(0, 6)
            == destination,
        ethernet_frame(destination, source, ethertype as int, payload).subrange(6, 12) == source,
        be16(ethernet_frame(destination, source, ethertype as int, payload), 12) == ethertype,
        ethernet_frame(destination, source, ethertype as int, payload).skip(14) == payload,
{
    let f = ethernet_frame(destination, source, ethertype as int, payload);
    assert(f.len() == 14 + payload.len());
    assert(f[12] == (ethertype as int / 0x100) as u8 && f[13] == (ethertype as int % 0x100) as u8);
    assert(f.subrange(0, 6) =~= destination);
    assert(f.subrange(6, 12) =~= source);
    assert(f.skip(14) =~= payload);
}

/// An Ethernet frame with ethertype 0x0800 around a minimal IPv4 packet
/// around a UDP datagram decodes, layer by layer, to the addresses, the
/// ports and the payload that it was laid out from, and holds for the
/// engine that payload on its way to the destination address and port.
pub proof fn lemma_frame_round_trip(
    destination: Seq<u8>,
    source: Seq<u8>,
    src: Seq<u8>,
    dst: Seq<u8>,
    src_port: u16,
    dst_port: u16,
    payload: Seq<u8>,
)
    requires
        destination.len() == 6,
        source.len() == 6,
        src.len() == 4,
        dst.len() == 4,
        28 + payload.len() <= 0xffff,
    ensures
        ({
            let datagram = udp_datagram(src_port, dst_port, payload);
            let packet = ipv4_packet(src, dst, 17, datagram);
            let frame = ethernet_frame(destination, source, 0x800, packet);
            &&& frame.len() >= 14
            &&& network_layer(be16(frame, 12), frame.skip(14)) == NetworkLayer::IPv4(packet)
            &&& packet.subrange(12, 16) == src
            &&& packet.subrange(16, 20) == dst
            &&& transport_layer(packet[9], packet.skip(ipv4_header_len(packet)))
                == TransportLayer::UDP(datagram)
            &&& be16(datagram, 0) == src_port
            &&& be16(datagram, 2) == dst_port
            &&& udp_payload(datagram) == payload
            &&& frame_sighting(LinkType::Ethernet, frame) == Sighting::Payload {
                addr: dst,
                port: dst_port as int,
                payload,
            }
        }),
{
    let datagram = udp_datagram(src_port, dst_port, payload);
    let packet = ipv4_packet(src, dst, 17, datagram);
    lemma_udp_round_trip(src_port, dst_port, payload);
    assert(datagram.len() == 8 + payload.len());
    lemma_ipv4_round_trip(src, dst, 17, datagram);
    lemma_ethernet_round_trip(destination, source, 0x800, packet);
}

} // verus!
