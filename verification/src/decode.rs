//! Decoders for the framing around an exchange payload: Ethernet or Linux
//! "cooked" capture frames, IPv4 packets and UDP datagrams.
//!
//! Every decoder borrows the bytes it was made from and hands the enclosed
//! layer out as a sub-slice of them; nothing is copied.

use crate::wire::{be16, u16_at};
use vstd::prelude::*;
use vstd::slice::slice_subrange;

verus! {

/// A hardware address: six raw bytes.
pub type MacAddr = [u8; 6];

/// The six bytes of `data` at offset `at`.
fn mac_at(data: &[u8], at: usize) -> (mac: MacAddr)
    requires
        at + 6 <= data@.len(),
    ensures
        mac@ == data@.subrange(at as int, at + 6),
{
    let mac: MacAddr = [
        data[at],
        data[at + 1],
        data[at + 2],
        data[at + 3],
        data[at + 4],
        data[at + 5],
    ];
    assert(mac@ =~= data@.subrange(at as int, at + 6));
    mac
}

/// An IPv4 address: four raw bytes, compared and hashed by value.
#[derive(Copy, Clone, PartialEq, Eq, Hash, Debug)]
pub struct IPv4Addr {
    data: [u8; 4],
}

impl View for IPv4Addr {
    type V = Seq<u8>;

    closed spec fn view(&self) -> Seq<u8> {
        self.data@
    }
}

/// The decimal digit `d` as a character.
pub open spec fn digit(d: int) -> char {
    if d == 0 {
        '0'
    } else if d == 1 {
        '1'
    } else if d == 2 {
        '2'
    } else if d == 3 {
        '3'
    } else if d == 4 {
        '4'
    } else if d == 5 {
        '5'
    } else if d == 6 {
        '6'
    } else if d == 7 {
        '7'
    } else if d == 8 {
        '8'
    } else {
        '9'
    }
}

/// A byte in decimal, without leading zeros.
pub open spec fn decimal(n: u8) -> Seq<char> {
    if n < 10 {
        seq![digit(n as int)]
    } else if n < 100 {
        seq![digit(n as int / 10), digit(n as int % 10)]
    } else {
        seq![digit(n as int / 100), digit(n as int / 10 % 10), digit(n as int % 10)]
    }
}

/// Four bytes in dotted-decimal notation.
pub open spec fn dotted_decimal(octets: Seq<u8>) -> Seq<char> {
    decimal(octets[0]) + seq!['.'] + decimal(octets[1]) + seq!['.'] + decimal(octets[2]) + seq![
        '.',
    ] + decimal(octets[3])
}

/// The decimal digit `d` as a string.
fn digit_str(d: u8) -> (s: &'static str)
    requires
        d < 10,
    ensures
        s@ == seq![digit(d as int)],
{
    proof {
        reveal_strlit("0");
        reveal_strlit("1");
        reveal_strlit("2");
        reveal_strlit("3");
        reveal_strlit("4");
        reveal_strlit("5");
        reveal_strlit("6");
        reveal_strlit("7");
        reveal_strlit("8");
        reveal_strlit("9");
    }
    let s: &'static str = match d {
        0 => "0",
        1 => "1",
        2 => "2",
        3 => "3",
        4 => "4",
        5 => "5",
        6 => "6",
        7 => "7",
        8 => "8",
        _ => "9",
    };
    assert(s@ =~= seq![digit(d as int)]);
    s
}

/// Appends `n` in decimal to `out`.
fn push_decimal(out: &mut String, n: u8)
    ensures
        final(out)@ == old(out)@ + decimal(n),
{
    if n >= 100 {
        out.append(digit_str(n / 100));
    }
    if n >= 10 {
        out.append(digit_str(n / 10 % 10));
    }
    out.append(digit_str(n % 10));
    assert(out@ =~= old(out)@ + decimal(n));
}

impl IPv4Addr {
    /// The address `a.b.c.d`.
    pub fn from_bytes(a: u8, b: u8, c: u8, d: u8) -> (addr: IPv4Addr)
        ensures
            addr@ == seq![a, b, c, d],
    {
        let addr = IPv4Addr { data: [a, b, c, d] };
        assert(addr@ =~= seq![a, b, c, d]);
        addr
    }

    /// The four bytes of the address, first byte first.
    pub fn octets(&self) -> (octets: [u8; 4])
        ensures
            octets@ == self@,
            self@.len() == 4,
    {
        self.data
    }

    /// The address in dotted-decimal notation.
    pub fn to_string(&self) -> (text: String)
        ensures
            text@ == dotted_decimal(self@),
    {
        proof {
            reveal_strlit(".");
        }
        let mut text = String::new();
        push_decimal(&mut text, self.data[0]);
        text.append(".");
        push_decimal(&mut text, self.data[1]);
        text.append(".");
        push_decimal(&mut text, self.data[2]);
        text.append(".");
        push_decimal(&mut text, self.data[3]);
        assert(text@ =~= dotted_decimal(self@));
        text
    }

    /// An address has four bytes.
    pub proof fn lemma_four_bytes(self)
        ensures
            self@.len() == 4,
    {
    }

    /// Two addresses with the same bytes are the same address.
    pub proof fn lemma_same_bytes(self, other: IPv4Addr)
        requires
            self@ == other@,
        ensures
            self == other,
    {
        assert(self.data =~= other.data);
    }
}

/// The size of the fixed UDP header.
pub const UDP_HEADER: usize = 8;

/// Whether `data` holds a UDP datagram: the eight header bytes are there,
/// and the length field, which counts the header too, names no fewer than
/// eight bytes and no more than are there.
pub open spec fn udp_accepts(data: Seq<u8>) -> bool {
    data.len() >= 8 && 8 <= be16(data, 4) <= data.len()
}

/// The payload of the UDP datagram in `data`: what follows the header, as
/// far as the length field reaches.
pub open spec fn udp_payload(data: Seq<u8>) -> Seq<u8> {
    data.subrange(8, be16(data, 4))
}

/// A UDP datagram.
#[derive(Debug)]
pub struct UdpPacket<'a> {
    // u16 src, dest, length, checksum
    data: &'a [u8],
}

impl<'a> View for UdpPacket<'a> {
    type V = Seq<u8>;

    closed spec fn view(&self) -> Seq<u8> {
        self.data@
    }
}

impl<'a> UdpPacket<'a> {
    #[verifier::type_invariant]
    spec fn inv(self) -> bool {
        udp_accepts(self.data@)
    }

    /// Decodes `data` as a UDP datagram; `None` where the header is cut
    /// short or the length field disagrees with the bytes at hand.
    pub fn new(data: &'a [u8]) -> (packet: Option<UdpPacket<'a>>)
        ensures
            packet is Some <==> udp_accepts(data@),
            packet matches Some(p) ==> p@ == data@,
    {
        if data.len() >= UDP_HEADER {
            let length: usize = u16_at(data, 4) as usize;
            if length >= UDP_HEADER && data.len() >= length {
                return Some(UdpPacket { data });
            }
        }
        None
    }

    /// The length of the payload: the length field less the header.
    pub fn len(&self) -> (len: usize)
        ensures
            udp_accepts(self@),
            len == be16(self@, 4) - 8,
    {
        proof {
            use_type_invariant(self);
        }
        // subtract packet header
        u16_at(self.data, 4) as usize - UDP_HEADER
    }

    /// The source port.
    pub fn src_port(&self) -> (port: u16)
        ensures
            port == be16(self@, 0),
    {
        proof {
            use_type_invariant(self);
        }
        u16_at(self.data, 0)
    }

    /// The destination port.
    pub fn dst_port(&self) -> (port: u16)
        ensures
            port == be16(self@, 2),
    {
        proof {
            use_type_invariant(self);
        }
        u16_at(self.data, 2)
    }

    /// The checksum field, as transmitted.
    pub fn checksum(&self) -> (checksum: u16)
        ensures
            checksum == be16(self@, 6),
    {
        proof {
            use_type_invariant(self);
        }
        u16_at(self.data, 6)
    }

    /// The payload.
    pub fn data(&self) -> (payload: &'a [u8])
        ensures
            udp_accepts(self@),
            payload@ == udp_payload(self@),
    {
        proof {
            use_type_invariant(self);
        }
        let end: usize = u16_at(self.data, 4) as usize;
        slice_subrange(self.data, UDP_HEADER, end)
    }
}

/// What an IPv4 packet carries, by its protocol byte.
#[derive(Debug)]
pub enum ProtocolPacket<'a> {
    ICMP,
    IGMP,
    TCP,
    UDP(UdpPacket<'a>),
    /// The protocol byte declared a protocol that the body did not parse as.
    Error(String),
    Other,
}

/// A [`ProtocolPacket`] as plain values.
pub enum TransportLayer {
    ICMP,
    IGMP,
    TCP,
    UDP(Seq<u8>),
    Error(Seq<char>),
    Other,
}

impl<'a> View for ProtocolPacket<'a> {
    type V = TransportLayer;

    open spec fn view(&self) -> TransportLayer {
        match self {
            ProtocolPacket::ICMP => TransportLayer::ICMP,
            ProtocolPacket::IGMP => TransportLayer::IGMP,
            ProtocolPacket::TCP => TransportLayer::TCP,
            ProtocolPacket::UDP(p) => TransportLayer::UDP(p@),
            ProtocolPacket::Error(reason) => TransportLayer::Error(reason@),
            ProtocolPacket::Other => TransportLayer::Other,
        }
    }
}

/// What a packet with protocol byte `protocol` and body `body` carries.
pub open spec fn transport_layer(protocol: u8, body: Seq<u8>) -> TransportLayer {
    if protocol == 1 {
        TransportLayer::ICMP
    } else if protocol == 2 {
        TransportLayer::IGMP
    } else if protocol == 6 {
        TransportLayer::TCP
    } else if protocol == 17 {
        if udp_accepts(body) {
            TransportLayer::UDP(body)
        } else {
            TransportLayer::Error("Could not parse UDP packet"@)
        }
    } else {
        TransportLayer::Other
    }
}

/// The display name of a transport layer.
pub open spec fn transport_name(layer: TransportLayer) -> Seq<char> {
    match layer {
        TransportLayer::ICMP => "ICMP"@,
        TransportLayer::IGMP => "IGMP"@,
        TransportLayer::TCP => "TCP"@,
        TransportLayer::UDP(_) => "UDP"@,
        TransportLayer::Other => "Other"@,
        TransportLayer::Error(reason) => "Error: "@ + reason,
    }
}

impl<'a> ProtocolPacket<'a> {
    /// The protocol's name, or the reason of an error.
    pub fn name(&self) -> (name: String)
        ensures
            name@ == transport_name(self@),
    {
        match self {
            ProtocolPacket::ICMP => String::from_str("ICMP"),
            ProtocolPacket::IGMP => String::from_str("IGMP"),
            ProtocolPacket::TCP => String::from_str("TCP"),
            ProtocolPacket::UDP(_) => String::from_str("UDP"),
            ProtocolPacket::Other => String::from_str("Other"),
            ProtocolPacket::Error(s) => String::from_str("Error: ").concat(s.as_str()),
        }
    }
}

/// Whether `data` holds an IPv4 packet: the version nibble is 4 and the
/// header, whose length in 32-bit words is the low nibble of the first
/// byte, fits in the bytes at hand.
pub open spec fn ipv4_accepts(data: Seq<u8>) -> bool {
    data.len() >= 1 && data[0] / 16 == 4 && data.len() >= ipv4_header_len(data)
}

/// The header length that the first byte of `data` declares, in bytes.
pub open spec fn ipv4_header_len(data: Seq<u8>) -> int {
    4 * (data[0] % 16)
}

/// An IPv4 packet. Options are carried along but not interpreted.
#[derive(Debug)]
pub struct IPv4Packet<'a> {
    data: &'a [u8],
}

impl<'a> View for IPv4Packet<'a> {
    type V = Seq<u8>;

    closed spec fn view(&self) -> Seq<u8> {
        self.data@
    }
}

impl<'a> IPv4Packet<'a> {
    #[verifier::type_invariant]
    spec fn inv(self) -> bool {
        ipv4_accepts(self.data@)
    }

    /// Decodes `data` as an IPv4 packet; `None` where it is empty, of
    /// another version, or shorter than the header it declares.
    pub fn new(data: &'a [u8]) -> (packet: Option<IPv4Packet<'a>>)
        ensures
            packet is Some <==> ipv4_accepts(data@),
            packet matches Some(p) ==> p@ == data@,
    {
        if data.len() == 0 {
            return None;
        }
        let first: u8 = data[0];
        let version: u8 = first >> 4;
        let header_size: usize = (first & 0xf) as usize;
        assert(first >> 4 == first / 16) by (bit_vector);
        assert(first & 0xf == first % 16) by (bit_vector);
        if version == 4 && data.len() >= 4 * header_size {
            Some(IPv4Packet { data })
        } else {
            None
        }
    }

    /// The number of bytes at hand, header included.
    pub fn len(&self) -> (len: usize)
        ensures
            len == self@.len(),
            ipv4_accepts(self@),
    {
        proof {
            use_type_invariant(self);
        }
        self.data.len()
    }

    /// The header length in bytes.
    pub fn ihl(&self) -> (ihl: usize)
        ensures
            ihl == ipv4_header_len(self@),
            ihl <= self@.len(),
    {
        proof {
            use_type_invariant(self);
        }
        let first: u8 = self.data[0];
        assert(first & 0xf == first % 16) by (bit_vector);
        // IHL = number of 32 bit words
        ((first & 0xf) * 4) as usize
    }

    /// The total-length field.
    pub fn total_length(&self) -> (length: usize)
        requires
            self@.len() >= 4,
        ensures
            length == be16(self@, 2),
    {
        u16_at(self.data, 2) as usize
    }

    /// What the packet carries. A body that the protocol byte declares to be
    /// UDP and that does not parse as UDP is an error with its reason.
    pub fn protocol(&self) -> (packet: ProtocolPacket<'a>)
        requires
            self@.len() >= 10,
        ensures
            packet@ == transport_layer(self@[9], self@.skip(ipv4_header_len(self@))),
    {
        match self.data[9] {
            0x1 => ProtocolPacket::ICMP,
            0x2 => ProtocolPacket::IGMP,
            0x6 => ProtocolPacket::TCP,
            0x11 => {
                let body: &'a [u8] = slice_subrange(self.data, self.ihl(), self.data.len());
                assert(body@ =~= self@.skip(ipv4_header_len(self@)));
                match UdpPacket::new(body) {
                    Some(p) => ProtocolPacket::UDP(p),
                    None => ProtocolPacket::Error(String::from_str("Could not parse UDP packet")),
                }
            },
            _ => ProtocolPacket::Other,
        }
    }

    /// The source address.
    pub fn source(&self) -> (addr: IPv4Addr)
        requires
            self@.len() >= 16,
        ensures
            addr@ == self@.subrange(12, 16),
    {
        let addr = IPv4Addr::from_bytes(
            self.data[12],
            self.data[13],
            self.data[14],
            self.data[15],
        );
        assert(addr@ =~= self@.subrange(12, 16));
        addr
    }

    /// The destination address.
    pub fn dest(&self) -> (addr: IPv4Addr)
        requires
            self@.len() >= 20,
        ensures
            addr@ == self@.subrange(16, 20),
    {
        let addr = IPv4Addr::from_bytes(
            self.data[16],
            self.data[17],
            self.data[18],
            self.data[19],
        );
        assert(addr@ =~= self@.subrange(16, 20));
        addr
    }
}

/// What a link-layer frame carries, by its protocol field.
#[derive(Debug)]
pub enum IPPacket<'a> {
    Unknown,
    Arp,
    IPv4(IPv4Packet<'a>),
    IPv6,
}

/// An [`IPPacket`] as plain values.
pub enum NetworkLayer {
    Unknown,
    Arp,
    IPv4(Seq<u8>),
    IPv6,
}

impl<'a> View for IPPacket<'a> {
    type V = NetworkLayer;

    open spec fn view(&self) -> NetworkLayer {
        match self {
            IPPacket::Unknown => NetworkLayer::Unknown,
            IPPacket::Arp => NetworkLayer::Arp,
            IPPacket::IPv4(p) => NetworkLayer::IPv4(p@),
            IPPacket::IPv6 => NetworkLayer::IPv6,
        }
    }
}

/// What a frame with protocol field `ethertype` and payload `payload`
/// carries. A payload that is declared IPv4 and does not decode as IPv4 is
/// unknown.
pub open spec fn network_layer(ethertype: int, payload: Seq<u8>) -> NetworkLayer {
    if ethertype == 0x806 {
        NetworkLayer::Arp
    } else if ethertype == 0x86DD {
        NetworkLayer::IPv6
    } else if ethertype == 0x800 && ipv4_accepts(payload) {
        NetworkLayer::IPv4(payload)
    } else {
        NetworkLayer::Unknown
    }
}

/// Classifies the payload of a frame by the frame's protocol field.
fn classify<'a>(ethertype: u16, payload: &'a [u8]) -> (packet: IPPacket<'a>)
    ensures
        packet@ == network_layer(ethertype as int, payload@),
{
    match ethertype {
        0x806 => IPPacket::Arp,
        0x86DD => IPPacket::IPv6,
        0x800 => match IPv4Packet::new(payload) {
            Some(packet) => IPPacket::IPv4(packet),
            None => IPPacket::Unknown,
        },
        _ => IPPacket::Unknown,
    }
}

/// The size of the Ethernet header.
pub const ETHERNET_HEADER: usize = 14;

/// An Ethernet frame: destination and source address, ethertype, payload.
#[derive(Debug)]
pub struct EthernetFrame<'a> {
    data: &'a [u8],
}

impl<'a> View for EthernetFrame<'a> {
    type V = Seq<u8>;

    closed spec fn view(&self) -> Seq<u8> {
        self.data@
    }
}

impl<'a> EthernetFrame<'a> {
    #[verifier::type_invariant]
    spec fn inv(self) -> bool {
        self.data@.len() >= 14
    }

    /// Decodes `data` as an Ethernet frame; `None` where it is shorter than
    /// the header.
    pub fn new(data: &'a [u8]) -> (frame: Option<EthernetFrame<'a>>)
        ensures
            frame is Some <==> data@.len() >= 14,
            frame matches Some(f) ==> f@ == data@,
    {
        if data.len() < ETHERNET_HEADER {
            None
        } else {
            Some(EthernetFrame { data })
        }
    }

    /// The size of the header.
    pub fn size(&self) -> (size: usize)
        ensures
            size == 14,
            size <= self@.len(),
    {
        proof {
            use_type_invariant(self);
        }
        ETHERNET_HEADER
    }

    /// The destination address.
    pub fn destination(&self) -> (mac: MacAddr)
        ensures
            mac@ == self@.subrange(0, 6),
    {
        proof {
            use_type_invariant(self);
        }
        mac_at(self.data, 0)
    }

    /// The source address.
    pub fn source(&self) -> (mac: MacAddr)
        ensures
            mac@ == self@.subrange(6, 12),
    {
        proof {
            use_type_invariant(self);
        }
        mac_at(self.data, 6)
    }

    /// What the frame carries, by its ethertype.
    pub fn protocol(&self) -> (packet: IPPacket<'a>)
        ensures
            packet@ == network_layer(be16(self@, 12), self@.skip(14)),
    {
        proof {
            use_type_invariant(self);
        }
        let t: u16 = u16_at(self.data, 12);
        let payload: &'a [u8] = slice_subrange(self.data, ETHERNET_HEADER, self.data.len());
        assert(payload@ =~= self@.skip(14));
        classify(t, payload)
    }
}

/// The size of the cooked-capture header.
pub const COOKED_HEADER: usize = 16;

/// How a cooked-capture frame reached the capturing host.
#[derive(Clone, Copy, Debug, PartialEq, Eq, Structural)]
pub enum PacketType {
    Unknown,
    Multicast,
}

/// A Linux "cooked" capture frame: packet type, source address, protocol,
/// payload.
#[derive(Debug)]
pub struct LinuxCooked<'a> {
    data: &'a [u8],
}

impl<'a> View for LinuxCooked<'a> {
    type V = Seq<u8>;

    closed spec fn view(&self) -> Seq<u8> {
        self.data@
    }
}

impl<'a> LinuxCooked<'a> {
    #[verifier::type_invariant]
    spec fn inv(self) -> bool {
        self.data@.len() >= 16
    }

    /// Decodes `data` as a cooked-capture frame; `None` where it is shorter
    /// than the header.
    pub fn new(data: &'a [u8]) -> (frame: Option<LinuxCooked<'a>>)
        ensures
            frame is Some <==> data@.len() >= 16,
            frame matches Some(f) ==> f@ == data@,
    {
        if data.len() < COOKED_HEADER {
            None
        } else {
            Some(LinuxCooked { data })
        }
    }

    /// The packet type: multicast where the field holds 2.
    pub fn packet_type(&self) -> (packet_type: PacketType)
        ensures
            packet_type == if be16(self@, 0) == 2 {
                PacketType::Multicast
            } else {
                PacketType::Unknown
            },
    {
        proof {
            use_type_invariant(self);
        }
        match u16_at(self.data, 0) {
            2 => PacketType::Multicast,
            _ => PacketType::Unknown,
        }
    }

    /// The size of the header.
    pub fn size(&self) -> (size: usize)
        ensures
            size == 16,
            size <= self@.len(),
    {
        proof {
            use_type_invariant(self);
        }
        COOKED_HEADER
    }

    /// What the frame carries, by its protocol field.
    pub fn protocol(&self) -> (packet: IPPacket<'a>)
        ensures
            packet@ == network_layer(be16(self@, 14), self@.skip(16)),
    {
        proof {
            use_type_invariant(self);
        }
        let t: u16 = u16_at(self.data, 14);
        let payload: &'a [u8] = slice_subrange(self.data, COOKED_HEADER, self.data.len());
        assert(payload@ =~= self@.skip(16));
        classify(t, payload)
    }

    /// The source address.
    pub fn source(&self) -> (mac: MacAddr)
        ensures
            mac@ == self@.subrange(6, 12),
    {
        proof {
            use_type_invariant(self);
        }
        mac_at(self.data, 6)
    }
}

} // verus!
