//! The gap-detection engine: one continuity state per destination endpoint,
//! and the path of a captured frame into it.

use crate::decode::{
    ipv4_header_len, network_layer, transport_layer, udp_payload, EthernetFrame, IPPacket,
    IPv4Addr, IPv4Packet, LinuxCooked, NetworkLayer, ProtocolPacket, TransportLayer, UdpPacket,
};
use crate::exchange::{Exchange, Range};
use crate::stream::{observe, observed_gap, StreamContext, StreamState};
use crate::wire::be16;
use std::collections::HashMap;
use vstd::prelude::*;

verus! {

broadcast use vstd::std_specs::hash::group_hash_axioms;

/// The destination endpoint that identifies one feed stream.
#[derive(Copy, Clone, PartialEq, Eq, Hash, Debug)]
pub struct StreamKey {
    pub addr: IPv4Addr,
    pub port: u16,
}

impl StreamKey {
    /// The key as one number: the address bytes and the port as digits.
    spec fn code(self) -> int {
        (((self.addr@[0] as int * 0x100 + self.addr@[1] as int) * 0x100 + self.addr@[2] as int)
            * 0x100 + self.addr@[3] as int) * 0x10000 + self.port as int
    }

    /// Different keys have different codes, and every code fits in 48 bits.
    proof fn lemma_code(self, other: StreamKey)
        ensures
            0 <= self.code() < 0x1_0000_0000_0000,
            self.code() == other.code() ==> self == other,
    {
        self.addr.lemma_four_bytes();
        other.addr.lemma_four_bytes();
        if self.code() == other.code() {
            assert(self.addr@ =~= other.addr@);
            self.addr.lemma_same_bytes(other.addr);
        }
    }

    fn packed(&self) -> (code: u64)
        ensures
            code == self.code(),
    {
        let o: [u8; 4] = self.addr.octets();
        assert(o@[0] == self.addr@[0] && o@[1] == self.addr@[1] && o@[2] == self.addr@[2] && o@[3]
            == self.addr@[3]);
        (((o[0] as u64 * 0x100 + o[1] as u64) * 0x100 + o[2] as u64) * 0x100 + o[3] as u64)
            * 0x10000 + self.port as u64
    }
}

/// The state of a run: the exchange whose payloads are read, and the
/// continuity state of every stream seen so far.
pub struct Context {
    decoder: Exchange,
    /// The state of each stream, under its key packed into one number.
    stream_context: HashMap<u64, StreamContext>,
    /// The keys of `stream_context`, in the order in which they came.
    order: Vec<StreamKey>,
}

impl Context {
    /// The exchange whose payload layout the run reads.
    pub closed spec fn exchange(&self) -> Exchange {
        self.decoder
    }

    /// The state of every stream that has one.
    pub closed spec fn streams(&self) -> Map<StreamKey, StreamState> {
        Map::new(
            |k: StreamKey| self.stream_context@.contains_key(k.code() as u64),
            |k: StreamKey| self.stream_context@[k.code() as u64]@,
        )
    }

    /// The streams that have a state, in the order in which they got it.
    pub closed spec fn keys(&self) -> Seq<StreamKey> {
        self.order@
    }

    /// The state of the stream `key`, if it has one.
    pub open spec fn state(&self, key: StreamKey) -> Option<StreamState> {
        if self.streams().contains_key(key) {
            Some(self.streams()[key])
        } else {
            None
        }
    }

    /// How observing `range` on the stream `key` changes a run: the stream
    /// moves as [`observe`] says and is listed once it has a state; every
    /// other stream, and the exchange, stay as they are.
    pub open spec fn steps_to(&self, key: StreamKey, range: Range, after: &Context) -> bool {
        &&& after.exchange() == self.exchange()
        &&& after.streams() == match observe(self.state(key), range) {
            Some(next) => self.streams().insert(key, next),
            None => self.streams(),
        }
        &&& after.keys() == if self.state(key) is None && !range.is_sentinel() {
            self.keys().push(key)
        } else {
            self.keys()
        }
    }

    /// Nothing that the run keeps differs between `self` and `after`.
    pub open spec fn same_as(&self, after: &Context) -> bool {
        &&& after.exchange() == self.exchange()
        &&& after.streams() == self.streams()
        &&& after.keys() == self.keys()
    }

    /// Every stream with a state is listed once, and its state is well
    /// formed.
    pub open spec fn wf(&self) -> bool {
        &&& self.keys().no_duplicates()
        &&& forall|k: StreamKey| self.streams().contains_key(k) <==> self.keys().contains(k)
        &&& forall|k: StreamKey| self.streams().contains_key(k) ==> (#[trigger] self.streams()[k]).wf()
    }

    /// A run on `decoder`'s payloads that has seen no stream yet.
    pub fn new(decoder: Exchange) -> (context: Context)
        ensures
            context.wf(),
            context.exchange() == decoder,
            context.streams() == Map::<StreamKey, StreamState>::empty(),
            context.keys() == Seq::<StreamKey>::empty(),
    {
        let context = Context { decoder, stream_context: HashMap::new(), order: Vec::new() };
        assert(context.streams() =~= Map::<StreamKey, StreamState>::empty());
        context
    }

    /// The exchange whose payload layout the run reads.
    pub fn decoder(&self) -> (decoder: Exchange)
        ensures
            decoder == self.exchange(),
    {
        self.decoder
    }

    /// The streams that have a state, in the order in which they got it.
    pub fn stream_keys(&self) -> (keys: &Vec<StreamKey>)
        ensures
            keys@ == self.keys(),
    {
        &self.order
    }

    /// Observes `range` on the stream `key` and returns the gap it opened,
    /// if any. The first range that carries sequence information gives the
    /// stream its state; a sentinel changes nothing.
    pub fn observe(&mut self, key: StreamKey, range: Range) -> (gap: Option<Range>)
        requires
            old(self).wf(),
            range.end() <= u64::MAX,
        ensures
            final(self).wf(),
            old(self).steps_to(key, range, final(self)),
            gap == observed_gap(old(self).state(key), range),
    {
        if range.is_sentinel() {
            proof {
                if self.streams().contains_key(key) {
                    assert(self.streams().insert(key, self.streams()[key]) =~= self.streams());
                }
            }
            return None;
        }
        let code: u64 = key.packed();
        proof {
            key.lemma_code(key);
            assert forall|k: StreamKey| k.code() as u64 == code implies k == key by {
                k.lemma_code(key);
            }
        }
        let gap = match self.stream_context.remove(&code) {
            Some(mut state) => {
                assert(state@ == old(self).streams()[key]);
                let gap = state.update(range);
                self.stream_context.insert(code, state);
                gap
            },
            None => {
                self.stream_context.insert(code, StreamContext::first(range));
                self.order.push(key);
                None
            },
        };
        proof {
            let next = observe(old(self).state(key), range).unwrap();
            assert(self.streams() =~= old(self).streams().insert(key, next));
            if old(self).state(key) is None {
                assert(!old(self).keys().contains(key));
                assert(self.keys() == old(self).keys().push(key));
                assert forall|k: StreamKey| self.keys().contains(k) implies self.streams().contains_key(
                    k,
                ) by {
                    let i = choose|i: int| 0 <= i < self.keys().len() && self.keys()[i] == k;
                    if i < old(self).keys().len() {
                        assert(old(self).keys()[i] == k);
                        assert(old(self).keys().contains(k));
                        assert(old(self).streams().contains_key(k));
                    } else {
                        assert(k == key);
                    }
                }
                assert forall|k: StreamKey| self.streams().contains_key(k) implies self.keys().contains(
                    k,
                ) by {
                    if k == key {
                        assert(self.keys()[self.keys().len() - 1] == k);
                    } else {
                        assert(old(self).streams().contains_key(k));
                        assert(old(self).keys().contains(k));
                        let i = choose|i: int|
                            0 <= i < old(self).keys().len() && old(self).keys()[i] == k;
                        assert(self.keys()[i] == k);
                    }
                }
            }
        }
        gap
    }
}

/// The state kept for the stream that goes to `dest_addr`, port
/// `dest_port`; `None` for a stream on which no sequence information was
/// seen yet.
pub fn get_stream_context<'a>(dest_addr: IPv4Addr, dest_port: u16, context: &'a Context) -> (state:
    Option<&'a StreamContext>)
    ensures
        match state {
            Some(s) => context.state(StreamKey { addr: dest_addr, port: dest_port }) == Some(s@),
            None => context.state(StreamKey { addr: dest_addr, port: dest_port }) is None,
        },
{
    let key = StreamKey { addr: dest_addr, port: dest_port };
    let code: u64 = key.packed();
    proof {
        key.lemma_code(key);
    }
    context.stream_context.get(&code)
}

/// What a packet's sequence range told about its stream.
#[derive(Clone, Copy, Debug, PartialEq, Eq)]
pub struct Observation {
    /// The stream the packet belongs to.
    pub key: StreamKey,
    /// The sequence range that the packet carries.
    pub range: Range,
    /// The gap that the range opened, if any.
    pub gap: Option<Range>,
}

/// What became of one captured frame.
#[derive(Debug, PartialEq, Eq)]
pub enum Outcome {
    /// The frame carries nothing to sequence: it is cut short, or holds
    /// something other than UDP over IPv4.
    Skipped,
    /// The frame declares a UDP datagram that does not parse; the reason.
    Error(String),
    /// The frame's payload was read and observed on its stream.
    Observed(Observation),
}

/// What a frame holds for the engine, as plain values.
pub enum Sighting {
    /// Nothing to sequence.
    Nothing,
    /// A datagram that was declared and did not parse; the reason.
    Corrupt(Seq<char>),
    /// A UDP payload with the endpoint it goes to.
    Payload { addr: Seq<u8>, port: int, payload: Seq<u8> },
}

/// What the network layer of a frame holds for the engine. An IPv4 packet
/// shorter than the fixed header of 20 bytes holds nothing.
pub open spec fn sighting(layer: NetworkLayer) -> Sighting {
    match layer {
        NetworkLayer::IPv4(ip) => if ip.len() < 20 {
            Sighting::Nothing
        } else {
            match transport_layer(ip[9], ip.skip(ipv4_header_len(ip))) {
                TransportLayer::UDP(datagram) => Sighting::Payload {
                    addr: ip.subrange(16, 20),
                    port: be16(datagram, 2),
                    payload: udp_payload(datagram),
                },
                TransportLayer::Error(reason) => Sighting::Corrupt(reason),
                _ => Sighting::Nothing,
            }
        },
        _ => Sighting::Nothing,
    }
}

/// The framing of the packets of a capture, as the capture declares it.
#[derive(Clone, Copy, Debug, PartialEq, Eq, Structural)]
pub enum LinkType {
    Ethernet,
    LinuxCooked,
}

/// What the bytes of a captured frame hold for the engine. A frame shorter
/// than the header of its framing holds nothing.
pub open spec fn frame_sighting(link: LinkType, data: Seq<u8>) -> Sighting {
    match link {
        LinkType::Ethernet => if data.len() >= 14 {
            sighting(network_layer(be16(data, 12), data.skip(14)))
        } else {
            Sighting::Nothing
        },
        LinkType::LinuxCooked => if data.len() >= 16 {
            sighting(network_layer(be16(data, 14), data.skip(16)))
        } else {
            Sighting::Nothing
        },
    }
}

/// Whether `observation` is what observing the payload `payload`, sent to
/// `addr`, port `port`, reports on a run in state `before`, and `after`
/// the state it leaves.
pub open spec fn observes(
    before: &Context,
    after: &Context,
    addr: Seq<u8>,
    port: int,
    payload: Seq<u8>,
    observation: Observation,
) -> bool {
    &&& observation.key.addr@ == addr
    &&& observation.key.port == port
    &&& observation.range == before.exchange().sequence_of(payload)
    &&& observation.gap == observed_gap(before.state(observation.key), observation.range)
    &&& before.steps_to(observation.key, observation.range, after)
}

/// Whether `outcome` is what a frame that holds `seen` comes to on a run
/// in state `before`, and `after` the state it leaves.
pub open spec fn follows(before: &Context, after: &Context, seen: Sighting, outcome: Outcome) -> bool {
    match seen {
        Sighting::Nothing => outcome is Skipped && before.same_as(after),
        Sighting::Corrupt(reason) => {
            &&& outcome matches Outcome::Error(text)
            &&& text@ == reason
            &&& before.same_as(after)
        },
        Sighting::Payload { addr, port, payload } => {
            &&& outcome matches Outcome::Observed(observation)
            &&& observes(before, after, addr, port, payload, observation)
        },
    }
}

/// Reads the sequence range of a UDP datagram and observes it on the stream
/// that the packet's destination address and port name.
pub fn decode_udp(ip_packet: IPv4Packet, udp_packet: UdpPacket, context: &mut Context) -> (observation:
    Observation)
    requires
        old(context).wf(),
        ip_packet@.len() >= 20,
    ensures
        final(context).wf(),
        observes(
            old(context),
            final(context),
            ip_packet@.subrange(16, 20),
            be16(udp_packet@, 2),
            udp_payload(udp_packet@),
            observation,
        ),
{
    let key = StreamKey { addr: ip_packet.dest(), port: udp_packet.dst_port() };
    let range: Range = context.decoder().get_sequence(udp_packet.data());
    let gap = context.observe(key, range);
    Observation { key, range, gap }
}

/// Takes the network layer of a frame to the engine: a UDP datagram in an
/// IPv4 packet is observed, a datagram that does not parse is reported,
/// anything else is skipped.
pub fn decode_ip(p: IPPacket, context: &mut Context) -> (outcome: Outcome)
    requires
        old(context).wf(),
    ensures
        final(context).wf(),
        follows(old(context), final(context), sighting(p@), outcome),
{
    if let IPPacket::IPv4(packet) = p {
        if packet.len() >= 20 {
            match packet.protocol() {
                ProtocolPacket::UDP(udp) => {
                    return Outcome::Observed(decode_udp(packet, udp, context));
                },
                ProtocolPacket::Error(reason) => {
                    return Outcome::Error(reason);
                },
                _ => {},
            }
        }
    }
    Outcome::Skipped
}

/// Takes the bytes of a captured Ethernet frame to the engine. A frame
/// shorter than the Ethernet header is skipped.
pub fn decode_ethernet(data: &[u8], context: &mut Context) -> (outcome: Outcome)
    requires
        old(context).wf(),
    ensures
        final(context).wf(),
        follows(old(context), final(context), frame_sighting(LinkType::Ethernet, data@), outcome),
{
    if let Some(frame) = EthernetFrame::new(data) {
        return decode_ip(frame.protocol(), context);
    }
    Outcome::Skipped
}

/// Takes the bytes of a captured Linux "cooked" frame to the engine. A
/// frame shorter than the cooked-capture header is skipped.
pub fn decode_linux_cooked(data: &[u8], context: &mut Context) -> (outcome: Outcome)
    requires
        old(context).wf(),
    ensures
        final(context).wf(),
        follows(
            old(context),
            final(context),
            frame_sighting(LinkType::LinuxCooked, data@),
            outcome,
        ),
{
    if let Some(frame) = LinuxCooked::new(data) {
        return decode_ip(frame.protocol(), context);
    }
    Outcome::Skipped
}

/// Takes the bytes of a captured frame to the engine, decoding them by the
/// capture's framing.
pub fn decode_frame(link: LinkType, data: &[u8], context: &mut Context) -> (outcome: Outcome)
    requires
        old(context).wf(),
    ensures
        final(context).wf(),
        follows(old(context), final(context), frame_sighting(link, data@), outcome),
{
    match link {
        LinkType::Ethernet => decode_ethernet(data, context),
        LinkType::LinuxCooked => decode_linux_cooked(data, context),
    }
}

} // verus!
