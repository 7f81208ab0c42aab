//! The three protocol layer containers: a transport `Segment` carrying raw
//! bytes, a network `Packet` carrying an ordered sequence of segments, and a
//! data-link `Frame` carrying an ordered sequence of packets.

use vstd::prelude::*;
use bytes::Bytes;
use crate::header::{default_ipv4, default_mac, default_port, Header, Ipv4Address, MacAddress,
    PortAddress};
use crate::payload::{bytes_as_slice, bytes_new, bytes_seq};

verus! {

/// A Transport Layer Segment. It carries the raw application data payload.
pub struct Segment {
    pub header: Header<PortAddress>,
    pub payload: Bytes,
}

/// A Network Layer Packet. It contains the ordered `Segment`s of its
/// protocol data unit.
pub struct Packet {
    pub header: Header<Ipv4Address>,
    pub pdu: Vec<Segment>,
}

/// A Data Link Layer Frame: the final container, holding an ordered
/// sequence of `Packet`s.
pub struct Frame {
    pub header: Header<MacAddress>,
    pub network_pdu: Vec<Packet>,
}

/// The bytes carried by one segment.
pub open spec fn segment_bytes(s: Segment) -> Seq<u8> {
    bytes_seq(s.payload)
}

/// The bytes carried by a sequence of segments, concatenated in order.
pub open spec fn segments_bytes(ss: Seq<Segment>) -> Seq<u8>
    decreases ss.len(),
{
    if ss.len() == 0 {
        Seq::<u8>::empty()
    } else {
        segment_bytes(ss[0]) + segments_bytes(ss.skip(1))
    }
}

/// The bytes carried by one packet: its segments' bytes, concatenated in
/// stored order.
pub open spec fn packet_bytes(p: Packet) -> Seq<u8> {
    segments_bytes(p.pdu@)
}

/// The bytes carried by a sequence of packets, concatenated in order.
pub open spec fn packets_bytes(ps: Seq<Packet>) -> Seq<u8>
    decreases ps.len(),
{
    if ps.len() == 0 {
        Seq::<u8>::empty()
    } else {
        packet_bytes(ps[0]) + packets_bytes(ps.skip(1))
    }
}

/// The bytes carried by a frame: every reachable segment's payload,
/// depth-first, preserving sequence order at every level.
pub open spec fn frame_bytes(f: Frame) -> Seq<u8> {
    packets_bytes(f.network_pdu@)
}

impl Segment {
    /// Constructs a new segment; header and payload are stored verbatim.
    pub fn new(header: Header<PortAddress>, payload: Bytes) -> (r: Self)
        ensures
            r.header == header,
            r.payload == payload,
    {
        Self { header, payload }
    }

    /// The number of payload bytes.
    pub fn payload_len(&self) -> (r: usize)
        ensures
            r == bytes_seq(self.payload).len(),
    {
        bytes_as_slice(&self.payload).len()
    }

    /// The payload bytes as a plain vector, in stored order.
    pub fn payload_to_vec(&self) -> (r: Vec<u8>)
        ensures
            r@ == bytes_seq(self.payload),
    {
        let s: &[u8] = bytes_as_slice(&self.payload);
        let mut r: Vec<u8> = Vec::new();
        let mut i: usize = 0;
        while i < s.len()
            invariant
                i <= s@.len(),
                r@ == s@.take(i as int),
                s@ == bytes_seq(self.payload),
            decreases s@.len() - i,
        {
            r.push(s[i]);
            i = i + 1;
            proof {
                assert(s@.take(i as int) =~= s@.take(i - 1).push(s@[i - 1]));
            }
        }
        proof {
            assert(s@.take(s@.len() as int) =~= s@);
        }
        r
    }

    /// Consumes the segment, handing out its payload.
    pub fn into_payload(self) -> (r: Bytes)
        ensures
            r == self.payload,
    {
        self.payload
    }
}

impl Default for Segment {
    /// The zero-config segment: default transport header, empty payload.
    fn default() -> (r: Self)
        ensures
            r.header.addresses.0 == default_port(),
            r.header.addresses.1 == default_port(),
            bytes_seq(r.payload) == Seq::<u8>::empty(),
            segment_bytes(r) == Seq::<u8>::empty(),
    {
        Self { header: Header::default(), payload: bytes_new() }
    }
}

impl Packet {
    /// Constructs a new packet; header and segments are stored verbatim.
    pub fn new(header: Header<Ipv4Address>, pdu: Vec<Segment>) -> (r: Self)
        ensures
            r.header == header,
            r.pdu == pdu,
    {
        Self { header, pdu }
    }

    /// The number of segments carried.
    pub fn segment_count(&self) -> (r: usize)
        ensures
            r == self.pdu@.len(),
    {
        self.pdu.len()
    }

    /// Consumes the packet, handing out its segments in stored order.
    pub fn into_segments(self) -> (r: Vec<Segment>)
        ensures
            r == self.pdu,
    {
        self.pdu
    }
}

impl Default for Packet {
    /// The zero-config packet: default network header, no segments.
    fn default() -> (r: Self)
        ensures
            r.header.addresses.0 == default_ipv4(),
            r.header.addresses.1 == default_ipv4(),
            r.pdu@ == Seq::<Segment>::empty(),
            packet_bytes(r) == Seq::<u8>::empty(),
    {
        Self { header: Header::default(), pdu: Vec::new() }
    }
}

impl Frame {
    /// Constructs a new frame; header and packets are stored verbatim.
    pub fn new(header: Header<MacAddress>, network_pdu: Vec<Packet>) -> (r: Self)
        ensures
            r.header == header,
            r.network_pdu == network_pdu,
    {
        Self { header, network_pdu }
    }

    /// The number of packets carried.
    pub fn packet_count(&self) -> (r: usize)
        ensures
            r == self.network_pdu@.len(),
    {
        self.network_pdu.len()
    }

    /// Consumes the frame, handing out its packets in stored order.
    pub fn into_packets(self) -> (r: Vec<Packet>)
        ensures
            r == self.network_pdu,
    {
        self.network_pdu
    }
}

impl Default for Frame {
    /// The zero-config frame: default link header, no packets.
    fn default() -> (r: Self)
        ensures
            r.header.addresses.0 == default_mac(),
            r.header.addresses.1 == default_mac(),
            r.network_pdu@ == Seq::<Packet>::empty(),
            frame_bytes(r) == Seq::<u8>::empty(),
    {
        Self { header: Header::default(), network_pdu: Vec::new() }
    }
}

} // verus!
