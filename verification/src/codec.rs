//! Encapsulation and decapsulation: chunking raw bytes into segments,
//! grouping segments into packets, wrapping packets into a frame, and the
//! inverse that flattens a frame back into the original byte stream.

use vstd::prelude::*;
use bytes::Bytes;
use crate::header::{default_ipv4, default_mac, default_port, lemma_header_eq, Header, Ipv4Address,
    MacAddress, PortAddress};
use crate::layers::{frame_bytes, packet_bytes, packets_bytes, segment_bytes, segments_bytes,
    Frame, Packet, Segment};
use crate::payload::{bytes_as_slice, bytes_from_vec, bytes_new, bytes_seq};
use vstd::arithmetic::div_mod::{lemma_basic_div, lemma_div_plus_one, lemma_mod_add_multiples_vanish,
    lemma_small_mod};

verus! {

/// How encapsulation treats an empty input: whether it yields no segments
/// at all, or a single segment with an empty payload. The caller chooses
/// explicitly; nothing is inferred.
#[derive(Debug, Clone, Copy, PartialEq, Eq, Structural)]
pub enum EmptyPolicy {
    /// An empty input yields a frame whose packets carry no segments.
    NoSegments,
    /// An empty input yields one segment with an empty payload.
    OneEmptySegment,
}

/// Splits a sequence into consecutive groups of `g` elements, in order;
/// the final group holds the remainder and may be shorter.
pub open spec fn groups_of<T>(s: Seq<T>, g: int) -> Seq<Seq<T>>
    decreases s.len(),
{
    if g < 1 || s.len() == 0 {
        Seq::<Seq<T>>::empty()
    } else if s.len() <= g {
        seq![s]
    } else {
        seq![s.take(g)] + groups_of(s.skip(g), g)
    }
}

/// Splits a byte stream into consecutive chunks of `c` bytes; the final
/// chunk holds the remainder and may be shorter.
pub open spec fn chunks_of(s: Seq<u8>, c: int) -> Seq<Seq<u8>> {
    groups_of(s, c)
}

/// The payload byte sequences of a sequence of segments, in order.
pub open spec fn segment_payloads(ss: Seq<Segment>) -> Seq<Seq<u8>> {
    ss.map_values(|s: Segment| bytes_seq(s.payload))
}

/// The segment sequences carried by a sequence of packets, in order.
pub open spec fn packet_pdus(ps: Seq<Packet>) -> Seq<Seq<Segment>> {
    ps.map_values(|p: Packet| p.pdu@)
}

/// The payload byte sequences of every segment reachable from a frame:
/// packet by packet, segment by segment, in stored order.
pub open spec fn frame_payloads(f: Frame) -> Seq<Seq<Seq<u8>>> {
    f.network_pdu@.map_values(|p: Packet| segment_payloads(p.pdu@))
}

/// The segment payloads that encapsulation produces for `data`: its chunks,
/// or one empty payload when the data is empty and the policy asks for a
/// segment anyway.
pub open spec fn planned_payloads(data: Seq<u8>, c: int, policy: EmptyPolicy) -> Seq<Seq<u8>> {
    if data.len() == 0 && policy == EmptyPolicy::OneEmptySegment {
        seq![Seq::<u8>::empty()]
    } else {
        chunks_of(data, c)
    }
}

/// Grouping loses nothing: flattening the groups of `s` restores `s`.
pub proof fn lemma_groups_flatten<T>(s: Seq<T>, g: int)
    requires
        g >= 1,
    ensures
        groups_of(s, g).flatten() == s,
    decreases s.len(),
{
    if s.len() == 0 {
        assert(groups_of(s, g) =~= Seq::<Seq<T>>::empty());
        assert(groups_of(s, g).flatten() =~= s);
    } else if s.len() <= g {
        let gs = groups_of(s, g);
        assert(gs =~= seq![s]);
        gs.lemma_flatten_one_element();
    } else {
        let gs = groups_of(s, g);
        lemma_groups_flatten(s.skip(g), g);
        assert(gs.drop_first() =~= groups_of(s.skip(g), g));
        assert(gs.flatten() == gs.first() + gs.drop_first().flatten());
        assert(gs.flatten() =~= s);
    }
}

/// Grouping bound: `s` splits into exactly `ceil(len / g)` groups, written
/// with integer arithmetic as `(len + g - 1) / g`.
pub proof fn lemma_group_count<T>(s: Seq<T>, g: int)
    requires
        g >= 1,
    ensures
        groups_of(s, g).len() == (s.len() + g - 1) / g,
    decreases s.len(),
{
    if s.len() == 0 {
        lemma_basic_div(g - 1, g);
    } else if s.len() <= g {
        lemma_basic_div(s.len() - 1, g);
        lemma_div_plus_one(s.len() - 1, g);
    } else {
        lemma_group_count(s.skip(g), g);
        lemma_div_plus_one(s.len() - 1, g);
        assert(s.skip(g).len() + g - 1 == s.len() - 1);
    }
}

/// Chunk shapes: every chunk but the last holds exactly `c` bytes, and the
/// last holds the remainder, `len % c` bytes, or `c` when `c` divides the
/// length evenly. Flattened, the chunks hold exactly the input's bytes.
pub proof fn lemma_chunk_lengths(d: Seq<u8>, c: int)
    requires
        c >= 1,
        d.len() > 0,
    ensures
        chunks_of(d, c).len() > 0,
        forall|i: int|
            0 <= i < chunks_of(d, c).len() - 1 ==> (#[trigger] chunks_of(d, c)[i]).len() == c,
        chunks_of(d, c).last().len() == (if d.len() as int % c == 0 {
            c as int
        } else {
            d.len() as int % c
        }),
        chunks_of(d, c).flatten().len() == d.len(),
    decreases d.len(),
{
    lemma_groups_flatten(d, c);
    let cs = chunks_of(d, c);
    if d.len() <= c {
        assert(cs =~= seq![d]);
        if d.len() == c {
            assert(d.len() as int % c == 0) by {
                lemma_mod_add_multiples_vanish(0, c);
                lemma_small_mod(0nat, c as nat);
            }
        } else {
            lemma_small_mod(d.len(), c as nat);
        }
    } else {
        let rest = d.skip(c);
        lemma_chunk_lengths(rest, c);
        assert(cs[0].len() == c);
        assert forall|i: int| 0 <= i < cs.len() - 1 implies (#[trigger] cs[i]).len() == c by {
            if i > 0 {
                assert(cs[i] == chunks_of(rest, c)[i - 1]);
            }
        }
        assert(cs.last() == chunks_of(rest, c).last());
        assert(rest.len() as int % c == d.len() as int % c) by {
            lemma_mod_add_multiples_vanish(rest.len() as int, c);
        }
    }
}

/// Concatenating segment sequences concatenates their bytes.
pub proof fn lemma_segments_bytes_concat(a: Seq<Segment>, b: Seq<Segment>)
    ensures
        segments_bytes(a + b) == segments_bytes(a) + segments_bytes(b),
    decreases a.len(),
{
    if a.len() == 0 {
        assert(a + b =~= b);
        assert(segments_bytes(a) + segments_bytes(b) =~= segments_bytes(b));
    } else {
        lemma_segments_bytes_concat(a.skip(1), b);
        assert((a + b).skip(1) =~= a.skip(1) + b);
        assert(segments_bytes(a + b) =~= segments_bytes(a) + segments_bytes(b));
    }
}

/// Concatenating packet sequences concatenates their bytes.
pub proof fn lemma_packets_bytes_concat(a: Seq<Packet>, b: Seq<Packet>)
    ensures
        packets_bytes(a + b) == packets_bytes(a) + packets_bytes(b),
    decreases a.len(),
{
    if a.len() == 0 {
        assert(a + b =~= b);
        assert(packets_bytes(a) + packets_bytes(b) =~= packets_bytes(b));
    } else {
        lemma_packets_bytes_concat(a.skip(1), b);
        assert((a + b).skip(1) =~= a.skip(1) + b);
        assert(packets_bytes(a + b) =~= packets_bytes(a) + packets_bytes(b));
    }
}

/// The bytes of a segment sequence are its payloads, flattened.
pub proof fn lemma_segments_bytes_is_flatten(ss: Seq<Segment>)
    ensures
        segments_bytes(ss) == segment_payloads(ss).flatten(),
    decreases ss.len(),
{
    if ss.len() == 0 {
        assert(segment_payloads(ss) =~= Seq::<Seq<u8>>::empty());
        assert(segment_payloads(ss).flatten() =~= segments_bytes(ss));
    } else {
        lemma_segments_bytes_is_flatten(ss.skip(1));
        let sp = segment_payloads(ss);
        assert(sp.drop_first() =~= segment_payloads(ss.skip(1)));
        assert(sp.flatten() == sp.first() + sp.drop_first().flatten());
        assert(segments_bytes(ss) == segment_bytes(ss[0]) + segments_bytes(ss.skip(1)));
    }
}

/// Packets whose segment sequences are the groups of `ss` carry exactly
/// the bytes of `ss`.
pub proof fn lemma_packets_bytes_of_groups(ps: Seq<Packet>, ss: Seq<Segment>, g: int)
    requires
        g >= 1,
        packet_pdus(ps) == groups_of(ss, g),
    ensures
        packets_bytes(ps) == segments_bytes(ss),
    decreases ss.len(),
{
    assert(packet_pdus(ps).len() == ps.len());
    if ss.len() == 0 {
        assert(groups_of(ss, g).len() == 0);
        assert(ps.len() == 0);
        assert(segments_bytes(ss) =~= packets_bytes(ps));
    } else if ss.len() <= g {
        assert(groups_of(ss, g) =~= seq![ss]);
        assert(ps.len() == 1);
        assert(ps[0].pdu@ == packet_pdus(ps)[0]);
        assert(ps[0].pdu@ == ss);
        assert(ps.skip(1) =~= Seq::<Packet>::empty());
        assert(packets_bytes(ps.skip(1)) == Seq::<u8>::empty());
        assert(packets_bytes(ps) == segments_bytes(ss) + Seq::<u8>::empty());
        assert(segments_bytes(ss) + Seq::<u8>::empty() =~= segments_bytes(ss));
    } else {
        let rest = ps.skip(1);
        assert(groups_of(ss, g) == seq![ss.take(g)] + groups_of(ss.skip(g), g));
        assert forall|i: int| 0 <= i < rest.len() implies packet_pdus(rest)[i] == groups_of(
            ss.skip(g),
            g,
        )[i] by {
            assert(packet_pdus(rest)[i] == rest[i].pdu@);
            assert(rest[i] == ps[i + 1]);
            assert(packet_pdus(ps)[i + 1] == ps[i + 1].pdu@);
            assert(groups_of(ss, g)[i + 1] == groups_of(ss.skip(g), g)[i]);
        }
        assert(packet_pdus(rest) =~= groups_of(ss.skip(g), g));
        lemma_packets_bytes_of_groups(rest, ss.skip(g), g);
        assert(ps[0].pdu@ == packet_pdus(ps)[0]);
        assert(ps[0].pdu@ == ss.take(g));
        lemma_segments_bytes_concat(ss.take(g), ss.skip(g));
        assert(ss.take(g) + ss.skip(g) =~= ss);
        assert(packets_bytes(ps) == segments_bytes(ss.take(g)) + segments_bytes(ss.skip(g)));
    }
}

/// Mapping payloads commutes with grouping: the payload views of the
/// groups of `ss` are the groups of the payload views of `ss`.
pub proof fn lemma_groups_map_payloads(ss: Seq<Segment>, g: int)
    requires
        g >= 1,
    ensures
        groups_of(ss, g).map_values(|grp: Seq<Segment>| segment_payloads(grp)) == groups_of(
            segment_payloads(ss),
            g,
        ),
    decreases ss.len(),
{
    let f = |grp: Seq<Segment>| segment_payloads(grp);
    let sp = segment_payloads(ss);
    if ss.len() == 0 {
        assert(groups_of(ss, g).map_values(f) =~= groups_of(sp, g));
    } else if ss.len() <= g {
        assert(groups_of(ss, g).map_values(f) =~= seq![segment_payloads(ss)]);
        assert(groups_of(sp, g) =~= seq![sp]);
    } else {
        lemma_groups_map_payloads(ss.skip(g), g);
        assert(segment_payloads(ss.skip(g)) =~= sp.skip(g));
        assert(segment_payloads(ss.take(g)) =~= sp.take(g));
        assert(groups_of(ss, g).map_values(f) =~= seq![sp.take(g)] + groups_of(sp.skip(g), g));
        assert(groups_of(sp, g) == seq![sp.take(g)] + groups_of(sp.skip(g), g));
    }
}

/// Round trip: grouping the chunks of any byte stream `d` and flattening
/// the result back out restores `d` exactly, for every positive chunk size
/// and group size. Decapsulation is the left inverse of encapsulation.
pub proof fn lemma_round_trip(d: Seq<u8>, c: int, g: int)
    requires
        c >= 1,
        g >= 1,
    ensures
        groups_of(chunks_of(d, c), g).flatten().flatten() == d,
{
    lemma_groups_flatten(chunks_of(d, c), g);
    lemma_groups_flatten(d, c);
}

/// Grouping bounds: `d` chunks into `ceil(len(d) / c)` segments, and those
/// group into `ceil(segment count / g)` packets.
pub proof fn lemma_grouping_bounds(d: Seq<u8>, c: int, g: int)
    requires
        c >= 1,
        g >= 1,
    ensures
        chunks_of(d, c).len() == (d.len() + c - 1) / c,
        groups_of(chunks_of(d, c), g).len() == (chunks_of(d, c).len() + g - 1) / g,
{
    lemma_group_count(d, c);
    lemma_group_count(chunks_of(d, c), g);
}

/// Grouping keeps positions: group `i`, offset `j` holds element
/// `i * g + j` of the original sequence.
pub proof fn lemma_groups_index<T>(s: Seq<T>, g: int, i: int, j: int)
    requires
        g >= 1,
        0 <= i < groups_of(s, g).len(),
        0 <= j < groups_of(s, g)[i].len(),
    ensures
        0 <= i * g + j < s.len(),
        groups_of(s, g)[i][j] == s[i * g + j],
    decreases s.len(),
{
    if s.len() <= g {
        assert(groups_of(s, g) =~= seq![s]);
        assert(i == 0);
    } else if i == 0 {
        assert(groups_of(s, g)[0] == s.take(g));
    } else {
        assert(groups_of(s, g)[i] == groups_of(s.skip(g), g)[i - 1]);
        lemma_groups_index(s.skip(g), g, i - 1, j);
        assert((i - 1) * g + g == i * g) by (nonlinear_arith);
        assert(s.skip(g)[(i - 1) * g + j] == s[i * g + j]);
    }
}

/// Splits raw application data into transport segments of at most
/// `chunk_size` bytes each, in order; every segment gets the given header.
/// An empty input yields what the policy asks for: no segments, or one
/// segment with an empty payload.
pub fn segmentize(data: &Bytes, chunk_size: usize, header: Header<PortAddress>,
    policy: EmptyPolicy) -> (r: Vec<Segment>)
    requires
        chunk_size >= 1,
    ensures
        segment_payloads(r@) == planned_payloads(bytes_seq(*data), chunk_size as int, policy),
        forall|i: int| 0 <= i < r@.len() ==> (#[trigger] r@[i]).header == header,
        segments_bytes(r@) == bytes_seq(*data),
{
    let hsrc: u16 = header.addresses.0;
    let hdst: u16 = header.addresses.1;
    let s: &[u8] = bytes_as_slice(data);
    let n: usize = s.len();
    let c: Ghost<int> = Ghost(chunk_size as int);
    let mut r: Vec<Segment> = Vec::new();
    if n == 0 {
        match policy {
            EmptyPolicy::NoSegments => {
                proof {
                    assert(segment_payloads(r@) =~= Seq::<Seq<u8>>::empty());
                    assert(chunks_of(s@, c@) == Seq::<Seq<u8>>::empty());
                }
            },
            EmptyPolicy::OneEmptySegment => {
                let seg = Segment::new(Header::new(hsrc, hdst), bytes_new());
                proof {
                    lemma_header_eq(seg.header, header);
                }
                r.push(seg);
                proof {
                    assert(segment_payloads(r@) =~= seq![Seq::<u8>::empty()]);
                    assert(r@.skip(1) =~= Seq::<Segment>::empty());
                    assert(segments_bytes(r@.skip(1)) == Seq::<u8>::empty());
                    assert(segments_bytes(r@) == segment_bytes(seg) + Seq::<u8>::empty());
                    assert(segment_bytes(seg) + Seq::<u8>::empty() =~= Seq::<u8>::empty());
                }
            },
        }
    } else {
        proof {
            assert(s@.skip(0) =~= s@);
            assert(segment_payloads(r@) =~= Seq::<Seq<u8>>::empty());
            assert(segment_payloads(r@) + chunks_of(s@, c@) =~= chunks_of(s@, c@));
        }
        let mut i: usize = 0;
        while i < n
            invariant
                chunk_size >= 1,
                c@ == chunk_size as int,
                hsrc == header.addresses.0,
                hdst == header.addresses.1,
                s@ == bytes_seq(*data),
                n == s@.len(),
                i <= n,
                segment_payloads(r@) + chunks_of(s@.skip(i as int), c@) == chunks_of(s@, c@),
                forall|k: int| 0 <= k < r@.len() ==> (#[trigger] r@[k]).header == header,
            decreases n - i,
        {
            let end: usize = if n - i <= chunk_size {
                n
            } else {
                i + chunk_size
            };
            let mut chunk: Vec<u8> = Vec::new();
            let mut j: usize = i;
            while j < end
                invariant
                    i <= j <= end,
                    end <= n,
                    n == s@.len(),
                    chunk@ == s@.subrange(i as int, j as int),
                decreases end - j,
            {
                chunk.push(s[j]);
                j = j + 1;
                proof {
                    assert(s@.subrange(i as int, j as int) =~= s@.subrange(
                        i as int,
                        j - 1,
                    ).push(s@[j - 1]));
                }
            }
            let ghost prev = r@;
            let ghost chunk_view = chunk@;
            let seg = Segment::new(Header::new(hsrc, hdst), bytes_from_vec(chunk));
            r.push(seg);
            proof {
                lemma_header_eq(seg.header, header);
                let t = s@.skip(i as int);
                if n - i <= chunk_size {
                    assert(chunks_of(t, c@) == seq![t]);
                    assert(chunk_view =~= t);
                    assert(s@.skip(end as int) =~= Seq::<u8>::empty());
                    assert(chunks_of(s@.skip(end as int), c@) == Seq::<Seq<u8>>::empty());
                    assert(chunks_of(t, c@) =~= seq![chunk_view] + chunks_of(
                        s@.skip(end as int),
                        c@,
                    ));
                } else {
                    assert(chunks_of(t, c@) == seq![t.take(c@)] + chunks_of(t.skip(c@), c@));
                    assert(t.take(c@) =~= chunk_view);
                    assert(t.skip(c@) =~= s@.skip(end as int));
                }
                assert(segment_payloads(r@) =~= segment_payloads(prev) + seq![chunk_view]);
                assert(segment_payloads(r@) + chunks_of(s@.skip(end as int), c@)
                    =~= segment_payloads(prev) + chunks_of(s@.skip(i as int), c@));
            }
            i = end;
        }
        proof {
            assert(s@.skip(n as int) =~= Seq::<u8>::empty());
            assert(chunks_of(s@.skip(n as int), c@) == Seq::<Seq<u8>>::empty());
            assert(segment_payloads(r@) =~= segment_payloads(r@) + chunks_of(
                s@.skip(n as int),
                c@,
            ));
        }
    }
    proof {
        lemma_segments_bytes_is_flatten(r@);
        lemma_groups_flatten(s@, c@);
        if s@.len() == 0 && policy == EmptyPolicy::OneEmptySegment {
            segment_payloads(r@).lemma_flatten_one_element();
        }
    }
    r
}

/// Groups an ordered segment sequence into packets of at most `group_size`
/// segments each, preserving order; every packet gets the given header.
pub fn packetize(segments: Vec<Segment>, group_size: usize, header: Header<Ipv4Address>) -> (r:
    Vec<Packet>)
    requires
        group_size >= 1,
    ensures
        packet_pdus(r@) == groups_of(segments@, group_size as int),
        forall|i: int| 0 <= i < r@.len() ==> (#[trigger] r@[i]).header == header,
        packets_bytes(r@) == segments_bytes(segments@),
{
    let hsrc: u32 = header.addresses.0;
    let hdst: u32 = header.addresses.1;
    let ghost all = segments@;
    let g: Ghost<int> = Ghost(group_size as int);
    let mut rest = segments;
    let mut r: Vec<Packet> = Vec::new();
    while rest.len() > 0
        invariant
            group_size >= 1,
            g@ == group_size as int,
            hsrc == header.addresses.0,
            hdst == header.addresses.1,
            packet_pdus(r@) + groups_of(rest@, g@) == groups_of(all, g@),
            forall|k: int| 0 <= k < r@.len() ==> (#[trigger] r@[k]).header == header,
        decreases rest@.len(),
    {
        let g_len: usize = if rest.len() <= group_size {
            rest.len()
        } else {
            group_size
        };
        let ghost prev_rest = rest@;
        let ghost prev_pkts = r@;
        let tail = rest.split_off(g_len);
        let pkt = Packet::new(Header::new(hsrc, hdst), rest);
        r.push(pkt);
        proof {
            lemma_header_eq(pkt.header, header);
            assert(pkt.pdu@ =~= prev_rest.take(g_len as int));
            assert(tail@ =~= prev_rest.skip(g_len as int));
            if prev_rest.len() <= g@ {
                assert(groups_of(prev_rest, g@) == seq![prev_rest]);
                assert(pkt.pdu@ =~= prev_rest);
                assert(tail@.len() == 0);
                assert(groups_of(tail@, g@) == Seq::<Seq<Segment>>::empty());
                assert(groups_of(prev_rest, g@) =~= seq![pkt.pdu@] + groups_of(tail@, g@));
            } else {
                assert(groups_of(prev_rest, g@) == seq![prev_rest.take(g@)] + groups_of(
                    prev_rest.skip(g@),
                    g@,
                ));
                assert(pkt.pdu@ =~= prev_rest.take(g@));
                assert(tail@ =~= prev_rest.skip(g@));
            }
            assert(packet_pdus(r@) =~= packet_pdus(prev_pkts) + seq![pkt.pdu@]);
            assert(packet_pdus(r@) + groups_of(tail@, g@) =~= groups_of(all, g@));
        }
        rest = tail;
    }
    proof {
        assert(groups_of(rest@, g@) == Seq::<Seq<Segment>>::empty());
        assert(packet_pdus(r@) =~= packet_pdus(r@) + groups_of(rest@, g@));
        lemma_packets_bytes_of_groups(r@, all, g@);
    }
    r
}

/// Encapsulates raw application data into a single frame: chunks the data
/// into segments of `chunk_size` bytes, groups segments `group_size` to a
/// packet, and wraps every packet into one frame, using the given headers
/// at the three layers. Loss-free: the frame carries exactly the input
/// bytes, in order.
pub fn encapsulate_with(data: &Bytes, chunk_size: usize, group_size: usize, policy: EmptyPolicy,
    segment_header: Header<PortAddress>, packet_header: Header<Ipv4Address>,
    frame_header: Header<MacAddress>) -> (r: Frame)
    requires
        chunk_size >= 1,
        group_size >= 1,
    ensures
        r.header == frame_header,
        forall|i: int|
            0 <= i < r.network_pdu@.len() ==> (#[trigger] r.network_pdu@[i]).header
                == packet_header,
        forall|i: int, j: int|
            0 <= i < r.network_pdu@.len() && 0 <= j < r.network_pdu@[i].pdu@.len() ==> (
            #[trigger] r.network_pdu@[i].pdu@[j]).header == segment_header,
        frame_payloads(r) == groups_of(
            planned_payloads(bytes_seq(*data), chunk_size as int, policy),
            group_size as int,
        ),
        frame_bytes(r) == bytes_seq(*data),
{
    let segments = segmentize(data, chunk_size, segment_header, policy);
    let ghost ss = segments@;
    let packets = packetize(segments, group_size, packet_header);
    let frame = Frame::new(frame_header, packets);
    proof {
        let g = group_size as int;
        assert forall|i: int, j: int|
            0 <= i < frame.network_pdu@.len() && 0 <= j < frame.network_pdu@[i].pdu@.len() implies (
        #[trigger] frame.network_pdu@[i].pdu@[j]).header == segment_header by {
            assert(frame.network_pdu@[i].pdu@ == packet_pdus(frame.network_pdu@)[i]);
            lemma_groups_index(ss, g, i, j);
        }
        let f = |grp: Seq<Segment>| segment_payloads(grp);
        lemma_groups_map_payloads(ss, g);
        assert(frame_payloads(frame) =~= packet_pdus(frame.network_pdu@).map_values(f));
    }
    frame
}

/// Encapsulates raw application data with the canonical default headers
/// at every layer: port 80 to port 80, loopback to loopback, all-zero MAC
/// to all-zero MAC.
pub fn encapsulate(data: &Bytes, chunk_size: usize, group_size: usize, policy: EmptyPolicy) -> (r:
    Frame)
    requires
        chunk_size >= 1,
        group_size >= 1,
    ensures
        r.header.addresses.0 == default_mac(),
        r.header.addresses.1 == default_mac(),
        forall|i: int|
            0 <= i < r.network_pdu@.len() ==> (#[trigger] r.network_pdu@[i]).header.addresses == (
            default_ipv4(),
            default_ipv4(),
            ),
        forall|i: int, j: int|
            0 <= i < r.network_pdu@.len() && 0 <= j < r.network_pdu@[i].pdu@.len() ==> (
            #[trigger] r.network_pdu@[i].pdu@[j]).header.addresses == (
            default_port(),
            default_port(),
            ),
        frame_payloads(r) == groups_of(
            planned_payloads(bytes_seq(*data), chunk_size as int, policy),
            group_size as int,
        ),
        frame_bytes(r) == bytes_seq(*data),
{
    encapsulate_with(
        data,
        chunk_size,
        group_size,
        policy,
        Header::default(),
        Header::default(),
        Header::default(),
    )
}

/// Recovers the original byte stream from a frame: packets in stored
/// order, each packet's segments in stored order, each segment's payload
/// bytes concatenated. The exact left inverse of encapsulation.
pub fn decapsulate(frame: &Frame) -> (r: Bytes)
    ensures
        bytes_seq(r) == frame_bytes(*frame),
{
    let mut out: Vec<u8> = Vec::new();
    let ghost pkts = frame.network_pdu@;
    let mut pi: usize = 0;
    while pi < frame.network_pdu.len()
        invariant
            pi <= pkts.len(),
            pkts == frame.network_pdu@,
            out@ == packets_bytes(pkts.take(pi as int)),
        decreases pkts.len() - pi,
    {
        let packet: &Packet = &frame.network_pdu[pi];
        let ghost segs = packet.pdu@;
        let ghost out_before = out@;
        let mut si: usize = 0;
        while si < packet.pdu.len()
            invariant
                si <= segs.len(),
                segs == packet.pdu@,
                pi < pkts.len(),
                segs == pkts[pi as int].pdu@,
                out@ == out_before + segments_bytes(segs.take(si as int)),
            decreases segs.len() - si,
        {
            let seg: &Segment = &packet.pdu[si];
            let b: &[u8] = bytes_as_slice(&seg.payload);
            let ghost out_seg = out@;
            let mut bi: usize = 0;
            while bi < b.len()
                invariant
                    bi <= b@.len(),
                    out@ == out_seg + b@.take(bi as int),
                decreases b@.len() - bi,
            {
                out.push(b[bi]);
                bi = bi + 1;
                proof {
                    assert(b@.take(bi as int) =~= b@.take(bi - 1).push(b@[bi - 1]));
                }
            }
            proof {
                assert(b@.take(b@.len() as int) =~= b@);
                assert(segs.take(si + 1) =~= segs.take(si as int) + seq![segs[si as int]]);
                lemma_segments_bytes_concat(segs.take(si as int), seq![segs[si as int]]);
                assert(seq![segs[si as int]].skip(1) =~= Seq::<Segment>::empty());
                assert(segments_bytes(seq![segs[si as int]].skip(1)) == Seq::<u8>::empty());
                assert(segments_bytes(seq![segs[si as int]]) == segment_bytes(segs[si as int])
                    + Seq::<u8>::empty());
                assert(segment_bytes(segs[si as int]) + Seq::<u8>::empty() =~= segment_bytes(
                    segs[si as int],
                ));
            }
            si = si + 1;
        }
        proof {
            assert(segs.take(segs.len() as int) =~= segs);
            assert(pkts.take(pi + 1) =~= pkts.take(pi as int) + seq![pkts[pi as int]]);
            lemma_packets_bytes_concat(pkts.take(pi as int), seq![pkts[pi as int]]);
            assert(seq![pkts[pi as int]].skip(1) =~= Seq::<Packet>::empty());
            assert(packets_bytes(seq![pkts[pi as int]].skip(1)) == Seq::<u8>::empty());
            assert(packets_bytes(seq![pkts[pi as int]]) == packet_bytes(pkts[pi as int])
                + Seq::<u8>::empty());
            assert(packet_bytes(pkts[pi as int]) + Seq::<u8>::empty() =~= packet_bytes(
                pkts[pi as int],
            ));
        }
        pi = pi + 1;
    }
    proof {
        assert(pkts.take(pkts.len() as int) =~= pkts);
    }
    bytes_from_vec(out)
}

} // verus!
