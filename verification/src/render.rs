//! Human-readable rendering of the layer containers: one header summary
//! line per container, then the recursive rendering of each payload
//! element, indented one tab deeper per level.

use vstd::prelude::*;
use crate::header::MacAddress;
use crate::layers::{Frame, Packet, Segment};
use crate::payload::{bytes_as_slice, bytes_seq};

verus! {

/// The single digit character for `d`, 0 through 15, upper case.
pub open spec fn digit_char(d: int) -> char {
    if d == 0 {
        '0'
    } else if d == 1 {
        '1'
    } else if d == 2 {
        '2'
    } else if d == 3 {
        '3'
    } else if d == 4 {
        '4'
    } else if d == 5 {
        '5'
    } else if d == 6 {
        '6'
    } else if d == 7 {
        '7'
    } else if d == 8 {
        '8'
    } else if d == 9 {
        '9'
    } else if d == 10 {
        'A'
    } else if d == 11 {
        'B'
    } else if d == 12 {
        'C'
    } else if d == 13 {
        'D'
    } else if d == 14 {
        'E'
    } else {
        'F'
    }
}

/// The upper-case hexadecimal rendering of `n`, most significant digit
/// first, without leading zeros.
pub open spec fn hex_chars(n: int) -> Seq<char>
    decreases n,
{
    if n < 16 {
        seq![digit_char(n)]
    } else {
        hex_chars(n / 16) + seq![digit_char(n % 16)]
    }
}

/// The decimal rendering of `n`, most significant digit first.
pub open spec fn dec_chars(n: int) -> Seq<char>
    decreases n,
{
    if n < 10 {
        seq![digit_char(n)]
    } else {
        dec_chars(n / 10) + seq![digit_char(n % 10)]
    }
}

/// `depth` tab characters.
pub open spec fn tabs(depth: nat) -> Seq<char>
    decreases depth,
{
    if depth == 0 {
        Seq::<char>::empty()
    } else {
        tabs((depth - 1) as nat) + "\t"@
    }
}

/// The bracketed hex rendering of a MAC address's six bytes.
pub open spec fn mac_chars(m: MacAddress) -> Seq<char> {
    "["@ + hex_chars(m[0] as int) + ", "@ + hex_chars(m[1] as int) + ", "@ + hex_chars(m[2] as int)
        + ", "@ + hex_chars(m[3] as int) + ", "@ + hex_chars(m[4] as int) + ", "@ + hex_chars(
        m[5] as int,
    ) + "]"@
}

/// One header summary line: source, destination, the payload element
/// count, and the element-kind label — singular exactly when the count
/// is one.
pub open spec fn header_line(src: Seq<char>, dst: Seq<char>, count: int, one: Seq<char>,
    many: Seq<char>) -> Seq<char> {
    "src: "@ + src + " -> dst: "@ + dst + " | "@ + dec_chars(count) + " "@ + (if count == 1 {
        one
    } else {
        many
    }) + " |\n"@
}

/// One payload byte, rendered in decimal on a line of its own.
pub open spec fn byte_line(b: u8, depth: nat) -> Seq<char> {
    tabs(depth) + dec_chars(b as int) + "\n"@
}

/// The payload bytes of a segment, one line each, in order.
pub open spec fn byte_lines(bs: Seq<u8>, depth: nat) -> Seq<char>
    decreases bs.len(),
{
    if bs.len() == 0 {
        Seq::<char>::empty()
    } else {
        byte_line(bs[0], depth) + byte_lines(bs.skip(1), depth)
    }
}

/// The full rendering of a segment: its header line at `depth` tabs of
/// indentation, then one line per payload byte, one level deeper.
pub open spec fn segment_render(s: Segment, depth: nat) -> Seq<char> {
    tabs(depth) + header_line(
        hex_chars(s.header.addresses.0 as int),
        hex_chars(s.header.addresses.1 as int),
        bytes_seq(s.payload).len() as int,
        "byte"@,
        "bytes"@,
    ) + byte_lines(bytes_seq(s.payload), depth + 1)
}

/// The renderings of a sequence of segments, concatenated in order.
pub open spec fn segment_renders(ss: Seq<Segment>, depth: nat) -> Seq<char>
    decreases ss.len(),
{
    if ss.len() == 0 {
        Seq::<char>::empty()
    } else {
        segment_render(ss[0], depth) + segment_renders(ss.skip(1), depth)
    }
}

/// The full rendering of a packet: its header line, then each segment's
/// rendering, one level deeper.
pub open spec fn packet_render(p: Packet, depth: nat) -> Seq<char> {
    tabs(depth) + header_line(
        hex_chars(p.header.addresses.0 as int),
        hex_chars(p.header.addresses.1 as int),
        p.pdu@.len() as int,
        "segment"@,
        "segments"@,
    ) + segment_renders(p.pdu@, depth + 1)
}

/// The renderings of a sequence of packets, concatenated in order.
pub open spec fn packet_renders(ps: Seq<Packet>, depth: nat) -> Seq<char>
    decreases ps.len(),
{
    if ps.len() == 0 {
        Seq::<char>::empty()
    } else {
        packet_render(ps[0], depth) + packet_renders(ps.skip(1), depth)
    }
}

/// The full rendering of a frame: its header line, then each packet's
/// rendering, one level deeper.
pub open spec fn frame_render(f: Frame, depth: nat) -> Seq<char> {
    tabs(depth) + header_line(
        mac_chars(f.header.addresses.0),
        mac_chars(f.header.addresses.1),
        f.network_pdu@.len() as int,
        "packet"@,
        "packets"@,
    ) + packet_renders(f.network_pdu@, depth + 1)
}

/// Concatenating byte sequences concatenates their renderings.
proof fn lemma_byte_lines_concat(a: Seq<u8>, b: Seq<u8>, depth: nat)
    ensures
        byte_lines(a + b, depth) == byte_lines(a, depth) + byte_lines(b, depth),
    decreases a.len(),
{
    if a.len() == 0 {
        assert(a + b =~= b);
        assert(byte_lines(a, depth) + byte_lines(b, depth) =~= byte_lines(b, depth));
    } else {
        lemma_byte_lines_concat(a.skip(1), b, depth);
        assert((a + b).skip(1) =~= a.skip(1) + b);
        assert(byte_lines(a + b, depth) =~= byte_lines(a, depth) + byte_lines(b, depth));
    }
}

/// Concatenating segment sequences concatenates their renderings.
proof fn lemma_segment_renders_concat(a: Seq<Segment>, b: Seq<Segment>, depth: nat)
    ensures
        segment_renders(a + b, depth) == segment_renders(a, depth) + segment_renders(b, depth),
    decreases a.len(),
{
    if a.len() == 0 {
        assert(a + b =~= b);
        assert(segment_renders(a, depth) + segment_renders(b, depth) =~= segment_renders(
            b,
            depth,
        ));
    } else {
        lemma_segment_renders_concat(a.skip(1), b, depth);
        assert((a + b).skip(1) =~= a.skip(1) + b);
        assert(segment_renders(a + b, depth) =~= segment_renders(a, depth) + segment_renders(
            b,
            depth,
        ));
    }
}

/// Concatenating packet sequences concatenates their renderings.
proof fn lemma_packet_renders_concat(a: Seq<Packet>, b: Seq<Packet>, depth: nat)
    ensures
        packet_renders(a + b, depth) == packet_renders(a, depth) + packet_renders(b, depth),
    decreases a.len(),
{
    if a.len() == 0 {
        assert(a + b =~= b);
        assert(packet_renders(a, depth) + packet_renders(b, depth) =~= packet_renders(b, depth));
    } else {
        lemma_packet_renders_concat(a.skip(1), b, depth);
        assert((a + b).skip(1) =~= a.skip(1) + b);
        assert(packet_renders(a + b, depth) =~= packet_renders(a, depth) + packet_renders(
            b,
            depth,
        ));
    }
}

/// One digit as a string slice.
fn digit_str(d: usize) -> (r: &'static str)
    requires
        d < 16,
    ensures
        r@ == seq![digit_char(d as int)],
{
    proof {
        reveal_strlit("0");
        reveal_strlit("1");
        reveal_strlit("2");
        reveal_strlit("3");
        reveal_strlit("4");
        reveal_strlit("5");
        reveal_strlit("6");
        reveal_strlit("7");
        reveal_strlit("8");
        reveal_strlit("9");
        reveal_strlit("A");
        reveal_strlit("B");
        reveal_strlit("C");
        reveal_strlit("D");
        reveal_strlit("E");
        reveal_strlit("F");
    }
    let r: &'static str = if d == 0 {
        "0"
    } else if d == 1 {
        "1"
    } else if d == 2 {
        "2"
    } else if d == 3 {
        "3"
    } else if d == 4 {
        "4"
    } else if d == 5 {
        "5"
    } else if d == 6 {
        "6"
    } else if d == 7 {
        "7"
    } else if d == 8 {
        "8"
    } else if d == 9 {
        "9"
    } else if d == 10 {
        "A"
    } else if d == 11 {
        "B"
    } else if d == 12 {
        "C"
    } else if d == 13 {
        "D"
    } else if d == 14 {
        "E"
    } else {
        "F"
    };
    proof {
        assert(r@ =~= seq![digit_char(d as int)]);
    }
    r
}

/// Appends the hexadecimal rendering of `n`.
fn append_hex(out: &mut String, n: u32)
    ensures
        final(out)@ == old(out)@ + hex_chars(n as int),
    decreases n,
{
    let ghost pre = out@;
    if n >= 16 {
        append_hex(out, n / 16);
        let d: u32 = n % 16;
        out.append(digit_str(d as usize));
        proof {
            assert(out@ =~= pre + hex_chars(n as int));
        }
    } else {
        out.append(digit_str(n as usize));
        proof {
            assert(out@ =~= pre + hex_chars(n as int));
        }
    }
}

/// Appends the decimal rendering of `n`.
fn append_dec(out: &mut String, n: usize)
    ensures
        final(out)@ == old(out)@ + dec_chars(n as int),
    decreases n,
{
    let ghost pre = out@;
    if n >= 10 {
        append_dec(out, n / 10);
        let d: usize = n % 10;
        out.append(digit_str(d));
        proof {
            assert(out@ =~= pre + dec_chars(n as int));
        }
    } else {
        out.append(digit_str(n));
        proof {
            assert(out@ =~= pre + dec_chars(n as int));
        }
    }
}

/// Appends `depth` tab characters.
fn append_tabs(out: &mut String, depth: usize)
    ensures
        final(out)@ == old(out)@ + tabs(depth as nat),
{
    let ghost pre = out@;
    proof {
        assert(pre + tabs(0nat) =~= pre);
    }
    let mut k: usize = 0;
    while k < depth
        invariant
            k <= depth,
            out@ == pre + tabs(k as nat),
        decreases depth - k,
    {
        out.append("\t");
        k = k + 1;
        proof {
            assert(out@ =~= pre + tabs(k as nat));
        }
    }
}

/// Appends the bracketed hex rendering of a MAC address.
fn append_mac(out: &mut String, m: &MacAddress)
    ensures
        final(out)@ == old(out)@ + mac_chars(*m),
{
    out.append("[");
    append_hex(out, m[0] as u32);
    out.append(", ");
    append_hex(out, m[1] as u32);
    out.append(", ");
    append_hex(out, m[2] as u32);
    out.append(", ");
    append_hex(out, m[3] as u32);
    out.append(", ");
    append_hex(out, m[4] as u32);
    out.append(", ");
    append_hex(out, m[5] as u32);
    out.append("]");
    proof {
        assert(out@ =~= old(out)@ + mac_chars(*m));
    }
}

impl Segment {
    /// Appends this segment's rendering at the given indentation depth.
    #[verifier::rlimit(50)]
    pub fn render_into(&self, depth: usize, out: &mut String)
        requires
            depth + 1 <= usize::MAX,
        ensures
            final(out)@ == old(out)@ + segment_render(*self, depth as nat),
    {
        let ghost pre = out@;
        append_tabs(out, depth);
        out.append("src: ");
        append_hex(out, self.header.addresses.0 as u32);
        out.append(" -> dst: ");
        append_hex(out, self.header.addresses.1 as u32);
        out.append(" | ");
        let len = self.payload_len();
        append_dec(out, len);
        out.append(" ");
        if len == 1 {
            out.append("byte");
        } else {
            out.append("bytes");
        }
        out.append(" |\n");
        let b: &[u8] = bytes_as_slice(&self.payload);
        let ghost line_done = out@;
        proof {
            assert(line_done + byte_lines(b@.take(0), (depth + 1) as nat) =~= line_done);
        }
        let mut i: usize = 0;
        while i < b.len()
            invariant
                i <= b@.len(),
                depth + 1 <= usize::MAX,
                b@ == bytes_seq(self.payload),
                out@ == line_done + byte_lines(b@.take(i as int), (depth + 1) as nat),
            decreases b@.len() - i,
        {
            append_tabs(out, depth + 1);
            append_dec(out, b[i] as usize);
            out.append("\n");
            i = i + 1;
            proof {
                let d1 = (depth + 1) as nat;
                assert(b@.take(i as int) =~= b@.take(i - 1) + seq![b@[i - 1]]);
                lemma_byte_lines_concat(b@.take(i - 1), seq![b@[i - 1]], d1);
                assert(seq![b@[i - 1]].skip(1) =~= Seq::<u8>::empty());
                assert(byte_lines(Seq::<u8>::empty(), d1) == Seq::<char>::empty());
                assert(seq![b@[i - 1]][0] == b@[i - 1]);
                assert(byte_lines(seq![b@[i - 1]], d1) == byte_line(b@[i - 1], d1)
                    + Seq::<char>::empty());
                assert(out@ =~= line_done + byte_lines(b@.take(i as int), d1));
            }
        }
        proof {
            assert(b@.take(b@.len() as int) =~= b@);
            assert(out@ =~= pre + segment_render(*self, depth as nat));
        }
    }

    /// This segment's full rendering as a string.
    pub fn render(&self) -> (r: String)
        ensures
            r@ == segment_render(*self, 0),
    {
        let mut out = String::new();
        self.render_into(0, &mut out);
        proof {
            assert(Seq::<char>::empty() + segment_render(*self, 0) =~= segment_render(*self, 0));
        }
        out
    }
}

impl Packet {
    /// Appends this packet's rendering at the given indentation depth.
    #[verifier::rlimit(50)]
    pub fn render_into(&self, depth: usize, out: &mut String)
        requires
            depth + 2 <= usize::MAX,
        ensures
            final(out)@ == old(out)@ + packet_render(*self, depth as nat),
    {
        let ghost pre = out@;
        append_tabs(out, depth);
        out.append("src: ");
        append_hex(out, self.header.addresses.0);
        out.append(" -> dst: ");
        append_hex(out, self.header.addresses.1);
        out.append(" | ");
        let len = self.pdu.len();
        append_dec(out, len);
        out.append(" ");
        if len == 1 {
            out.append("segment");
        } else {
            out.append("segments");
        }
        out.append(" |\n");
        let ghost line_done = out@;
        proof {
            assert(line_done + segment_renders(self.pdu@.take(0), (depth + 1) as nat)
                =~= line_done);
        }
        let mut i: usize = 0;
        while i < self.pdu.len()
            invariant
                i <= self.pdu@.len(),
                depth + 2 <= usize::MAX,
                out@ == line_done + segment_renders(self.pdu@.take(i as int), (depth + 1) as nat),
            decreases self.pdu@.len() - i,
        {
            self.pdu[i].render_into(depth + 1, out);
            i = i + 1;
            proof {
                let d1 = (depth + 1) as nat;
                assert(self.pdu@.take(i as int) =~= self.pdu@.take(i - 1) + seq![self.pdu@[i
                    - 1]]);
                lemma_segment_renders_concat(self.pdu@.take(i - 1), seq![self.pdu@[i - 1]], d1);
                assert(seq![self.pdu@[i - 1]].skip(1) =~= Seq::<Segment>::empty());
                assert(segment_renders(Seq::<Segment>::empty(), d1) == Seq::<char>::empty());
                assert(seq![self.pdu@[i - 1]][0] == self.pdu@[i - 1]);
                assert(segment_renders(seq![self.pdu@[i - 1]], d1) == segment_render(
                    self.pdu@[i - 1],
                    d1,
                ) + Seq::<char>::empty());
                assert(out@ =~= line_done + segment_renders(self.pdu@.take(i as int), d1));
            }
        }
        proof {
            assert(self.pdu@.take(self.pdu@.len() as int) =~= self.pdu@);
            assert(out@ =~= pre + packet_render(*self, depth as nat));
        }
    }

    /// This packet's full rendering as a string.
    pub fn render(&self) -> (r: String)
        ensures
            r@ == packet_render(*self, 0),
    {
        let mut out = String::new();
        self.render_into(0, &mut out);
        proof {
            assert(Seq::<char>::empty() + packet_render(*self, 0) =~= packet_render(*self, 0));
        }
        out
    }
}

impl Frame {
    /// Appends this frame's rendering at the given indentation depth.
    #[verifier::rlimit(50)]
    pub fn render_into(&self, depth: usize, out: &mut String)
        requires
            depth + 3 <= usize::MAX,
        ensures
            final(out)@ == old(out)@ + frame_render(*self, depth as nat),
    {
        let ghost pre = out@;
        append_tabs(out, depth);
        out.append("src: ");
        append_mac(out, &self.header.addresses.0);
        out.append(" -> dst: ");
        append_mac(out, &self.header.addresses.1);
        out.append(" | ");
        let len = self.network_pdu.len();
        append_dec(out, len);
        out.append(" ");
        if len == 1 {
            out.append("packet");
        } else {
            out.append("packets");
        }
        out.append(" |\n");
        let ghost line_done = out@;
        proof {
            assert(line_done + packet_renders(self.network_pdu@.take(0), (depth + 1) as nat)
                =~= line_done);
        }
        let mut i: usize = 0;
        while i < self.network_pdu.len()
            invariant
                i <= self.network_pdu@.len(),
                depth + 3 <= usize::MAX,
                out@ == line_done + packet_renders(
                    self.network_pdu@.take(i as int),
                    (depth + 1) as nat,
                ),
            decreases self.network_pdu@.len() - i,
        {
            self.network_pdu[i].render_into(depth + 1, out);
            i = i + 1;
            proof {
                let d1 = (depth + 1) as nat;
                assert(self.network_pdu@.take(i as int) =~= self.network_pdu@.take(i - 1)
                    + seq![self.network_pdu@[i - 1]]);
                lemma_packet_renders_concat(
                    self.network_pdu@.take(i - 1),
                    seq![self.network_pdu@[i - 1]],
                    d1,
                );
                assert(seq![self.network_pdu@[i - 1]].skip(1) =~= Seq::<Packet>::empty());
                assert(packet_renders(Seq::<Packet>::empty(), d1) == Seq::<char>::empty());
                assert(seq![self.network_pdu@[i - 1]][0] == self.network_pdu@[i - 1]);
                assert(packet_renders(seq![self.network_pdu@[i - 1]], d1) == packet_render(
                    self.network_pdu@[i - 1],
                    d1,
                ) + Seq::<char>::empty());
                assert(out@ =~= line_done + packet_renders(
                    self.network_pdu@.take(i as int),
                    d1,
                ));
            }
        }
        proof {
            assert(self.network_pdu@.take(self.network_pdu@.len() as int)
                =~= self.network_pdu@);
            assert(out@ =~= pre + frame_render(*self, depth as nat));
        }
    }

    /// This frame's full rendering as a string.
    pub fn render(&self) -> (r: String)
        ensures
            r@ == frame_render(*self, 0),
    {
        let mut out = String::new();
        self.render_into(0, &mut out);
        proof {
            assert(Seq::<char>::empty() + frame_render(*self, 0) =~= frame_render(*self, 0));
        }
        out
    }
}

} // verus!
