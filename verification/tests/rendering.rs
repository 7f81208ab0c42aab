use bytes::Bytes;
use dtp::{Frame, Header, Packet, Segment};

#[test]
fn segment_render_singular_byte() {
    let segment = Segment::new(Header::new(80u16, 80u16), Bytes::from(vec![65u8]));
    assert_eq!(segment.render(), "src: 50 -> dst: 50 | 1 byte |\n\t65\n");
}

#[test]
fn segment_render_plural_bytes() {
    let empty = Segment::new(Header::new(80u16, 80u16), Bytes::new());
    assert_eq!(empty.render(), "src: 50 -> dst: 50 | 0 bytes |\n");
    let two = Segment::new(Header::new(443u16, 8080u16), Bytes::from(vec![0u8, 255u8]));
    assert_eq!(two.render(), "src: 1BB -> dst: 1F90 | 2 bytes |\n\t0\n\t255\n");
}

#[test]
fn packet_render_singular_segment() {
    let segment = Segment::new(Header::new(80u16, 80u16), Bytes::from(vec![7u8]));
    let packet = Packet::new(Header::new(0x7F000001u32, 0x08080808u32), vec![segment]);
    assert_eq!(
        packet.render(),
        "src: 7F000001 -> dst: 8080808 | 1 segment |\n\
         \tsrc: 50 -> dst: 50 | 1 byte |\n\
         \t\t7\n"
    );
}

#[test]
fn packet_render_plural_segments() {
    let packet = Packet::new(Header::new(1u32, 2u32), Vec::new());
    assert_eq!(packet.render(), "src: 1 -> dst: 2 | 0 segments |\n");
}

#[test]
fn frame_render_nested_indentation() {
    let segment = Segment::new(Header::new(80u16, 80u16), Bytes::from(vec![7u8]));
    let packet = Packet::new(Header::new(0x7F000001u32, 0x7F000001u32), vec![segment]);
    let frame = Frame::new(Header::new([0u8; 6], [0u8; 6]), vec![packet]);
    assert_eq!(
        frame.render(),
        "src: [0, 0, 0, 0, 0, 0] -> dst: [0, 0, 0, 0, 0, 0] | 1 packet |\n\
         \tsrc: 7F000001 -> dst: 7F000001 | 1 segment |\n\
         \t\tsrc: 50 -> dst: 50 | 1 byte |\n\
         \t\t\t7\n"
    );
}

#[test]
fn frame_render_plural_packets() {
    let frame = Frame::new(
        Header::new([0xAAu8, 0xBB, 0xCC, 0x11, 0x22, 0x33], [0xDDu8, 0xEE, 0xFF, 0x44, 0x55, 0x66]),
        Vec::new(),
    );
    assert_eq!(
        frame.render(),
        "src: [AA, BB, CC, 11, 22, 33] -> dst: [DD, EE, FF, 44, 55, 66] | 0 packets |\n"
    );
}

#[test]
fn default_frame_renders_header_line_only() {
    let frame = Frame::default();
    let rendered = frame.render();
    assert_eq!(rendered.lines().count(), 1);
    assert_eq!(
        rendered,
        "src: [0, 0, 0, 0, 0, 0] -> dst: [0, 0, 0, 0, 0, 0] | 0 packets |\n"
    );
}
