use bytes::Bytes;
use dtp::{decapsulate, encapsulate, encapsulate_with, packetize, segmentize, EmptyPolicy, Frame,
    Header, Packet, Segment};

fn frame_payload_lens(frame: &Frame) -> Vec<usize> {
    let mut lens = Vec::new();
    for packet in &frame.network_pdu {
        for segment in &packet.pdu {
            lens.push(segment.payload_len());
        }
    }
    lens
}

#[test]
fn round_trip_various_sizes() {
    let cases: Vec<(usize, usize, usize)> = vec![
        (1, 1, 1),
        (11, 32, 2),
        (100, 32, 2),
        (64, 16, 3),
        (65, 16, 3),
        (7, 3, 5),
        (256, 1, 1),
    ];
    for (len, chunk, group) in cases {
        let data: Vec<u8> = (0..len).map(|i| (i % 251) as u8).collect();
        let original = Bytes::from(data.clone());
        let frame = encapsulate(&original, chunk, group, EmptyPolicy::NoSegments);
        let recovered = decapsulate(&frame);
        assert_eq!(&recovered[..], &data[..]);
    }
}

#[test]
fn hello_dtp_scenario() {
    let original = Bytes::from("Hello, DTP!".as_bytes().to_vec());
    assert_eq!(original.len(), 11);
    let frame = encapsulate(&original, 32, 2, EmptyPolicy::NoSegments);
    assert_eq!(frame.network_pdu.len(), 1);
    assert_eq!(frame.network_pdu[0].pdu.len(), 1);
    let payload = frame.network_pdu[0].pdu[0].payload_to_vec();
    assert_eq!(payload, "Hello, DTP!".as_bytes().to_vec());
    let recovered = decapsulate(&frame);
    assert_eq!(&recovered[..], "Hello, DTP!".as_bytes());
}

#[test]
fn hundred_byte_scenario() {
    let data: Vec<u8> = (0..100u32).map(|i| i as u8).collect();
    let original = Bytes::from(data.clone());
    let frame = encapsulate(&original, 32, 2, EmptyPolicy::NoSegments);
    assert_eq!(frame.network_pdu.len(), 2);
    assert_eq!(frame.network_pdu[0].pdu.len(), 2);
    assert_eq!(frame.network_pdu[1].pdu.len(), 2);
    assert_eq!(frame_payload_lens(&frame), vec![32, 32, 32, 4]);
    let recovered = decapsulate(&frame);
    assert_eq!(&recovered[..], &data[..]);
}

#[test]
fn order_preservation_lengths() {
    let data: Vec<u8> = (0..70u32).map(|i| i as u8).collect();
    let original = Bytes::from(data.clone());
    let frame = encapsulate(&original, 16, 3, EmptyPolicy::NoSegments);
    let lens = frame_payload_lens(&frame);
    assert_eq!(lens, vec![16, 16, 16, 16, 6]);
    assert_eq!(lens.iter().sum::<usize>(), 70);
    // An exact multiple: the last segment is full.
    let even = Bytes::from(vec![9u8; 48]);
    let frame_even = encapsulate(&even, 16, 3, EmptyPolicy::NoSegments);
    assert_eq!(frame_payload_lens(&frame_even), vec![16, 16, 16]);
}

#[test]
fn grouping_bounds_counts() {
    let cases: Vec<(usize, usize, usize)> = vec![
        (100, 32, 2),
        (70, 16, 3),
        (1, 1, 1),
        (33, 32, 5),
        (97, 10, 4),
    ];
    for (len, chunk, group) in cases {
        let data = Bytes::from(vec![1u8; len]);
        let frame = encapsulate(&data, chunk, group, EmptyPolicy::NoSegments);
        let n_segments: usize = frame.network_pdu.iter().map(|p| p.pdu.len()).sum();
        let n_packets = frame.network_pdu.len();
        assert_eq!(n_segments, (len + chunk - 1) / chunk);
        assert_eq!(n_packets, (n_segments + group - 1) / group);
    }
}

#[test]
fn empty_input_no_segments() {
    let empty = Bytes::new();
    let frame = encapsulate(&empty, 8, 2, EmptyPolicy::NoSegments);
    assert_eq!(frame.network_pdu.len(), 0);
    let recovered = decapsulate(&frame);
    assert_eq!(recovered.len(), 0);
}

#[test]
fn empty_input_one_empty_segment() {
    let empty = Bytes::new();
    let frame = encapsulate(&empty, 8, 2, EmptyPolicy::OneEmptySegment);
    assert_eq!(frame.network_pdu.len(), 1);
    assert_eq!(frame.network_pdu[0].pdu.len(), 1);
    assert_eq!(frame.network_pdu[0].pdu[0].payload_len(), 0);
    let recovered = decapsulate(&frame);
    assert_eq!(recovered.len(), 0);
}

#[test]
fn segmentize_headers_and_payloads() {
    let data = Bytes::from(vec![10u8, 20, 30, 40, 50]);
    let header = Header::new(49152u16, 80u16);
    let segments = segmentize(&data, 2, header, EmptyPolicy::NoSegments);
    assert_eq!(segments.len(), 3);
    assert_eq!(segments[0].payload_to_vec(), vec![10u8, 20]);
    assert_eq!(segments[1].payload_to_vec(), vec![30u8, 40]);
    assert_eq!(segments[2].payload_to_vec(), vec![50u8]);
    for segment in &segments {
        assert_eq!(*segment.header.src(), 49152);
        assert_eq!(*segment.header.dst(), 80);
    }
}

#[test]
fn packetize_groups_in_order() {
    let mut segments = Vec::new();
    for i in 0..5u8 {
        segments.push(Segment::new(Header::new(1u16, 2u16), Bytes::from(vec![i])));
    }
    let header = Header::new(0xC0A80164u32, 0x08080808u32);
    let packets: Vec<Packet> = packetize(segments, 2, header);
    assert_eq!(packets.len(), 3);
    assert_eq!(packets[0].pdu.len(), 2);
    assert_eq!(packets[1].pdu.len(), 2);
    assert_eq!(packets[2].pdu.len(), 1);
    assert_eq!(packets[0].pdu[0].payload_to_vec(), vec![0u8]);
    assert_eq!(packets[2].pdu[0].payload_to_vec(), vec![4u8]);
    for packet in &packets {
        assert_eq!(*packet.header.src(), 0xC0A80164);
        assert_eq!(*packet.header.dst(), 0x08080808);
    }
}

#[test]
fn encapsulate_with_custom_headers() {
    let data = Bytes::from(vec![1u8, 2, 3]);
    let frame = encapsulate_with(
        &data,
        2,
        2,
        EmptyPolicy::NoSegments,
        Header::new(54321u16, 443u16),
        Header::new(0x7F000001u32, 0x08080808u32),
        Header::new([0xAAu8, 0xBB, 0xCC, 0x11, 0x22, 0x33], [0xDDu8, 0xEE, 0xFF, 0x44, 0x55, 0x66]),
    );
    assert_eq!(*frame.header.src(), [0xAA, 0xBB, 0xCC, 0x11, 0x22, 0x33]);
    assert_eq!(*frame.header.dst(), [0xDD, 0xEE, 0xFF, 0x44, 0x55, 0x66]);
    assert_eq!(frame.network_pdu.len(), 1);
    let packet = &frame.network_pdu[0];
    assert_eq!(*packet.header.src(), 0x7F000001);
    assert_eq!(*packet.header.dst(), 0x08080808);
    assert_eq!(packet.pdu.len(), 2);
    for segment in &packet.pdu {
        assert_eq!(*segment.header.src(), 54321);
        assert_eq!(*segment.header.dst(), 443);
    }
    let recovered = decapsulate(&frame);
    assert_eq!(&recovered[..], &[1u8, 2, 3][..]);
}

#[test]
fn constructors_store_verbatim() {
    let segment = Segment::new(Header::new(7u16, 9u16), Bytes::from(vec![5u8, 6]));
    assert_eq!(*segment.header.src(), 7);
    assert_eq!(*segment.header.dst(), 9);
    assert_eq!(segment.payload_len(), 2);
    let packet = Packet::new(Header::new(3u32, 4u32), vec![segment]);
    assert_eq!(packet.segment_count(), 1);
    let frame = Frame::new(Header::new([1u8; 6], [2u8; 6]), vec![packet]);
    assert_eq!(frame.packet_count(), 1);
    let packets = frame.into_packets();
    let segments = packets.into_iter().next().unwrap().into_segments();
    let payload = segments.into_iter().next().unwrap().into_payload();
    assert_eq!(&payload[..], &[5u8, 6][..]);
}
