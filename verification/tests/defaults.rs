use dtp::{decapsulate, Frame, FrameKind, Header, Ipv4Address, MacAddress, Packet, PortAddress,
    Segment};

#[test]
fn port_header_default_is_eighty() {
    let header: Header<PortAddress> = Header::default();
    assert_eq!(*header.src(), 80);
    assert_eq!(*header.dst(), 80);
}

#[test]
fn ipv4_header_default_is_loopback() {
    let header: Header<Ipv4Address> = Header::default();
    assert_eq!(*header.src(), 0x7F000001);
    assert_eq!(*header.dst(), 0x7F000001);
}

#[test]
fn mac_header_default_is_all_zero() {
    let header: Header<MacAddress> = Header::default();
    assert_eq!(*header.src(), [0u8; 6]);
    assert_eq!(*header.dst(), [0u8; 6]);
}

#[test]
fn segment_default_is_empty() {
    let segment = Segment::default();
    assert_eq!(*segment.header.src(), 80);
    assert_eq!(*segment.header.dst(), 80);
    assert_eq!(segment.payload_len(), 0);
    assert_eq!(segment.payload_to_vec(), Vec::<u8>::new());
}

#[test]
fn packet_default_is_empty() {
    let packet = Packet::default();
    assert_eq!(*packet.header.src(), 0x7F000001);
    assert_eq!(packet.segment_count(), 0);
    assert_eq!(packet.pdu.len(), 0);
}

#[test]
fn frame_default_is_empty_and_decapsulates_to_nothing() {
    let frame = Frame::default();
    assert_eq!(*frame.header.src(), [0u8; 6]);
    assert_eq!(frame.packet_count(), 0);
    assert_eq!(frame.network_pdu.len(), 0);
    let recovered = decapsulate(&frame);
    assert_eq!(recovered.len(), 0);
}

#[test]
fn frame_kind_default_is_bit_oriented_hdlc_flag() {
    let kind = FrameKind::default();
    assert_eq!(kind, FrameKind::BitOriented { flag: 0x7E });
    assert_ne!(kind, FrameKind::CharacterOriented { sync: 0x7E });
    assert_ne!(kind, FrameKind::LengthPrefixed);
}

#[test]
fn header_accessors_return_stored_pair() {
    let header = Header::new(12345u16, 443u16);
    assert_eq!(*header.src(), 12345);
    assert_eq!(*header.dst(), 443);
    assert_eq!(header.addresses, (12345, 443));
}
