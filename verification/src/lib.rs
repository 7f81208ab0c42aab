//! A layered protocol-encapsulation model: transport segments, network
//! packets and data-link frames as nested value containers, with lossless
//! encapsulation of raw bytes and the inverse decapsulation.

use vstd::prelude::*;

mod codec;
pub mod datalink;
mod header;
mod layers;
mod payload;
mod render;

pub use codec::EmptyPolicy;
pub use codec::chunks_of;
pub use codec::decapsulate;
pub use codec::encapsulate;
pub use codec::encapsulate_with;
pub use codec::packetize;
pub use codec::segmentize;
pub use codec::frame_payloads;
pub use codec::groups_of;
pub use codec::lemma_chunk_lengths;
pub use codec::lemma_grouping_bounds;
pub use codec::lemma_round_trip;
pub use codec::packet_pdus;
pub use codec::planned_payloads;
pub use codec::segment_payloads;
pub use datalink::FrameKind;
pub use header::AddressPair;
pub use header::Header;
pub use header::Ipv4Address;
pub use header::MacAddress;
pub use header::PortAddress;
pub use header::default_ipv4;
pub use header::default_mac;
pub use header::default_port;
pub use layers::Frame;
pub use layers::Packet;
pub use layers::Segment;
pub use layers::frame_bytes;
pub use layers::packet_bytes;
pub use layers::packets_bytes;
pub use layers::segment_bytes;
pub use layers::segments_bytes;
pub use payload::bytes_seq;
pub use render::byte_lines;
pub use render::dec_chars;
pub use render::frame_render;
pub use render::header_line;
pub use render::hex_chars;
pub use render::mac_chars;
pub use render::packet_render;
pub use render::packet_renders;
pub use render::segment_render;
pub use render::segment_renders;
pub use render::tabs;

verus! {

/// Types that can be serialized into a byte vector.
pub trait ToBytes {
    /// Converts the structure to a byte representation.
    fn to_bytes(&self) -> Vec<u8>;
}

/// Size information about a protocol layer.
pub trait LayerSize {
    /// Returns the size of the payload in bytes.
    fn payload_size(&self) -> usize;

    /// Returns the total size of the layer, including headers.
    fn total_size(&self) -> usize;
}

/// A generic builder for protocol layers.
pub trait LayerBuilder {
    type Output;

    /// Builds the final output from the builder's configuration.
    fn build(&self) -> Self::Output;
}

} // verus!
