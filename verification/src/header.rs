//! The address/header abstraction shared by every protocol layer: a header
//! is an ordered pair of addresses of one fixed-width address type.

use vstd::prelude::*;

verus! {

/// A Data Link Layer MAC address: six bytes.
pub type MacAddress = [u8; 6];

/// A Network Layer IPv4 address in numeric form.
pub type Ipv4Address = u32;

/// A Transport Layer port number.
pub type PortAddress = u16;

/// A source and destination address pair.
pub type AddressPair<A> = (A, A);

/// A generic header containing a pair of addresses. Both addresses are
/// stored verbatim: any bit pattern of the address type is legal.
#[verifier::ext_equal]
pub struct Header<A> {
    pub addresses: AddressPair<A>,
}

/// Headers with equal source and destination addresses are equal.
pub proof fn lemma_header_eq<A>(a: Header<A>, b: Header<A>)
    requires
        a.addresses.0 == b.addresses.0,
        a.addresses.1 == b.addresses.1,
    ensures
        a == b,
{
    assert(a =~~= b);
}

impl<A> Header<A> {
    /// Creates a new header with source and destination addresses.
    pub fn new(src: A, dst: A) -> (r: Self)
        ensures
            r.addresses.0 == src,
            r.addresses.1 == dst,
    {
        Self { addresses: (src, dst) }
    }

    /// Returns a reference to the source address.
    pub fn src(&self) -> (r: &A)
        ensures
            *r == self.addresses.0,
    {
        &self.addresses.0
    }

    /// Returns a reference to the destination address.
    pub fn dst(&self) -> (r: &A)
        ensures
            *r == self.addresses.1,
    {
        &self.addresses.1
    }
}

/// The canonical all-zero MAC address.
pub open spec fn default_mac() -> MacAddress {
    [0u8, 0u8, 0u8, 0u8, 0u8, 0u8]
}

/// The loopback address, 127.0.0.1 in numeric form.
pub open spec fn default_ipv4() -> Ipv4Address {
    0x7F000001u32
}

/// The default port, 80.
pub open spec fn default_port() -> PortAddress {
    80u16
}

impl Default for Header<MacAddress> {
    /// The zero-config link header: both addresses all-zero.
    fn default() -> (r: Self)
        ensures
            r.addresses.0 == default_mac(),
            r.addresses.1 == default_mac(),
    {
        Self { addresses: ([0u8, 0u8, 0u8, 0u8, 0u8, 0u8], [0u8, 0u8, 0u8, 0u8, 0u8, 0u8]) }
    }
}

impl Default for Header<Ipv4Address> {
    /// The zero-config network header: both addresses the loopback value.
    fn default() -> (r: Self)
        ensures
            r.addresses.0 == default_ipv4(),
            r.addresses.1 == default_ipv4(),
    {
        Self { addresses: (0x7F000001u32, 0x7F000001u32) }
    }
}

impl Default for Header<PortAddress> {
    /// The zero-config transport header: both ports 80.
    fn default() -> (r: Self)
        ensures
            r.addresses.0 == default_port(),
            r.addresses.1 == default_port(),
    {
        Self { addresses: (80u16, 80u16) }
    }
}

} // verus!
