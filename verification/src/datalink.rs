//! Data-link layer notions that go beyond the `Frame` container: the
//! framing strategies a link may eventually use.

use vstd::prelude::*;

verus! {

/// The framing strategies a data link may use to delimit frames.
#[derive(Debug, Clone, Copy, PartialEq, Eq, Structural)]
pub enum FrameKind {
    /// A simple bit-oriented frame with a start/end flag.
    BitOriented { flag: u8 },
    /// A character-oriented frame using a SYNC byte.
    CharacterOriented { sync: u8 },
    /// A length-prefixed frame.
    LengthPrefixed,
}

impl Default for FrameKind {
    /// Defaults to bit-oriented framing with the flag byte 0x7E, a common
    /// delimiter in bit-oriented link protocols.
    fn default() -> (r: Self)
        ensures
            r == (FrameKind::BitOriented { flag: 0x7Eu8 }),
    {
        FrameKind::BitOriented { flag: 0x7E }
    }
}

} // verus!
