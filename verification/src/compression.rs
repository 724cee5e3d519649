//! Byte-count nibbles for record compression.
//!
//! A `NibbleNibble` packs, into one byte, the little-endian byte widths of
//! two 64-bit values: the lower nibble holds the width of the first value
//! and the upper nibble the width of the second.  Widths run from 1 to 7; a
//! value needing all eight bytes is encoded as 0 and the decoder falls back
//! to the full width.

use vstd::prelude::*;

verus! {

/// The little-endian byte width of `v`, for values that fit in seven bytes;
/// a full eight-byte value is encoded as 0.
pub open spec fn spec_bytes_needed(v: u64) -> u8 {
    if v < 0x100 {
        1
    } else if v < 0x10000 {
        2
    } else if v < 0x1000000 {
        3
    } else if v < 0x100000000 {
        4
    } else if v < 0x10000000000 {
        5
    } else if v < 0x1000000000000 {
        6
    } else if v < 0x100000000000000 {
        7
    } else {
        0
    }
}

/// Two byte widths packed into one byte: the first value's width in the low
/// nibble, the second's in the high nibble.
#[derive(Clone, Copy, PartialEq, Eq, Structural, Debug)]
pub struct NibbleNibble(pub u8);

/// The little-endian byte width of `v` as an executable computation.
fn byte_width(v: u64) -> (r: u8)
    ensures
        r == spec_bytes_needed(v),
{
    if v < 0x100 {
        1
    } else if v < 0x10000 {
        2
    } else if v < 0x1000000 {
        3
    } else if v < 0x100000000 {
        4
    } else if v < 0x10000000000 {
        5
    } else if v < 0x1000000000000 {
        6
    } else if v < 0x100000000000000 {
        7
    } else {
        0
    }
}

impl NibbleNibble {
    /// Unpack the two byte widths.  A nibble of 0 decodes to `None`: the
    /// value did not fit in seven bytes and is stored at full width.
    pub fn get_num_bytes(&self) -> (r: (Option<usize>, Option<usize>))
        ensures
            r.0 == (if self.0 & 7 == 0 {
                Option::<usize>::None
            } else {
                Option::<usize>::Some((self.0 & 7) as usize)
            }),
            r.1 == (if (self.0 >> 4) & 7 == 0 {
                Option::<usize>::None
            } else {
                Option::<usize>::Some(((self.0 >> 4) & 7) as usize)
            }),
    {
        let lower_nibble = self.0 & 0x0f;
        let upper_nibble = self.0 >> 4;
        proof {
            let b = self.0;
            assert((b & 0x0f) & 7 == b & 7) by (bit_vector);
        }
        let lo = lower_nibble & 7;
        let hi = upper_nibble & 7;
        (
            if lo == 0 {
                None
            } else {
                Some(lo as usize)
            },
            if hi == 0 {
                None
            } else {
                Some(hi as usize)
            },
        )
    }
}

impl From<u64> for NibbleNibble {
    /// The width of a single value, in the low nibble.
    fn from(value: u64) -> Self {
        NibbleNibble(byte_width(value))
    }
}

impl vstd::std_specs::convert::FromSpecImpl<u64> for NibbleNibble {
    open spec fn obeys_from_spec() -> bool {
        true
    }

    open spec fn from_spec(v: u64) -> Self {
        NibbleNibble(spec_bytes_needed(v))
    }
}

impl From<(u64, u64)> for NibbleNibble {
    /// The widths of a pair of values, first in the low nibble, second in
    /// the high nibble.
    fn from(value: (u64, u64)) -> Self {
        let lo = byte_width(value.0);
        let hi = byte_width(value.1);
        NibbleNibble(lo | (hi << 4))
    }
}

impl vstd::std_specs::convert::FromSpecImpl<(u64, u64)> for NibbleNibble {
    open spec fn obeys_from_spec() -> bool {
        true
    }

    open spec fn from_spec(v: (u64, u64)) -> Self {
        NibbleNibble(spec_bytes_needed(v.0) | (spec_bytes_needed(v.1) << 4))
    }
}

} // verus!
