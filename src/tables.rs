//! The classification tables and their lookups.
//!
//! Each table is stored as plain data; each lookup is proved to agree with a
//! direct description of what the table encodes.
use vstd::prelude::*;

verus! {

/// Length class (sequence length minus one) by the high nibble of a lead byte.
pub const FIRST_LENGTH_TABLE: [u8; 16] = [0, 0, 0, 0, 0, 0, 0, 0, 0, 0, 0, 0, 1, 1, 2, 3];

/// Base range id by length class: ASCII and continuation bytes start at 0,
/// every multi-byte lead starts at the lead range 8.
pub const FIRST_RANGE_TABLE: [u8; 4] = [0, 8, 8, 8];

/// Inclusive lower bound of the legal byte values for each range id.
pub const RANGE_MIN_TABLE: [u8; 16] = [
    0x00, 0x80, 0x80, 0x80, 0xA0, 0x80, 0x90, 0x80, 0xC2, 0xFF, 0xFF, 0xFF, 0xFF, 0xFF, 0xFF, 0xFF,
];

/// Inclusive upper bound of the legal byte values for each range id.
pub const RANGE_MAX_TABLE: [u8; 16] = [
    0x7F, 0xBF, 0xBF, 0xBF, 0xBF, 0x9F, 0xBF, 0x8F, 0xF4, 0x00, 0x00, 0x00, 0x00, 0x00, 0x00, 0x00,
];

/// Range id corrections after the four irregular leads, indexed by
/// `previous byte - 0xE0`. Stored as two interleaved 16-entry lanes: the
/// even entries serve indices 0..16, the odd entries indices 16..32.
pub const RANGE_ADJUST_TABLE: [u8; 32] = [
    2, 3, 0, 0, 0, 0, 0, 0, 0, 4, 0, 0, 0, 0, 0, 0, 0, 0, 0, 0, 0, 0, 0, 0, 0, 0, 3, 0, 0, 0, 0, 0,
];

/// Length class of a byte: 1, 2 or 3 for the leads of 2-, 3- and 4-byte
/// sequences (by their high nibble), 0 for every other byte.
pub open spec fn length_class(b: u8) -> u8 {
    if b < 0xC0 {
        0
    } else if b < 0xE0 {
        1
    } else if b < 0xF0 {
        2
    } else {
        3
    }
}

/// Base range id of a length class.
pub open spec fn first_range(l: u8) -> u8 {
    if l == 0 {
        0
    } else {
        8
    }
}

/// Lowest legal value for a byte classified into range `r`.
pub open spec fn range_min(r: u8) -> u8 {
    if r == 0 {
        0x00
    } else if r <= 3 {
        0x80
    } else if r == 4 {
        0xA0
    } else if r == 5 {
        0x80
    } else if r == 6 {
        0x90
    } else if r == 7 {
        0x80
    } else if r == 8 {
        0xC2
    } else {
        0xFF
    }
}

/// Highest legal value for a byte classified into range `r`.
pub open spec fn range_max(r: u8) -> u8 {
    if r == 0 {
        0x7F
    } else if r <= 4 {
        0xBF
    } else if r == 5 {
        0x9F
    } else if r == 6 {
        0xBF
    } else if r == 7 {
        0x8F
    } else if r == 8 {
        0xF4
    } else {
        0x00
    }
}

/// Correction to the range id of the byte that follows `prev`: the second
/// byte after 0xE0, 0xED, 0xF0 and 0xF4 has narrower bounds than a generic
/// continuation byte.
pub open spec fn range_adjust(prev: u8) -> u8 {
    if prev == 0xE0 {
        2
    } else if prev == 0xED {
        3
    } else if prev == 0xF0 {
        3
    } else if prev == 0xF4 {
        4
    } else {
        0
    }
}

/// Looks up the length class of `b` by its high nibble.
pub fn lookup_length_class(b: u8) -> (r: u8)
    ensures
        r == length_class(b),
{
    let nibble = b >> 4;
    assert(nibble == b / 16) by (bit_vector)
        requires
            nibble == b >> 4,
    ;
    FIRST_LENGTH_TABLE[nibble as usize]
}

/// Looks up the base range id of a length class.
pub fn lookup_first_range(l: u8) -> (r: u8)
    requires
        l < 4,
    ensures
        r == first_range(l),
{
    FIRST_RANGE_TABLE[l as usize]
}

/// Looks up the lower bound of range `r`.
pub fn lookup_range_min(r: u8) -> (m: u8)
    requires
        r < 16,
    ensures
        m == range_min(r),
{
    RANGE_MIN_TABLE[r as usize]
}

/// Looks up the upper bound of range `r`.
pub fn lookup_range_max(r: u8) -> (m: u8)
    requires
        r < 16,
    ensures
        m == range_max(r),
{
    RANGE_MAX_TABLE[r as usize]
}

/// Looks up the range id correction for the byte that follows `prev`, in the
/// two-lane layout of the adjust table; indices past its 32 entries give 0.
pub fn lookup_range_adjust(prev: u8) -> (r: u8)
    ensures
        r == range_adjust(prev),
{
    let index: u8 = prev.wrapping_sub(0xE0);
    if index < 16 {
        RANGE_ADJUST_TABLE[2 * index as usize]
    } else if index < 32 {
        RANGE_ADJUST_TABLE[2 * (index as usize - 16) + 1]
    } else {
        0
    }
}

} // verus!
