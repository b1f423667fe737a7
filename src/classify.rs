//! What the block classification decides for each position of a byte
//! sequence, and the proof that it accepts exactly the well-formed sequences.
use vstd::prelude::*;
use crate::grammar::{is_continuation, leading_sequence_len, second_max, second_min, well_formed};
use crate::tables::{first_range, length_class, range_adjust, range_max, range_min};

verus! {

/// The byte at position `i`, with 0 before the start and past the end: the
/// classification sees the input as preceded and followed by NUL bytes.
pub open spec fn byte_at(s: Seq<u8>, i: int) -> u8 {
    if 0 <= i < s.len() {
        s[i]
    } else {
        0
    }
}

/// `x - k`, saturating at 0.
pub open spec fn sat_sub(x: u8, k: u8) -> u8 {
    if x > k {
        (x - k) as u8
    } else {
        0
    }
}

/// Bitwise or of two values below 4, written without bit operations.
pub open spec fn or_small(x: u8, y: u8) -> u8 {
    if x == 0 {
        y
    } else if y == 0 {
        x
    } else if x == y {
        x
    } else {
        3
    }
}

/// Range id of a byte `b`, given the length classes `l3`, `l2`, `l1` of the
/// three bytes before it (nearest last) and the byte `prev` just before it.
pub open spec fn range_id(l3: u8, l2: u8, l1: u8, prev: u8, b: u8) -> u8 {
    (first_range(length_class(b)) + or_small(or_small(l1, sat_sub(l2, 1)), sat_sub(l3, 2))
        + range_adjust(prev)) as u8
}

/// Byte `b` lies within the bounds of its range id.
pub open spec fn byte_in_range(l3: u8, l2: u8, l1: u8, prev: u8, b: u8) -> bool {
    let r = range_id(l3, l2, l1, prev, b);
    range_min(r) <= b <= range_max(r)
}

/// The classification accepts position `i` of `s`.
pub open spec fn position_ok(s: Seq<u8>, i: int) -> bool {
    byte_in_range(
        length_class(byte_at(s, i - 3)),
        length_class(byte_at(s, i - 2)),
        length_class(byte_at(s, i - 1)),
        byte_at(s, i - 1),
        byte_at(s, i),
    )
}

/// The classification accepts every position of `s` from `lo` up to `hi`.
pub open spec fn positions_ok(s: Seq<u8>, lo: int, hi: int) -> bool {
    forall|i: int| lo <= i < hi ==> #[trigger] position_ok(s, i)
}

/// Past a well-formed leading sequence, each position of `s` is classified
/// as the same position of the rest of `s` would be on its own: the leading
/// sequence leaves no obligation on the bytes after it.
proof fn lemma_shift(s: Seq<u8>, k: int)
    requires
        leading_sequence_len(s) > 0,
        k >= 0,
    ensures
        position_ok(s, leading_sequence_len(s) + k) == position_ok(
            s.skip(leading_sequence_len(s) as int),
            k,
        ),
{
    let n = leading_sequence_len(s) as int;
    let t = s.skip(n);
    assert forall|j: int| j >= 0 implies #[trigger] byte_at(s, n + j) == byte_at(t, j) by {}
    assert(length_class(byte_at(s, n - 1)) == 0);
    assert(length_class(byte_at(s, n - 2)) <= 1);
    assert(length_class(byte_at(s, n - 3)) <= 2);
    assert(range_adjust(byte_at(s, n - 1)) == 0);
}

/// A sequence that starts well-formed is accepted on its leading sequence.
proof fn lemma_leading_accepted(s: Seq<u8>)
    requires
        leading_sequence_len(s) > 0,
    ensures
        positions_ok(s, 0, leading_sequence_len(s) as int),
{
}

/// A non-empty sequence that starts with no well-formed sequence is rejected
/// at one of its first four positions (or just past its end).
proof fn lemma_leading_rejected(s: Seq<u8>)
    requires
        s.len() > 0,
        leading_sequence_len(s) == 0,
    ensures
        !positions_ok(s, 0, 4),
{
    let b0 = s[0];
    let b1 = byte_at(s, 1);
    let b2 = byte_at(s, 2);
    if b0 < 0xC2 || b0 > 0xF4 {
        assert(!position_ok(s, 0));
    } else if b0 <= 0xDF {
        assert(!position_ok(s, 1));
    } else if !(second_min(b0) <= b1 <= second_max(b0)) {
        assert(!position_ok(s, 1));
    } else if !is_continuation(b2) {
        assert(!position_ok(s, 2));
    } else {
        assert(b0 >= 0xF0);
        assert(!position_ok(s, 3));
    }
}

/// The classification accepts every position up to and including the end of
/// `s` exactly when `s` is well-formed UTF-8.
pub proof fn lemma_positions_ok_iff_well_formed(s: Seq<u8>)
    ensures
        positions_ok(s, 0, (s.len() + 1) as int) == well_formed(s),
    decreases s.len(),
{
    if s.len() == 0 {
        assert(position_ok(s, 0));
    } else {
        let n = leading_sequence_len(s) as int;
        if n == 0 {
            lemma_leading_rejected(s);
            assert(!positions_ok(s, 0, (s.len() + 1) as int)) by {
                let i = choose|i: int| 0 <= i < 4 && !position_ok(s, i);
                if i > s.len() {
                    assert(!position_ok(s, s.len() as int));
                }
            }
        } else {
            let t = s.skip(n);
            lemma_positions_ok_iff_well_formed(t);
            lemma_leading_accepted(s);
            assert forall|k: int| 0 <= k < t.len() + 1 implies position_ok(s, n + k) == position_ok(t, k) by {
                lemma_shift(s, k);
            }
            if positions_ok(s, 0, (s.len() + 1) as int) {
                assert forall|k: int| 0 <= k < t.len() + 1 implies position_ok(t, k) by {
                    assert(position_ok(s, n + k));
                }
            }
            if well_formed(s) {
                assert forall|i: int| 0 <= i < s.len() + 1 implies position_ok(s, i) by {
                    if i >= n {
                        assert(position_ok(t, i - n));
                    }
                }
            }
        }
    }
}

} // verus!
