//! Well-formed UTF-8 byte sequences, as the Unicode standard's table of
//! well-formed byte sequences lists them.
use vstd::prelude::*;

verus! {

/// A continuation byte of the generic range 0x80..=0xBF.
pub open spec fn is_continuation(b: u8) -> bool {
    0x80 <= b <= 0xBF
}

/// Lowest legal second byte after the lead `b0`.
pub open spec fn second_min(b0: u8) -> u8 {
    if b0 == 0xE0 {
        0xA0
    } else if b0 == 0xF0 {
        0x90
    } else {
        0x80
    }
}

/// Highest legal second byte after the lead `b0`.
pub open spec fn second_max(b0: u8) -> u8 {
    if b0 == 0xED {
        0x9F
    } else if b0 == 0xF4 {
        0x8F
    } else {
        0xBF
    }
}

/// Length of the well-formed sequence that `s` starts with, or 0 where `s`
/// is empty or starts with no well-formed sequence:
/// 00..7F; C2..DF 80..BF; E0 A0..BF 80..BF; E1..EC 80..BF 80..BF;
/// ED 80..9F 80..BF; EE..EF 80..BF 80..BF; F0 90..BF 80..BF 80..BF;
/// F1..F3 80..BF 80..BF 80..BF; F4 80..8F 80..BF 80..BF.
pub open spec fn leading_sequence_len(s: Seq<u8>) -> nat {
    if s.len() == 0 {
        0
    } else if s[0] <= 0x7F {
        1
    } else if 0xC2 <= s[0] <= 0xDF {
        if s.len() >= 2 && is_continuation(s[1]) {
            2
        } else {
            0
        }
    } else if 0xE0 <= s[0] <= 0xEF {
        if s.len() >= 3 && second_min(s[0]) <= s[1] <= second_max(s[0]) && is_continuation(
            s[2],
        ) {
            3
        } else {
            0
        }
    } else if 0xF0 <= s[0] <= 0xF4 {
        if s.len() >= 4 && second_min(s[0]) <= s[1] <= second_max(s[0]) && is_continuation(s[2])
            && is_continuation(s[3]) {
            4
        } else {
            0
        }
    } else {
        0
    }
}

/// `s` is a concatenation of well-formed UTF-8 sequences.
pub open spec fn well_formed(s: Seq<u8>) -> bool
    decreases s.len(),
{
    if s.len() == 0 {
        true
    } else {
        let n = leading_sequence_len(s);
        n > 0 && well_formed(s.skip(n as int))
    }
}

/// Sequence length announced by the high bits of a lead byte (0xxxxxxx,
/// 110xxxxx, 1110xxxx, 11110xxx), or 0 for 10xxxxxx and 11111xxx.
pub open spec fn announced_len(b0: u8) -> nat {
    if b0 < 0x80 {
        1
    } else if 0xC0 <= b0 <= 0xDF {
        2
    } else if 0xE0 <= b0 <= 0xEF {
        3
    } else if 0xF0 <= b0 <= 0xF7 {
        4
    } else {
        0
    }
}

/// The code point whose payload bits the first `n` bytes of `s` carry.
pub open spec fn decoded(s: Seq<u8>, n: nat) -> int {
    if n == 1 {
        s[0] as int
    } else if n == 2 {
        (s[0] - 0xC0) * 0x40 + (s[1] - 0x80)
    } else if n == 3 {
        (s[0] - 0xE0) * 0x1000 + (s[1] - 0x80) * 0x40 + (s[2] - 0x80)
    } else {
        (s[0] - 0xF0) * 0x40000 + (s[1] - 0x80) * 0x1000 + (s[2] - 0x80) * 0x40 + (s[3] - 0x80)
    }
}

/// Smallest code point that needs `n` bytes: below it an `n`-byte form is
/// overlong.
pub open spec fn shortest_min(n: nat) -> int {
    if n == 1 {
        0
    } else if n == 2 {
        0x80
    } else if n == 3 {
        0x800
    } else {
        0x10000
    }
}

/// A Unicode scalar value: a code point up to U+10FFFF outside the
/// surrogates U+D800..U+DFFF.
pub open spec fn is_scalar_value(c: int) -> bool {
    0 <= c <= 0x10FFFF && !(0xD800 <= c <= 0xDFFF)
}

/// The first `n` bytes of `s` are the shortest encoding of a scalar value: a
/// lead that announces `n` bytes, `n - 1` continuation bytes, no overlong
/// form, no surrogate, nothing above U+10FFFF.
pub open spec fn encodes_scalar_value(s: Seq<u8>, n: nat) -> bool {
    &&& 1 <= n <= 4
    &&& s.len() >= n
    &&& announced_len(s[0]) == n
    &&& n >= 2 ==> is_continuation(s[1])
    &&& n >= 3 ==> is_continuation(s[2])
    &&& n >= 4 ==> is_continuation(s[3])
    &&& decoded(s, n) >= shortest_min(n)
    &&& is_scalar_value(decoded(s, n))
}

/// The leading sequences that well-formedness is built from are exactly the
/// shortest encodings of scalar values; so a sequence with an invalid lead
/// byte, a missing or stray continuation byte, an overlong form, an encoded
/// surrogate or a code point above U+10FFFF is not well-formed.
pub proof fn lemma_leading_sequence_is_scalar_value(s: Seq<u8>, n: nat)
    ensures
        (n > 0 && leading_sequence_len(s) == n) <==> encodes_scalar_value(s, n),
{
}

} // verus!
