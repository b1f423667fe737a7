//! The block processor: classifies one fixed-size block of bytes, given the
//! state carried over from the block before it.
use vstd::prelude::*;
use crate::classify::{byte_at, byte_in_range, or_small, position_ok, range_id};
use crate::tables::{
    length_class, lookup_first_range, lookup_length_class, lookup_range_adjust, lookup_range_max,
    lookup_range_min,
};

verus! {

/// Number of bytes classified together in one step.
pub const BLOCK_SIZE: usize = 32;

/// What one block hands to the next: its last byte, and the length classes
/// of its last three bytes (oldest first). A byte's range id depends on up to
/// three bytes before it, which may lie in the previous block.
#[derive(Clone, Copy, Debug, PartialEq, Eq)]
pub struct CarriedState {
    pub prev_input: u8,
    pub prev_first_len: [u8; 3],
}

/// The result of classifying one block.
#[derive(Clone, Copy, Debug, PartialEq, Eq)]
pub struct BlockOutcome {
    /// Some byte of the block fell outside the bounds of its range id.
    pub error: bool,
    /// The state to carry into the next block.
    pub next: CarriedState,
}

impl CarriedState {
    /// Every carried length class is one that the length table can give.
    pub open spec fn wf(&self) -> bool {
        forall|k: int| 0 <= k < 3 ==> self.prev_first_len[k] < 4
    }

    /// The state reflects exactly the bytes of `s` before position `pos`
    /// (with NUL bytes before the start of `s`).
    pub open spec fn describes(&self, s: Seq<u8>, pos: int) -> bool {
        &&& self.prev_input == byte_at(s, pos - 1)
        &&& self.prev_first_len[0] == length_class(byte_at(s, pos - 3))
        &&& self.prev_first_len[1] == length_class(byte_at(s, pos - 2))
        &&& self.prev_first_len[2] == length_class(byte_at(s, pos - 1))
    }

    /// The state that `block` leaves behind.
    pub open spec fn left_by(&self, block: Seq<u8>) -> bool {
        &&& self.prev_input == block[BLOCK_SIZE - 1]
        &&& self.prev_first_len[0] == length_class(block[BLOCK_SIZE - 3])
        &&& self.prev_first_len[1] == length_class(block[BLOCK_SIZE - 2])
        &&& self.prev_first_len[2] == length_class(block[BLOCK_SIZE - 1])
    }

    /// The state before the first block: no pending sequence, as if the
    /// input were preceded by NUL bytes.
    pub fn new() -> (r: CarriedState)
        ensures
            r.wf(),
            forall|s: Seq<u8>| r.describes(s, 0),
    {
        CarriedState { prev_input: 0, prev_first_len: [0, 0, 0] }
    }
}

/// Length class of the byte `k` positions into the block, where the
/// positions -3, -2, -1 are those of the carried state.
pub open spec fn class_in_context(state: CarriedState, block: Seq<u8>, k: int) -> u8 {
    if k < 0 {
        state.prev_first_len[3 + k]
    } else {
        length_class(block[k])
    }
}

/// The byte `k` positions into the block, where position -1 is the carried
/// last byte.
pub open spec fn byte_in_context(state: CarriedState, block: Seq<u8>, k: int) -> u8 {
    if k < 0 {
        state.prev_input
    } else {
        block[k]
    }
}

/// Byte `j` of the block lies within the bounds of its range id.
pub open spec fn block_position_ok(state: CarriedState, block: Seq<u8>, j: int) -> bool {
    byte_in_range(
        class_in_context(state, block, j - 3),
        class_in_context(state, block, j - 2),
        class_in_context(state, block, j - 1),
        byte_in_context(state, block, j - 1),
        block[j],
    )
}

proof fn lemma_or_small(x: u8, y: u8)
    requires
        x < 4,
        y < 4,
    ensures
        x | y == or_small(x, y),
        or_small(x, y) < 4,
{
    assert(x < 4 && y < 4 ==> x | y == (if x == 0 {
        y
    } else if y == 0 {
        x
    } else if x == y {
        x
    } else {
        3
    })) by (bit_vector);
}

proof fn lemma_or_base(base: u8, x: u8)
    requires
        base == 0 || base == 8,
        x < 4,
    ensures
        base | x == base + x,
{
    assert((base == 0 || base == 8) && x < 4 ==> base | x == base + x) by (bit_vector);
}

/// Computes the range id of byte `b` from the length classes of the three
/// bytes before it and the byte just before it.
fn compute_range_id(l3: u8, l2: u8, l1: u8, prev: u8, class: u8) -> (r: u8)
    requires
        l3 < 4,
        l2 < 4,
        l1 < 4,
        class < 4,
    ensures
        r < 16,
        forall|b: u8| length_class(b) == class ==> r == #[trigger] range_id(l3, l2, l1, prev, b),
{
    let decayed2 = l2.saturating_sub(1);
    let decayed3 = l3.saturating_sub(2);
    let near = l1 | decayed2;
    proof {
        lemma_or_small(l1, decayed2);
        lemma_or_small(near, decayed3);
    }
    let lookback = near | decayed3;
    let base = lookup_first_range(class);
    proof {
        lemma_or_base(base, lookback);
    }
    let adjust = lookup_range_adjust(prev);
    (base | lookback) + adjust
}

/// Classifies one block: reports whether any of its bytes falls outside the
/// legal bounds for its position, and the state to carry into the next block.
/// Every byte is classified; nothing stops at the first error.
pub fn process_block(block: &[u8], state: &CarriedState) -> (r: BlockOutcome)
    requires
        block@.len() == BLOCK_SIZE,
        state.wf(),
    ensures
        r.error == exists|j: int| 0 <= j < BLOCK_SIZE && !block_position_ok(*state, block@, j),
        r.next.wf(),
        r.next.left_by(block@),
{
    let mut first_len: [u8; 32] = [0u8; 32];
    let mut i: usize = 0;
    while i < BLOCK_SIZE
        invariant
            i <= BLOCK_SIZE,
            block@.len() == BLOCK_SIZE,
            forall|k: int| 0 <= k < i ==> first_len[k] == length_class(block@[k]),
        decreases BLOCK_SIZE - i,
    {
        first_len[i] = lookup_length_class(block[i]);
        i = i + 1;
    }
    let mut below_min = false;
    let mut above_max = false;
    let mut j: usize = 0;
    while j < BLOCK_SIZE
        invariant
            j <= BLOCK_SIZE,
            block@.len() == BLOCK_SIZE,
            state.wf(),
            forall|k: int| 0 <= k < BLOCK_SIZE ==> first_len[k] == length_class(block@[k]),
            (below_min || above_max) == exists|k: int|
                0 <= k < j && !block_position_ok(*state, block@, k),
        decreases BLOCK_SIZE - j,
    {
        let l1 = if j >= 1 {
            first_len[j - 1]
        } else {
            state.prev_first_len[2]
        };
        let l2 = if j >= 2 {
            first_len[j - 2]
        } else {
            state.prev_first_len[j + 1]
        };
        let l3 = if j >= 3 {
            first_len[j - 3]
        } else {
            state.prev_first_len[j]
        };
        let prev = if j >= 1 {
            block[j - 1]
        } else {
            state.prev_input
        };
        let b = block[j];
        let r = compute_range_id(l3, l2, l1, prev, first_len[j]);
        below_min = below_min || b < lookup_range_min(r);
        above_max = above_max || b > lookup_range_max(r);
        assert(l1 == class_in_context(*state, block@, j - 1));
        assert(l2 == class_in_context(*state, block@, j - 2));
        assert(l3 == class_in_context(*state, block@, j - 3));
        assert(r == range_id(l3, l2, l1, prev, b));
        assert((below_min || above_max) == exists|k: int|
            0 <= k <= j && !block_position_ok(*state, block@, k)) by {
            if !block_position_ok(*state, block@, j as int) {
                assert(exists|k: int| 0 <= k <= j && !block_position_ok(*state, block@, k));
            }
        }
        j = j + 1;
    }
    let next = CarriedState {
        prev_input: block[BLOCK_SIZE - 1],
        prev_first_len: [first_len[BLOCK_SIZE - 3], first_len[BLOCK_SIZE - 2], first_len[BLOCK_SIZE - 1]],
    };
    BlockOutcome { error: below_min || above_max, next }
}

/// Carried state makes block boundaries invisible: when the state describes
/// the bytes of `s` before `pos` and `block` holds the bytes of `s` from `pos`
/// on (NUL past the end of `s`), each byte of the block is classified exactly
/// as the same position of `s` is on its own, so a sequence whose lead ends
/// one block and whose continuation bytes start the next is judged as it
/// would be inside one block; and the state the block leaves behind
/// describes the bytes of `s` before `pos + BLOCK_SIZE`.
pub proof fn lemma_block_boundary(s: Seq<u8>, pos: int, state: CarriedState, block: Seq<u8>, next: CarriedState)
    requires
        pos >= 0,
        state.describes(s, pos),
        block.len() == BLOCK_SIZE,
        forall|j: int| 0 <= j < BLOCK_SIZE ==> block[j] == byte_at(s, pos + j),
        next.left_by(block),
    ensures
        forall|j: int|
            0 <= j < BLOCK_SIZE ==> block_position_ok(state, block, j) == #[trigger] position_ok(
                s,
                pos + j,
            ),
        next.describes(s, pos + BLOCK_SIZE),
{
    assert forall|j: int| 0 <= j < BLOCK_SIZE implies block_position_ok(state, block, j)
        == #[trigger] position_ok(s, pos + j) by {
        assert(class_in_context(state, block, j - 1) == length_class(byte_at(s, pos + j - 1)));
        assert(class_in_context(state, block, j - 2) == length_class(byte_at(s, pos + j - 2)));
        assert(class_in_context(state, block, j - 3) == length_class(byte_at(s, pos + j - 3)));
        assert(byte_in_context(state, block, j - 1) == byte_at(s, pos + j - 1));
    }
    assert(block[BLOCK_SIZE - 1] == byte_at(s, pos + BLOCK_SIZE - 1));
    assert(block[BLOCK_SIZE - 2] == byte_at(s, pos + BLOCK_SIZE - 2));
    assert(block[BLOCK_SIZE - 3] == byte_at(s, pos + BLOCK_SIZE - 3));
}

} // verus!
