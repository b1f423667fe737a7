//! The validator: runs the block processor over a whole buffer.
use vstd::prelude::*;
use vstd::slice::slice_subrange;
use crate::block::{lemma_block_boundary, process_block, CarriedState, BLOCK_SIZE};
use crate::classify::{byte_at, lemma_positions_ok_iff_well_formed, position_ok, positions_ok};
use crate::grammar::well_formed;

verus! {

/// Why a buffer could not be given a verdict.
#[derive(Clone, Copy, Debug, PartialEq, Eq, Structural)]
pub enum ValidateError {
    /// The buffer is shorter than one block of `BLOCK_SIZE` bytes.
    TooShort,
}

/// Once every position up to and including the end of `s` is accepted, every
/// later position (all NUL bytes) is accepted too.
pub(crate) proof fn lemma_accepted_past_end(s: Seq<u8>, hi: int)
    requires
        positions_ok(s, 0, (s.len() + 1) as int),
    ensures
        positions_ok(s, 0, hi),
{
    let n = s.len() as int;
    assert(position_ok(s, n));
    assert forall|i: int| 0 <= i < hi implies position_ok(s, i) by {
        if i > n {
            assert(byte_at(s, i) == 0);
            assert(byte_at(s, i - 1) == 0);
        }
    }
}

/// Decides whether `data` is well-formed UTF-8.
///
/// The buffer is classified in blocks of `BLOCK_SIZE` bytes, carrying state
/// from each block to the next. A final block holds the bytes past the last
/// full block followed by NUL padding, so no byte goes unchecked and a
/// sequence cut off by the end of the buffer is rejected. A buffer shorter
/// than one block is refused with `ValidateError::TooShort`.
pub fn utf8_validate(data: &[u8]) -> (r: Result<bool, ValidateError>)
    ensures
        data@.len() < BLOCK_SIZE ==> r == Err::<bool, ValidateError>(ValidateError::TooShort),
        data@.len() >= BLOCK_SIZE ==> r == Ok::<bool, ValidateError>(well_formed(data@)),
{
    let len = data.len();
    if len < BLOCK_SIZE {
        return Err(ValidateError::TooShort);
    }
    let mut state = CarriedState::new();
    let mut error = false;
    let mut pos: usize = 0;
    while len - pos >= BLOCK_SIZE
        invariant
            len == data@.len(),
            pos <= len,
            state.wf(),
            state.describes(data@, pos as int),
            error == !positions_ok(data@, 0, pos as int),
        decreases len - pos,
    {
        let block = slice_subrange(data, pos, pos + BLOCK_SIZE);
        let outcome = process_block(block, &state);
        proof {
            assert forall|k: int| 0 <= k < BLOCK_SIZE implies block@[k] == byte_at(
                data@,
                pos + k,
            ) by {}
            lemma_block_boundary(data@, pos as int, state, block@, outcome.next);
            if outcome.error {
                let j = choose|j: int|
                    0 <= j < BLOCK_SIZE && !crate::block::block_position_ok(state, block@, j);
                assert(!position_ok(data@, pos + j));
            } else if !error {
                assert forall|i: int| 0 <= i < pos + BLOCK_SIZE implies position_ok(data@, i) by {
                    if i >= pos {
                        assert(crate::block::block_position_ok(state, block@, i - pos));
                    }
                }
            }
        }
        error = error || outcome.error;
        state = outcome.next;
        pos = pos + BLOCK_SIZE;
    }
    let mut tail: [u8; 32] = [0u8; 32];
    let mut i: usize = 0;
    while pos + i < len
        invariant
            len == data@.len(),
            len - pos < BLOCK_SIZE,
            i <= BLOCK_SIZE,
            pos + i <= len,
            forall|k: int| 0 <= k < i ==> tail[k] == byte_at(data@, pos + k),
            forall|k: int| i <= k < BLOCK_SIZE ==> tail[k] == 0,
        decreases len - pos - i,
    {
        tail[i] = data[pos + i];
        i = i + 1;
    }
    let outcome = process_block(&tail, &state);
    proof {
        assert forall|k: int| 0 <= k < BLOCK_SIZE implies tail@[k] == byte_at(data@, pos + k) by {}
        lemma_block_boundary(data@, pos as int, state, tail@, outcome.next);
        lemma_positions_ok_iff_well_formed(data@);
        if outcome.error {
            let j = choose|j: int|
                0 <= j < BLOCK_SIZE && !crate::block::block_position_ok(state, tail@, j);
            assert(!position_ok(data@, pos + j));
            if positions_ok(data@, 0, (len + 1) as int) {
                lemma_accepted_past_end(data@, pos + BLOCK_SIZE);
            }
        } else if !error && !positions_ok(data@, 0, (len + 1) as int) {
            let j = choose|j: int| 0 <= j < len + 1 && !position_ok(data@, j);
            assert(j >= pos);
            assert(crate::block::block_position_ok(state, tail@, j - pos));
        }
    }
    Ok(!(error || outcome.error))
}

} // verus!
