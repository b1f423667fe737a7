//! A streaming validator: accepts the input in chunks of any size and gives
//! the verdict on everything pushed so far, without holding the whole input.
use vstd::prelude::*;
use crate::block::{block_position_ok, lemma_block_boundary, process_block, CarriedState, BLOCK_SIZE};
use crate::classify::{byte_at, lemma_positions_ok_iff_well_formed, position_ok, positions_ok};
use crate::grammar::well_formed;

verus! {

/// Validation state over a stream of chunks: the carried state and error
/// flag of the full blocks classified so far, and the bytes that do not yet
/// fill a block.
pub struct Utf8Stream {
    state: CarriedState,
    error: bool,
    pending: Vec<u8>,
    seen: Ghost<Seq<u8>>,
}

/// Classification of a position looks at no byte after it, so appending
/// bytes after the position leaves it unchanged.
proof fn lemma_position_ok_extend(s: Seq<u8>, t: Seq<u8>, i: int)
    requires
        0 <= i < s.len(),
        s.len() <= t.len(),
        t.subrange(0, s.len() as int) == s,
    ensures
        position_ok(t, i) == position_ok(s, i),
{
    assert(byte_at(t, i) == byte_at(s, i));
    assert(byte_at(t, i - 1) == byte_at(s, i - 1));
    assert(byte_at(t, i - 2) == byte_at(s, i - 2));
    assert(byte_at(t, i - 3) == byte_at(s, i - 3));
}

impl Utf8Stream {
    /// Every byte pushed so far, in order.
    pub closed spec fn view(&self) -> Seq<u8> {
        self.seen@
    }

    /// Number of bytes already classified in full blocks.
    spec fn consumed(&self) -> int {
        self.seen@.len() - self.pending@.len()
    }

    /// The full blocks of the input have been classified, and what remains
    /// is pending.
    pub closed spec fn wf(&self) -> bool {
        &&& self.pending@.len() < BLOCK_SIZE
        &&& self.pending@.len() <= self.seen@.len()
        &&& self.pending@ == self.seen@.subrange(self.consumed(), self.seen@.len() as int)
        &&& self.state.wf()
        &&& self.state.describes(self.seen@, self.consumed())
        &&& self.error == !positions_ok(self.seen@, 0, self.consumed())
    }

    /// A stream with nothing pushed yet.
    pub fn new() -> (r: Utf8Stream)
        ensures
            r.wf(),
            r.view() == Seq::<u8>::empty(),
    {
        let state = CarriedState::new();
        let r = Utf8Stream { state, error: false, pending: Vec::new(), seen: Ghost(Seq::empty()) };
        assert(r.pending@ =~= r.seen@.subrange(0, 0));
        r
    }

    /// Appends one byte, classifying a block whenever one fills up.
    fn push_byte(&mut self, b: u8)
        requires
            old(self).wf(),
        ensures
            final(self).wf(),
            final(self).view() == old(self).view().push(b),
    {
        let ghost before = self.seen@;
        let ghost consumed = self.consumed();
        self.pending.push(b);
        self.seen = Ghost(self.seen@.push(b));
        proof {
            let s = self.seen@;
            assert(s.subrange(0, before.len() as int) == before);
            assert forall|i: int| 0 <= i < consumed implies position_ok(s, i) == position_ok(
                before,
                i,
            ) by {
                lemma_position_ok_extend(before, s, i);
            }
            assert(byte_at(s, consumed - 1) == byte_at(before, consumed - 1));
            assert(byte_at(s, consumed - 2) == byte_at(before, consumed - 2));
            assert(byte_at(s, consumed - 3) == byte_at(before, consumed - 3));
            assert(self.pending@ =~= s.subrange(consumed, s.len() as int));
            assert(positions_ok(s, 0, consumed) == positions_ok(before, 0, consumed));
        }
        if self.pending.len() == BLOCK_SIZE {
            let outcome = process_block(self.pending.as_slice(), &self.state);
            proof {
                let s = self.seen@;
                assert forall|j: int| 0 <= j < BLOCK_SIZE implies self.pending@[j] == byte_at(
                    s,
                    consumed + j,
                ) by {}
                lemma_block_boundary(s, consumed, self.state, self.pending@, outcome.next);
                if outcome.error {
                    let j = choose|j: int|
                        0 <= j < BLOCK_SIZE && !block_position_ok(self.state, self.pending@, j);
                    assert(!position_ok(s, consumed + j));
                } else if !self.error {
                    assert forall|i: int| 0 <= i < s.len() implies position_ok(s, i) by {
                        if i >= consumed {
                            assert(block_position_ok(self.state, self.pending@, i - consumed));
                        }
                    }
                }
            }
            self.error = self.error || outcome.error;
            self.state = outcome.next;
            self.pending.clear();
            proof {
                let s = self.seen@;
                assert(self.pending@ =~= s.subrange(s.len() as int, s.len() as int));
            }
        }
    }

    /// Appends the bytes of `chunk` to the stream.
    pub fn push(&mut self, chunk: &[u8])
        requires
            old(self).wf(),
        ensures
            final(self).wf(),
            final(self).view() == old(self).view() + chunk@,
    {
        let mut i: usize = 0;
        while i < chunk.len()
            invariant
                i <= chunk@.len(),
                self.wf(),
                self.view() == old(self).view() + chunk@.take(i as int),
            decreases chunk@.len() - i,
        {
            self.push_byte(chunk[i]);
            assert(chunk@.take(i + 1) == chunk@.take(i as int).push(chunk@[i as int]));
            i = i + 1;
        }
        assert(chunk@.take(chunk@.len() as int) == chunk@);
    }

    /// Whether everything pushed so far is well-formed UTF-8. The pending
    /// bytes are classified as a last block padded with NUL bytes, so a
    /// sequence cut off by the end of the stream is rejected.
    pub fn is_valid(&self) -> (r: bool)
        requires
            self.wf(),
        ensures
            r == well_formed(self.view()),
    {
        let ghost s = self.seen@;
        let ghost pos = self.consumed();
        let mut tail: [u8; 32] = [0u8; 32];
        let mut i: usize = 0;
        while i < self.pending.len()
            invariant
                self.wf(),
                s == self.seen@,
                pos == self.consumed(),
                i <= self.pending@.len(),
                forall|k: int| 0 <= k < i ==> tail[k] == byte_at(s, pos + k),
                forall|k: int| i <= k < BLOCK_SIZE ==> tail[k] == 0,
            decreases self.pending@.len() - i,
        {
            assert(self.pending@[i as int] == s[pos + i]);
            tail[i] = self.pending[i];
            i = i + 1;
        }
        let outcome = process_block(&tail, &self.state);
        proof {
            assert forall|k: int| 0 <= k < BLOCK_SIZE implies tail@[k] == byte_at(s, pos + k) by {}
            lemma_block_boundary(s, pos, self.state, tail@, outcome.next);
            lemma_positions_ok_iff_well_formed(s);
            if outcome.error {
                let j = choose|j: int|
                    0 <= j < BLOCK_SIZE && !block_position_ok(self.state, tail@, j);
                assert(!position_ok(s, pos + j));
                if positions_ok(s, 0, (s.len() + 1) as int) {
                    crate::validate::lemma_accepted_past_end(s, pos + BLOCK_SIZE);
                }
            } else if !self.error && !positions_ok(s, 0, (s.len() + 1) as int) {
                let j = choose|j: int| 0 <= j < s.len() + 1 && !position_ok(s, j);
                assert(j >= pos);
                assert(block_position_ok(self.state, tail@, j - pos));
            }
        }
        !(self.error || outcome.error)
    }
}

} // verus!
