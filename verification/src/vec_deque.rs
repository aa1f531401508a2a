//! The double-ended-queue half of the engine: the reference model and the
//! operation schema for deque-like containers.
//!
//! The model is a single ordered sequence backed by a `Vec`; efficiency is of
//! no interest, only obvious correctness.  Its view is a `Seq<u8>` and every
//! method's contract is stated over that view.

use vstd::prelude::*;

use crate::stream::ByteStream;
use crate::stream::StreamModel;
use crate::stream::stream_read_byte;
use crate::stream::stream_read_u16;
use crate::stream::stream_wf;

verus! {

/// A deque model: an ordered sequence of values that exactly reflects the
/// operations applied so far.  It has no capacity concept of its own.
pub struct PropVecDeque {
    data: Vec<u8>,
}

impl View for PropVecDeque {
    type V = Seq<u8>;

    closed spec fn view(&self) -> Seq<u8> {
        self.data@
    }
}

/// What `swap_remove_back(index)` returns and leaves behind: nothing happens
/// on an empty sequence; a one-element sequence is drained whatever the index
/// is; a valid index is overwritten with the last element which is then
/// dropped; any other index (with two or more elements present) is refused.
pub open spec fn spec_swap_remove_back(s: Seq<u8>, index: int) -> (Option<u8>, Seq<u8>) {
    if s.len() == 0 {
        (None, s)
    } else if s.len() == 1 {
        (Some(s[0]), s.drop_last())
    } else if 0 <= index < s.len() {
        (Some(s[index]), s.update(index, s.last()).drop_last())
    } else {
        (None, s)
    }
}

impl Default for PropVecDeque {
    /// An empty deque model.
    fn default() -> (r: Self)
        ensures
            r@ == Seq::<u8>::empty(),
    {
        Self::new()
    }
}

impl PropVecDeque {
    /// Construct an empty deque model.
    pub fn new() -> (r: Self)
        ensures
            r@ == Seq::<u8>::empty(),
    {
        PropVecDeque { data: Vec::new() }
    }

    /// Append a value at the back.
    pub fn push_back(&mut self, value: u8)
        ensures
            final(self)@ == old(self)@.push(value),
    {
        self.data.push(value);
    }

    /// Remove and return the last value, if one exists.
    pub fn pop_back(&mut self) -> (r: Option<u8>)
        ensures
            old(self)@.len() == 0 ==> r is None && final(self)@ == old(self)@,
            old(self)@.len() > 0 ==> r == Some(old(self)@.last()) && final(self)@ == old(
                self,
            )@.drop_last(),
    {
        self.data.pop()
    }

    /// Prepend a value at the front.
    pub fn push_front(&mut self, value: u8)
        ensures
            final(self)@ == seq![value] + old(self)@,
    {
        self.data.insert(0, value);
        proof {
            assert(self@ =~= seq![value] + old(self)@);
        }
    }

    /// Insert a value at the given position.
    pub fn insert(&mut self, index: usize, value: u8)
        requires
            index <= old(self)@.len(),
        ensures
            final(self)@ == old(self)@.insert(index as int, value),
    {
        self.data.insert(index, value);
    }

    /// Remove and return the value at the given position, or `None` if the
    /// position is out of bounds.
    pub fn remove(&mut self, index: usize) -> (r: Option<u8>)
        ensures
            index < old(self)@.len() ==> r == Some(old(self)@[index as int]) && final(self)@ == old(
                self,
            )@.remove(index as int),
            index >= old(self)@.len() ==> r is None && final(self)@ == old(self)@,
    {
        if index < self.data.len() {
            Some(self.data.remove(index))
        } else {
            None
        }
    }

    /// Remove and return the first value, if one exists.
    pub fn pop_front(&mut self) -> (r: Option<u8>)
        ensures
            old(self)@.len() == 0 ==> r is None && final(self)@ == old(self)@,
            old(self)@.len() > 0 ==> r == Some(old(self)@[0]) && final(self)@ == old(
                self,
            )@.subrange(1, old(self)@.len() as int),
    {
        if self.data.len() == 0 {
            None
        } else {
            let val = self.data.remove(0);
            proof {
                assert(old(self)@.remove(0) =~= old(self)@.subrange(1, old(self)@.len() as int));
            }
            Some(val)
        }
    }

    /// Drop every value.
    pub fn clear(&mut self)
        ensures
            final(self)@ == Seq::<u8>::empty(),
    {
        self.data.clear();
    }

    /// The first value, if one exists, without removing it.
    pub fn front(&self) -> (r: Option<&u8>)
        ensures
            self@.len() == 0 ==> r is None,
            self@.len() > 0 ==> (r matches Some(v) && *v == self@[0]),
    {
        if self.data.len() == 0 {
            None
        } else {
            Some(&self.data[0])
        }
    }

    /// The last value, if one exists, without removing it.
    pub fn back(&self) -> (r: Option<&u8>)
        ensures
            self@.len() == 0 ==> r is None,
            self@.len() > 0 ==> (r matches Some(v) && *v == self@.last()),
    {
        if self.data.len() == 0 {
            None
        } else {
            let len: usize = self.data.len();
            Some(&self.data[len - 1])
        }
    }

    /// Overwrite the value at `index` with the back value, drop the back
    /// slot, and return the overwritten value; see [`spec_swap_remove_back`]
    /// for the edge cases.
    pub fn swap_remove_back(&mut self, index: usize) -> (r: Option<u8>)
        ensures
            (r, final(self)@) == spec_swap_remove_back(old(self)@, index as int),
    {
        let len: usize = self.data.len();
        if len == 0 {
            None
        } else if len == 1 {
            self.pop_back()
        } else if index < len {
            let removed = self.data[index];
            match self.data.pop() {
                None => None,  // unreachable: the deque holds at least two values
                Some(last) => {
                    if index < len - 1 {
                        self.data[index] = last;
                    }
                    proof {
                        assert(self.data@ =~= old(self)@.update(
                            index as int,
                            old(self)@.last(),
                        ).drop_last());
                    }
                    Some(removed)
                },
            }
        } else {
            None
        }
    }

    /// The number of values held.
    pub fn len(&self) -> (r: usize)
        ensures
            r == self@.len(),
    {
        self.data.len()
    }

    /// Whether no value is held.
    pub fn is_empty(&self) -> (r: bool)
        ensures
            r == (self@.len() == 0),
    {
        self.data.is_empty()
    }
}

/// The number of operation kinds a deque-like target offers.  The decoder
/// reduces every discriminant byte modulo this count, and
/// [`lemma_deque_schema_complete`] proves that the count matches the declared
/// variant set exactly, so the two can never drift apart.
pub const DEQUE_OP_VARIANTS: u8 = 9;

/// The operations available against a deque-like container and its model.
/// Most map directly to container methods; positional operations carry the
/// position, pushes carry the pushed value.
#[derive(Clone, Copy, PartialEq, Eq, Structural, Debug)]
pub enum Op {
    /// Ask the container under test to shrink its capacity; no model effect.
    ShrinkToFit,
    /// Drop every value on both sides.
    Clear,
    /// Append a value at the back on both sides.
    PushBack(u8),
    /// Remove the back value on both sides and compare the results.
    PopBack,
    /// Prepend a value at the front on both sides.
    PushFront(u8),
    /// Remove the front value on both sides and compare the results.
    PopFront,
    /// Insert a value at a position on both sides.
    Insert(usize, u8),
    /// Remove the value at a position on both sides and compare the results.
    Remove(usize),
    /// Swap-remove towards the back on both sides and compare the results.
    SwapRemoveBack(usize),
}

/// The position of each variant in the decoder's discriminant space.
pub open spec fn op_variant_index(op: Op) -> u8 {
    match op {
        Op::PushBack(_) => 0,
        Op::PopBack => 1,
        Op::PushFront(_) => 2,
        Op::PopFront => 3,
        Op::Clear => 4,
        Op::ShrinkToFit => 5,
        Op::Insert(_, _) => 6,
        Op::Remove(_) => 7,
        Op::SwapRemoveBack(_) => 8,
    }
}

/// Decoding one operation: read a discriminant byte, reduce it modulo the
/// variant count, then read that variant's payload fields in declared order.
/// A stream that exhausts before the operation is complete yields no
/// operation, which ends a streaming run cleanly.
pub open spec fn spec_decode_op(s: StreamModel) -> (Option<Op>, StreamModel) {
    match stream_read_byte(s) {
        (None, s1) => (None, s1),
        (Some(b), s1) => {
            let variant = b % DEQUE_OP_VARIANTS;
            if variant == 0 {
                match stream_read_byte(s1) {
                    (None, s2) => (None, s2),
                    (Some(t), s2) => (Some(Op::PushBack(t)), s2),
                }
            } else if variant == 1 {
                (Some(Op::PopBack), s1)
            } else if variant == 2 {
                match stream_read_byte(s1) {
                    (None, s2) => (None, s2),
                    (Some(t), s2) => (Some(Op::PushFront(t)), s2),
                }
            } else if variant == 3 {
                (Some(Op::PopFront), s1)
            } else if variant == 4 {
                (Some(Op::Clear), s1)
            } else if variant == 5 {
                (Some(Op::ShrinkToFit), s1)
            } else if variant == 6 {
                match stream_read_u16(s1) {
                    (None, s2) => (None, s2),
                    (Some(i), s2) => match stream_read_byte(s2) {
                        (None, s3) => (None, s3),
                        (Some(t), s3) => (Some(Op::Insert(i as usize, t)), s3),
                    },
                }
            } else if variant == 7 {
                match stream_read_u16(s1) {
                    (None, s2) => (None, s2),
                    (Some(i), s2) => (Some(Op::Remove(i as usize)), s2),
                }
            } else {
                match stream_read_u16(s1) {
                    (None, s2) => (None, s2),
                    (Some(i), s2) => (Some(Op::SwapRemoveBack(i as usize)), s2),
                }
            }
        },
    }
}

impl Op {
    /// Decode the next operation from the stream, or report exhaustion.
    pub fn decode(stream: &mut ByteStream) -> (r: Option<Op>)
        requires
            stream_wf(old(stream)@),
        ensures
            stream_wf(final(stream)@),
            (r, final(stream)@) == spec_decode_op(old(stream)@),
    {
        match stream.next_byte() {
            None => None,
            Some(b) => {
                let variant: u8 = b % DEQUE_OP_VARIANTS;
                if variant == 0 {
                    match stream.next_byte() {
                        None => None,
                        Some(t) => Some(Op::PushBack(t)),
                    }
                } else if variant == 1 {
                    Some(Op::PopBack)
                } else if variant == 2 {
                    match stream.next_byte() {
                        None => None,
                        Some(t) => Some(Op::PushFront(t)),
                    }
                } else if variant == 3 {
                    Some(Op::PopFront)
                } else if variant == 4 {
                    Some(Op::Clear)
                } else if variant == 5 {
                    Some(Op::ShrinkToFit)
                } else if variant == 6 {
                    match stream.next_u16() {
                        None => None,
                        Some(i) => match stream.next_byte() {
                            None => None,
                            Some(t) => Some(Op::Insert(i as usize, t)),
                        },
                    }
                } else if variant == 7 {
                    match stream.next_u16() {
                        None => None,
                        Some(i) => Some(Op::Remove(i as usize)),
                    }
                } else {
                    match stream.next_u16() {
                        None => None,
                        Some(i) => Some(Op::SwapRemoveBack(i as usize)),
                    }
                }
            },
        }
    }
}

/// Whether some declared variant occupies position `i` of the discriminant
/// space.
pub open spec fn deque_variant_selected(i: u8) -> bool {
    exists|op: Op| #[trigger] op_variant_index(op) == i
}

/// The deque schema's variant-selection discipline is sound: every declared
/// variant has an index below [`DEQUE_OP_VARIANTS`], and every residue below
/// that count selects some declared variant.  The modulus in the decoder is
/// therefore exactly the live variant count, not an independently maintained
/// number.
pub proof fn lemma_deque_schema_complete()
    ensures
        forall|op: Op| #[trigger] op_variant_index(op) < DEQUE_OP_VARIANTS,
        forall|i: u8| i < DEQUE_OP_VARIANTS ==> #[trigger] deque_variant_selected(i),
{
    assert forall|i: u8| i < DEQUE_OP_VARIANTS implies #[trigger] deque_variant_selected(i) by {
        if i == 0 {
            assert(op_variant_index(Op::PushBack(0)) == i);
        } else if i == 1 {
            assert(op_variant_index(Op::PopBack) == i);
        } else if i == 2 {
            assert(op_variant_index(Op::PushFront(0)) == i);
        } else if i == 3 {
            assert(op_variant_index(Op::PopFront) == i);
        } else if i == 4 {
            assert(op_variant_index(Op::Clear) == i);
        } else if i == 5 {
            assert(op_variant_index(Op::ShrinkToFit) == i);
        } else if i == 6 {
            assert(op_variant_index(Op::Insert(0, 0)) == i);
        } else if i == 7 {
            assert(op_variant_index(Op::Remove(0)) == i);
        } else {
            assert(op_variant_index(Op::SwapRemoveBack(0)) == i);
        }
    }
}

/// Decoding one operation from a bounded stream keeps the stream well
/// formed, never rewinds the cursor, and consumes at least one byte when it
/// yields an operation.
pub proof fn lemma_deque_decode_progress(s: StreamModel)
    requires
        stream_wf(s),
        !s.cyclic,
    ensures
        stream_wf(spec_decode_op(s).1),
        spec_decode_op(s).1.cyclic == s.cyclic,
        spec_decode_op(s).1.data == s.data,
        spec_decode_op(s).1.limit == s.limit,
        spec_decode_op(s).1.cursor >= s.cursor,
        spec_decode_op(s).0 is Some ==> spec_decode_op(s).1.cursor > s.cursor,
{
}

/// Every operation a bounded stream yields until it exhausts, in order.
pub open spec fn spec_decode_deque_ops(s: StreamModel) -> Seq<Op>
    decreases s.limit - s.cursor
        when stream_wf(s) && !s.cyclic
        via spec_decode_deque_ops_dec
{
    match spec_decode_op(s) {
        (None, _) => Seq::empty(),
        (Some(op), s2) => seq![op] + spec_decode_deque_ops(s2),
    }
}

#[via_fn]
proof fn spec_decode_deque_ops_dec(s: StreamModel) {
    lemma_deque_decode_progress(s);
}

/// A decoded operation always carries the variant selected by the
/// discriminant byte reduced modulo the variant count.
pub proof fn lemma_deque_decode_follows_discriminant(s: StreamModel)
    requires
        stream_wf(s),
        spec_decode_op(s).0 is Some,
    ensures
        stream_read_byte(s).0 matches Some(b) && op_variant_index(spec_decode_op(s).0->0) == b
            % DEQUE_OP_VARIANTS,
{
}

} // verus!
