//! The map half of the engine: the reference model and the operation schema
//! for map-like containers.
//!
//! The model is an unordered collection of unique-key pairs backed by a
//! `Vec`; every operation is a linear scan, which is as slow and as obviously
//! correct as it gets.  Its view is a `Map<u16, u16>` and every method's
//! contract is stated over that view.

use vstd::prelude::*;

use crate::stream::ByteStream;
use crate::stream::StreamModel;
use crate::stream::stream_read_byte;
use crate::stream::stream_read_u16;
use crate::stream::stream_wf;

verus! {

/// No key occurs in two different positions.
spec fn seq_keys_distinct(s: Seq<(u16, u16)>) -> bool {
    forall|i: int, j: int| 0 <= i < j < s.len() ==> (#[trigger] s[i]).0 != (#[trigger] s[j]).0
}

/// Some position holds key `k`.
spec fn seq_has_key(s: Seq<(u16, u16)>, k: u16) -> bool {
    exists|i: int| 0 <= i < s.len() && (#[trigger] s[i]).0 == k
}

/// The position holding key `k` (meaningful only when one exists).
spec fn seq_key_index(s: Seq<(u16, u16)>, k: u16) -> int {
    choose|i: int| 0 <= i < s.len() && (#[trigger] s[i]).0 == k
}

/// With distinct keys, the position holding a key is unique.
proof fn lemma_at_key(s: Seq<(u16, u16)>, i: int)
    requires
        seq_keys_distinct(s),
        0 <= i < s.len(),
    ensures
        seq_has_key(s, s[i].0),
        seq_key_index(s, s[i].0) == i,
{
    assert(seq_has_key(s, s[i].0));
    let j = seq_key_index(s, s[i].0);
    assert(0 <= j < s.len() && s[j].0 == s[i].0);
    if i < j {
        assert(s[i].0 != s[j].0);
    } else if j < i {
        assert(s[j].0 != s[i].0);
    }
}

/// With distinct keys, the key set of the pair sequence is finite and has
/// exactly one member per position.
proof fn lemma_key_set_card(s: Seq<(u16, u16)>)
    requires
        seq_keys_distinct(s),
    ensures
        Set::new(|k: u16| seq_has_key(s, k)).finite(),
        Set::new(|k: u16| seq_has_key(s, k)).len() == s.len(),
    decreases s.len(),
{
    let key_set = Set::new(|k: u16| seq_has_key(s, k));
    if s.len() == 0 {
        assert(key_set =~= Set::<u16>::empty());
    } else {
        let t = s.drop_last();
        let last = s.last();
        assert(seq_keys_distinct(t)) by {
            assert forall|i: int, j: int| 0 <= i < j < t.len() implies (#[trigger] t[i]).0 != (
            #[trigger] t[j]).0 by {
                assert(t[i] == s[i] && t[j] == s[j]);
            }
        }
        lemma_key_set_card(t);
        let t_set = Set::new(|k: u16| seq_has_key(t, k));
        assert(!seq_has_key(t, last.0)) by {
            if seq_has_key(t, last.0) {
                let i = seq_key_index(t, last.0);
                assert(0 <= i < t.len() && t[i].0 == last.0);
                assert(s[i].0 != s[s.len() - 1].0);
            }
        }
        assert(key_set =~= t_set.insert(last.0)) by {
            assert forall|k: u16| key_set.contains(k) implies t_set.insert(last.0).contains(k) by {
                let i = seq_key_index(s, k);
                assert(0 <= i < s.len() && s[i].0 == k);
                if i < s.len() - 1 {
                    assert(t[i] == s[i]);
                    assert(seq_has_key(t, k));
                }
            }
            assert forall|k: u16| t_set.insert(last.0).contains(k) implies key_set.contains(k) by {
                if seq_has_key(t, k) {
                    let i = seq_key_index(t, k);
                    assert(0 <= i < t.len() && t[i].0 == k);
                    assert(s[i] == t[i]);
                    assert(seq_has_key(s, k));
                } else {
                    assert(s[s.len() - 1].0 == k);
                    assert(seq_has_key(s, k));
                }
            }
        }
    }
}

/// A map model: unique-key pairs held in no particular order, exactly
/// reflecting the logical contents implied by the operations applied so far.
/// It has no capacity concept of its own.
pub struct PropHashMap {
    data: Vec<(u16, u16)>,
}

impl View for PropHashMap {
    type V = Map<u16, u16>;

    closed spec fn view(&self) -> Map<u16, u16> {
        Map::new(
            |k: u16| seq_has_key(self.data@, k),
            |k: u16| self.data@[seq_key_index(self.data@, k)].1,
        )
    }
}

impl Default for PropHashMap {
    /// An empty map model.
    fn default() -> (r: Self)
        ensures
            r.wf(),
            r@ == Map::<u16, u16>::empty(),
    {
        Self::new()
    }
}

impl PropHashMap {
    /// Well-formedness: the backing pairs carry distinct keys, so the view
    /// determines every observation.
    pub closed spec fn wf(self) -> bool {
        seq_keys_distinct(self.data@)
    }

    /// Construct an empty map model.
    pub fn new() -> (r: Self)
        ensures
            r.wf(),
            r@ == Map::<u16, u16>::empty(),
    {
        let r = PropHashMap { data: Vec::new() };
        proof {
            assert(r@ =~= Map::<u16, u16>::empty());
        }
        r
    }

    /// The position of key `k` in the backing pairs, if any.
    fn position_of(&self, k: u16) -> (r: Option<usize>)
        ensures
            r matches Some(i) ==> i < self.data@.len() && self.data@[i as int].0 == k,
            r is None ==> !seq_has_key(self.data@, k),
    {
        let mut i: usize = 0;
        while i < self.data.len()
            invariant
                i <= self.data@.len(),
                forall|j: int| 0 <= j < i ==> (#[trigger] self.data@[j]).0 != k,
            decreases self.data@.len() - i,
        {
            if self.data[i].0 == k {
                return Some(i);
            }
            i = i + 1;
        }
        None
    }

    /// Look the key up, returning a reference to the associated value if one
    /// exists.
    pub fn get(&self, k: &u16) -> (r: Option<&u16>)
        requires
            self.wf(),
        ensures
            r matches Some(v) ==> self@.contains_key(*k) && *v == self@[*k],
            r is None ==> !self@.contains_key(*k),
    {
        match self.position_of(*k) {
            Some(i) => {
                proof {
                    lemma_at_key(self.data@, i as int);
                }
                Some(&self.data[i].1)
            },
            None => None,
        }
    }

    /// Whether no pair is held.
    pub fn is_empty(&self) -> (r: bool)
        requires
            self.wf(),
        ensures
            r == (self@.dom().len() == 0),
    {
        proof {
            lemma_key_set_card(self.data@);
            assert(self@.dom() =~= Set::new(|k: u16| seq_has_key(self.data@, k)));
        }
        self.data.is_empty()
    }

    /// The number of pairs held.
    pub fn len(&self) -> (r: usize)
        requires
            self.wf(),
        ensures
            r == self@.dom().len(),
    {
        proof {
            lemma_key_set_card(self.data@);
            assert(self@.dom() =~= Set::new(|k: u16| seq_has_key(self.data@, k)));
        }
        self.data.len()
    }

    /// Drop every pair.
    pub fn clear(&mut self)
        ensures
            final(self).wf(),
            final(self)@ == Map::<u16, u16>::empty(),
    {
        self.data.clear();
        proof {
            assert(self@ =~= Map::<u16, u16>::empty());
        }
    }

    /// Insert a pair, returning the previously associated value if the key
    /// was already present.  Overwriting an existing key replaces the whole
    /// stored pair, key identity included; since equal keys are identical
    /// values here, the two readings of overwrite coincide.
    pub fn insert(&mut self, k: u16, v: u16) -> (r: Option<u16>)
        requires
            old(self).wf(),
        ensures
            final(self).wf(),
            final(self)@ == old(self)@.insert(k, v),
            r == if old(self)@.contains_key(k) {
                Some(old(self)@[k])
            } else {
                None::<u16>
            },
    {
        let ghost s_old = self.data@;
        match self.position_of(k) {
            Some(i) => {
                let prev: u16 = self.data[i].1;
                self.data[i] = (k, v);
                proof {
                    let s_new = self.data@;
                    lemma_at_key(s_old, i as int);
                    assert forall|j: int| 0 <= j < s_new.len() implies (#[trigger] s_new[j]).0
                        == s_old[j].0 by {}
                    assert(seq_keys_distinct(s_new));
                    assert(self@ =~= old(self)@.insert(k, v)) by {
                        assert forall|k2: u16| seq_has_key(s_new, k2) implies seq_has_key(
                            s_old,
                            k2,
                        ) by {
                            let j = seq_key_index(s_new, k2);
                            assert(s_old[j].0 == k2);
                        }
                        assert forall|k2: u16| seq_has_key(s_old, k2) implies seq_has_key(
                            s_new,
                            k2,
                        ) by {
                            let j = seq_key_index(s_old, k2);
                            assert(s_new[j].0 == k2);
                        }
                        assert forall|k2: u16| seq_has_key(s_new, k2) implies self@[k2] == old(
                            self,
                        )@.insert(k, v)[k2] by {
                            let j = seq_key_index(s_new, k2);
                            lemma_at_key(s_new, j);
                            if k2 == k {
                                lemma_at_key(s_new, i as int);
                                assert(self@[k2] == v);
                            } else {
                                assert(s_old[j].0 == k2);
                                lemma_at_key(s_old, j);
                                assert(j != i);
                                assert(self@[k2] == s_new[j].1);
                                assert(old(self)@[k2] == s_old[j].1);
                            }
                        }
                    }
                }
                Some(prev)
            },
            None => {
                self.data.push((k, v));
                proof {
                    let s_new = self.data@;
                    assert(seq_keys_distinct(s_new)) by {
                        assert forall|i: int, j: int| 0 <= i < j < s_new.len() implies (
                        #[trigger] s_new[i]).0 != (#[trigger] s_new[j]).0 by {
                            if j < s_new.len() - 1 {
                                assert(s_new[i] == s_old[i] && s_new[j] == s_old[j]);
                            } else {
                                assert(s_new[i] == s_old[i]);
                                assert(s_new[j].0 == k);
                                assert(!seq_has_key(s_old, k));
                                assert(seq_has_key(s_old, s_old[i].0));
                            }
                        }
                    }
                    assert(self@ =~= old(self)@.insert(k, v)) by {
                        assert forall|k2: u16| seq_has_key(s_new, k2) implies (seq_has_key(
                            s_old,
                            k2,
                        ) || k2 == k) by {
                            let j = seq_key_index(s_new, k2);
                            if j < s_new.len() - 1 {
                                assert(s_old[j].0 == k2);
                            }
                        }
                        assert forall|k2: u16| seq_has_key(s_old, k2) implies seq_has_key(
                            s_new,
                            k2,
                        ) by {
                            let j = seq_key_index(s_old, k2);
                            assert(s_new[j].0 == k2);
                        }
                        assert(s_new[s_new.len() - 1].0 == k);
                        assert(seq_has_key(s_new, k));
                        assert forall|k2: u16| seq_has_key(s_new, k2) implies self@[k2] == old(
                            self,
                        )@.insert(k, v)[k2] by {
                            let j = seq_key_index(s_new, k2);
                            lemma_at_key(s_new, j);
                            if k2 == k {
                                lemma_at_key(s_new, s_new.len() - 1);
                                assert(self@[k2] == v);
                            } else {
                                assert(j < s_new.len() - 1);
                                assert(s_old[j].0 == k2);
                                lemma_at_key(s_old, j);
                                assert(self@[k2] == s_new[j].1);
                                assert(old(self)@[k2] == s_old[j].1);
                            }
                        }
                    }
                }
                None
            },
        }
    }

    /// Remove the pair with the given key, returning its value if one
    /// existed.  The removal is order-destroying, which is fine for an
    /// unordered model.
    pub fn remove(&mut self, k: &u16) -> (r: Option<u16>)
        requires
            old(self).wf(),
        ensures
            final(self).wf(),
            final(self)@ == old(self)@.remove(*k),
            r == if old(self)@.contains_key(*k) {
                Some(old(self)@[*k])
            } else {
                None::<u16>
            },
    {
        let ghost s_old = self.data@;
        match self.position_of(*k) {
            Some(i) => {
                let pair = self.data.swap_remove(i);
                proof {
                    let s_new = self.data@;
                    let key = *k;
                    lemma_at_key(s_old, i as int);
                    assert(s_new == s_old.update(i as int, s_old.last()).drop_last());
                    assert forall|j: int| 0 <= j < s_new.len() implies #[trigger] s_new[j]
                        == s_old.update(i as int, s_old.last())[j] by {}
                    assert(seq_keys_distinct(s_new)) by {
                        assert forall|a: int, b: int| 0 <= a < b < s_new.len() implies (
                        #[trigger] s_new[a]).0 != (#[trigger] s_new[b]).0 by {
                            let ua = if a == i {
                                s_old.len() - 1
                            } else {
                                a
                            };
                            let ub = if b == i {
                                s_old.len() - 1
                            } else {
                                b
                            };
                            assert(s_new[a] == s_old[ua] && s_new[b] == s_old[ub]);
                            assert(ua != ub);
                        }
                    }
                    assert(self@ =~= old(self)@.remove(key)) by {
                        assert forall|k2: u16| seq_has_key(s_new, k2) implies (seq_has_key(
                            s_old,
                            k2,
                        ) && k2 != key) by {
                            let j = seq_key_index(s_new, k2);
                            let uj = if j == i {
                                s_old.len() - 1
                            } else {
                                j
                            };
                            assert(s_new[j] == s_old[uj]);
                            assert(seq_has_key(s_old, k2));
                            lemma_at_key(s_old, uj);
                            assert(uj != i);
                        }
                        assert forall|k2: u16| seq_has_key(s_old, k2) && k2 != key implies
                            seq_has_key(s_new, k2) by {
                            let j = seq_key_index(s_old, k2);
                            lemma_at_key(s_old, j);
                            assert(j != i);
                            if j == s_old.len() - 1 {
                                assert(0 <= i < s_new.len());
                                assert(s_new[i as int] == s_old[j]);
                            } else {
                                assert(s_new[j] == s_old[j]);
                            }
                        }
                        assert forall|k2: u16| seq_has_key(s_new, k2) implies self@[k2] == old(
                            self,
                        )@.remove(key)[k2] by {
                            let j = seq_key_index(s_new, k2);
                            lemma_at_key(s_new, j);
                            let uj = if j == i {
                                s_old.len() - 1
                            } else {
                                j
                            };
                            assert(s_new[j] == s_old[uj]);
                            lemma_at_key(s_old, uj);
                            assert(self@[k2] == s_new[j].1);
                            assert(old(self)@[k2] == s_old[uj].1);
                        }
                    }
                }
                Some(pair.1)
            },
            None => {
                proof {
                    assert(self@ =~= old(self)@.remove(*k)) by {
                        assert(!seq_has_key(s_old, *k));
                    }
                }
                None
            },
        }
    }
}

/// The number of operation kinds a map-like target offers.  The decoder
/// reduces every discriminant byte modulo this count, and
/// [`lemma_map_schema_complete`] proves that the count matches the declared
/// variant set exactly, so the two can never drift apart.
pub const MAP_OP_VARIANTS: u8 = 6;

/// The operations available against a map-like container and its model.
/// Most map directly to container methods; the capacity operations touch the
/// container under test only, since the model has no capacity concept.
#[derive(Clone, Copy, PartialEq, Eq, Structural, Debug)]
pub enum Op {
    /// Ask the container under test to shrink its capacity; no model effect.
    ShrinkToFit,
    /// Drop every pair on both sides.
    Clear,
    /// Ask the container under test to reserve room for `n` more pairs; no
    /// model effect, and skipped outright when the request would overflow the
    /// capacity representation.
    Reserve {
        /// How many additional pairs to make room for.
        n: usize,
    },
    /// Insert a pair on both sides and compare the returned previous values.
    Insert {
        /// The key to insert at.
        k: u16,
        /// The value to associate.
        v: u16,
    },
    /// Remove a key on both sides and compare the returned values.
    Remove {
        /// The key to remove.
        k: u16,
    },
    /// Look a key up on both sides and compare the results.
    Get {
        /// The key to look up.
        k: u16,
    },
}

/// The position of each variant in the decoder's discriminant space.
pub open spec fn op_variant_index(op: Op) -> u8 {
    match op {
        Op::Insert { .. } => 0,
        Op::Remove { .. } => 1,
        Op::Get { .. } => 2,
        Op::ShrinkToFit => 3,
        Op::Clear => 4,
        Op::Reserve { .. } => 5,
    }
}

/// Decoding one operation: read a discriminant byte, reduce it modulo the
/// variant count, then read that variant's payload fields in declared order.
/// The reservation count is decoded from a narrow width on purpose, to keep
/// requests within an allocatable range.  A stream that exhausts before the
/// operation is complete yields no operation, which ends a streaming run
/// cleanly.
pub open spec fn spec_decode_op(s: StreamModel) -> (Option<Op>, StreamModel) {
    match stream_read_byte(s) {
        (None, s1) => (None, s1),
        (Some(b), s1) => {
            let variant = b % MAP_OP_VARIANTS;
            if variant == 0 {
                match stream_read_u16(s1) {
                    (None, s2) => (None, s2),
                    (Some(k), s2) => match stream_read_u16(s2) {
                        (None, s3) => (None, s3),
                        (Some(v), s3) => (Some(Op::Insert { k, v }), s3),
                    },
                }
            } else if variant == 1 {
                match stream_read_u16(s1) {
                    (None, s2) => (None, s2),
                    (Some(k), s2) => (Some(Op::Remove { k }), s2),
                }
            } else if variant == 2 {
                match stream_read_u16(s1) {
                    (None, s2) => (None, s2),
                    (Some(k), s2) => (Some(Op::Get { k }), s2),
                }
            } else if variant == 3 {
                (Some(Op::ShrinkToFit), s1)
            } else if variant == 4 {
                (Some(Op::Clear), s1)
            } else {
                match stream_read_u16(s1) {
                    (None, s2) => (None, s2),
                    (Some(n), s2) => (Some(Op::Reserve { n: n as usize }), s2),
                }
            }
        },
    }
}

impl Op {
    /// Decode the next operation from the stream, or report exhaustion.
    pub fn decode(stream: &mut ByteStream) -> (r: Option<Op>)
        requires
            stream_wf(old(stream)@),
        ensures
            stream_wf(final(stream)@),
            (r, final(stream)@) == spec_decode_op(old(stream)@),
    {
        match stream.next_byte() {
            None => None,
            Some(b) => {
                let variant: u8 = b % MAP_OP_VARIANTS;
                if variant == 0 {
                    match stream.next_u16() {
                        None => None,
                        Some(k) => match stream.next_u16() {
                            None => None,
                            Some(v) => Some(Op::Insert { k, v }),
                        },
                    }
                } else if variant == 1 {
                    match stream.next_u16() {
                        None => None,
                        Some(k) => Some(Op::Remove { k }),
                    }
                } else if variant == 2 {
                    match stream.next_u16() {
                        None => None,
                        Some(k) => Some(Op::Get { k }),
                    }
                } else if variant == 3 {
                    Some(Op::ShrinkToFit)
                } else if variant == 4 {
                    Some(Op::Clear)
                } else {
                    match stream.next_u16() {
                        None => None,
                        Some(n) => Some(Op::Reserve { n: n as usize }),
                    }
                }
            },
        }
    }
}

/// Whether some declared variant occupies position `i` of the discriminant
/// space.
pub open spec fn map_variant_selected(i: u8) -> bool {
    exists|op: Op| #[trigger] op_variant_index(op) == i
}

/// The map schema's variant-selection discipline is sound: every declared
/// variant has an index below [`MAP_OP_VARIANTS`], and every residue below
/// that count selects some declared variant.  The modulus in the decoder is
/// therefore exactly the live variant count, not an independently maintained
/// number.
pub proof fn lemma_map_schema_complete()
    ensures
        forall|op: Op| #[trigger] op_variant_index(op) < MAP_OP_VARIANTS,
        forall|i: u8| i < MAP_OP_VARIANTS ==> #[trigger] map_variant_selected(i),
{
    assert forall|i: u8| i < MAP_OP_VARIANTS implies #[trigger] map_variant_selected(i) by {
        if i == 0 {
            assert(op_variant_index(Op::Insert { k: 0, v: 0 }) == i);
        } else if i == 1 {
            assert(op_variant_index(Op::Remove { k: 0 }) == i);
        } else if i == 2 {
            assert(op_variant_index(Op::Get { k: 0 }) == i);
        } else if i == 3 {
            assert(op_variant_index(Op::ShrinkToFit) == i);
        } else if i == 4 {
            assert(op_variant_index(Op::Clear) == i);
        } else {
            assert(op_variant_index(Op::Reserve { n: 0 }) == i);
        }
    }
}

/// Decoding one operation from a bounded stream keeps the stream well
/// formed, never rewinds the cursor, and consumes at least one byte when it
/// yields an operation.
pub proof fn lemma_map_decode_progress(s: StreamModel)
    requires
        stream_wf(s),
        !s.cyclic,
    ensures
        stream_wf(spec_decode_op(s).1),
        spec_decode_op(s).1.cyclic == s.cyclic,
        spec_decode_op(s).1.data == s.data,
        spec_decode_op(s).1.limit == s.limit,
        spec_decode_op(s).1.cursor >= s.cursor,
        spec_decode_op(s).0 is Some ==> spec_decode_op(s).1.cursor > s.cursor,
{
}

/// Every operation a bounded stream yields until it exhausts, in order.
pub open spec fn spec_decode_map_ops(s: StreamModel) -> Seq<Op>
    decreases s.limit - s.cursor
        when stream_wf(s) && !s.cyclic
        via spec_decode_map_ops_dec
{
    match spec_decode_op(s) {
        (None, _) => Seq::empty(),
        (Some(op), s2) => seq![op] + spec_decode_map_ops(s2),
    }
}

#[via_fn]
proof fn spec_decode_map_ops_dec(s: StreamModel) {
    lemma_map_decode_progress(s);
}

/// The first `n` operations a stream yields (fewer if it exhausts first).
pub open spec fn spec_decode_map_ops_n(s: StreamModel, n: nat) -> Seq<Op>
    decreases n,
{
    if n == 0 {
        Seq::empty()
    } else {
        match spec_decode_op(s) {
            (None, _) => Seq::empty(),
            (Some(op), s2) => seq![op] + spec_decode_map_ops_n(s2, (n - 1) as nat),
        }
    }
}

/// Decoding one operation from a cyclic stream always succeeds: the cursor
/// wraps instead of exhausting.
pub proof fn lemma_map_decode_cyclic_total(s: StreamModel)
    requires
        stream_wf(s),
        s.cyclic,
    ensures
        stream_wf(spec_decode_op(s).1),
        spec_decode_op(s).1.cyclic,
        spec_decode_op(s).0 is Some,
{
}

/// Over a cyclic stream the fixed-count decoder delivers exactly the
/// requested number of operations, however small the buffer is.
pub proof fn lemma_map_decode_cyclic_count(s: StreamModel, n: nat)
    requires
        stream_wf(s),
        s.cyclic,
    ensures
        spec_decode_map_ops_n(s, n).len() == n,
    decreases n,
{
    if n > 0 {
        lemma_map_decode_cyclic_total(s);
        lemma_map_decode_cyclic_count(spec_decode_op(s).1, (n - 1) as nat);
    }
}

/// A decoded operation always carries the variant selected by the
/// discriminant byte reduced modulo the variant count.
pub proof fn lemma_map_decode_follows_discriminant(s: StreamModel)
    requires
        stream_wf(s),
        spec_decode_op(s).0 is Some,
    ensures
        stream_read_byte(s).0 matches Some(b) && op_variant_index(spec_decode_op(s).0->0) == b
            % MAP_OP_VARIANTS,
{
}

} // verus!
