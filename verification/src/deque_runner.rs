//! Differential execution for deque-like targets.
//!
//! Each decoded operation is applied to the reference model and to the
//! container under test; returned values are compared, and a fixed set of
//! structural invariants — including agreement on the front and back
//! elements — is evaluated after every operation.  The verdict is a pure
//! function of the operation sequence and of what was observed of the
//! container under test, so replaying the same input reproduces the same
//! verdict.

use vstd::prelude::*;

use crate::stream::ByteStream;
use crate::stream::StreamModel;
use crate::stream::spec_bounded_stream;
use crate::stream::stream_read_byte;
use crate::stream::stream_wf;
use crate::sut::deque_sut_back;
use crate::sut::deque_sut_capacity;
use crate::sut::deque_sut_front;
use crate::sut::deque_sut_is_empty;
use crate::sut::deque_sut_shrink_to_fit;
use crate::sut::deque_sut_swap_remove_back;
use crate::vec_deque::Op;
use crate::vec_deque::PropVecDeque;
use crate::vec_deque::lemma_deque_decode_progress;
use crate::vec_deque::spec_decode_deque_ops;
use crate::vec_deque::spec_decode_op;
use crate::vec_deque::spec_swap_remove_back;
use std::collections::VecDeque;

verus! {

/// How one operation transforms the model's logical contents.  A positional
/// insert past the end is a no-op: it would be rejected on either side, so
/// it is skipped rather than applied.
pub open spec fn spec_deque_step(s: Seq<u8>, op: Op) -> Seq<u8> {
    match op {
        Op::ShrinkToFit => s,
        Op::Clear => Seq::empty(),
        Op::PushBack(t) => s.push(t),
        Op::PopBack => if s.len() > 0 {
            s.drop_last()
        } else {
            s
        },
        Op::PushFront(t) => seq![t] + s,
        Op::PopFront => if s.len() > 0 {
            s.drop_first()
        } else {
            s
        },
        Op::Insert(i, t) => if i <= s.len() {
            s.insert(i as int, t)
        } else {
            s
        },
        Op::Remove(i) => if i < s.len() {
            s.remove(i as int)
        } else {
            s
        },
        Op::SwapRemoveBack(i) => spec_swap_remove_back(s, i as int).1,
    }
}

/// The observable value an operation returns, when it returns one: the
/// removed element for the removing operations; the remaining operations
/// return nothing comparable.
pub open spec fn spec_deque_returned(s: Seq<u8>, op: Op) -> Option<Option<u8>> {
    match op {
        Op::PopBack => Some(
            if s.len() > 0 {
                Some(s.last())
            } else {
                None
            },
        ),
        Op::PopFront => Some(
            if s.len() > 0 {
                Some(s[0])
            } else {
                None
            },
        ),
        Op::Remove(i) => Some(
            if i < s.len() {
                Some(s[i as int])
            } else {
                None
            },
        ),
        Op::SwapRemoveBack(i) => Some(spec_swap_remove_back(s, i as int).0),
        _ => None,
    }
}

/// The model's contents after a whole operation sequence, starting from
/// `init`.
pub open spec fn spec_deque_fold(init: Seq<u8>, ops: Seq<Op>) -> Seq<u8>
    decreases ops.len(),
{
    if ops.len() == 0 {
        init
    } else {
        spec_deque_fold(spec_deque_step(init, ops.first()), ops.drop_first())
    }
}

/// Folding one more operation onto a sequence steps the folded state once.
pub proof fn lemma_deque_fold_push(init: Seq<u8>, ops: Seq<Op>, op: Op)
    ensures
        spec_deque_fold(init, ops.push(op)) == spec_deque_step(spec_deque_fold(init, ops), op),
    decreases ops.len(),
{
    if ops.len() == 0 {
        assert(ops.push(op).first() == op);
        assert(ops.push(op).drop_first() =~= Seq::<Op>::empty());
        assert(spec_deque_fold(init, ops.push(op)) == spec_deque_fold(
            spec_deque_step(init, op),
            Seq::<Op>::empty(),
        ));
    } else {
        assert(ops.push(op).first() == ops.first());
        assert(ops.push(op).drop_first() =~= ops.drop_first().push(op));
        lemma_deque_fold_push(spec_deque_step(init, ops.first()), ops.drop_first(), op);
    }
}

/// What the engine observed of the container under test around one
/// operation.  These are raw run-time readings; nothing about them is
/// assumed, everything about them is checked.
#[derive(Clone, Copy, Debug)]
pub struct DequeObs {
    /// The container's length before the operation.
    pub pre_len: usize,
    /// The container's capacity before the operation.
    pub pre_capacity: usize,
    /// The value the operation returned, for operations that return one.
    pub returned: Option<u8>,
    /// The container's length after the operation.
    pub post_len: usize,
    /// The container's capacity after the operation.
    pub post_capacity: usize,
    /// Whether the container reported itself empty after the operation.
    pub post_is_empty: bool,
    /// The container's front element after the operation, if any.
    pub post_front: Option<u8>,
    /// The container's back element after the operation, if any.
    pub post_back: Option<u8>,
}

/// Why a run was aborted.
#[derive(Clone, Copy, Debug)]
pub enum DequeFailureKind {
    /// Model and container under test returned different values for the same
    /// operation.
    Discrepancy {
        /// What the model returned.
        model: Option<u8>,
        /// What the container under test returned.
        sut: Option<u8>,
    },
    /// `Clear` left the container reporting a non-zero length.
    ClearLeftResidue,
    /// `Clear` changed the container's capacity.
    ClearChangedCapacity,
    /// `ShrinkToFit` changed the container's length.
    ShrinkChangedLength,
    /// `ShrinkToFit` increased the container's capacity.
    ShrinkGrewCapacity,
    /// The container's capacity fell below the model's length.
    CapacityBelowLength,
    /// Model and container under test disagreed about length.
    LengthMismatch,
    /// Model and container under test disagreed about emptiness.
    EmptinessMismatch,
    /// Model and container under test disagreed about the front element.
    FrontMismatch,
    /// Model and container under test disagreed about the back element.
    BackMismatch,
}

/// A reported failure: the operation, its position in the sequence, and what
/// went wrong.
#[derive(Clone, Copy, Debug)]
pub struct DequeFailure {
    /// The index of the offending operation.
    pub position: usize,
    /// The offending operation itself.
    pub op: Op,
    /// What went wrong.
    pub kind: DequeFailureKind,
}

/// The outcome of a run: how many operations were applied (a failing one
/// included), the first failure if any, and the ghost record of everything
/// observed of the container under test.
pub struct DequeReport {
    /// How many operations were applied.
    pub ops_run: usize,
    /// The first failure, or `None` for a passing run.
    pub failure: Option<DequeFailure>,
    /// One observation record per applied operation.
    pub obs: Ghost<Seq<DequeObs>>,
}

/// The front element the model would report.
pub open spec fn spec_front_of(s: Seq<u8>) -> Option<u8> {
    if s.len() > 0 {
        Some(s[0])
    } else {
        None
    }
}

/// The back element the model would report.
pub open spec fn spec_back_of(s: Seq<u8>) -> Option<u8> {
    if s.len() > 0 {
        Some(s.last())
    } else {
        None
    }
}

/// The verdict on one operation, as a pure function of the model state
/// before it and of everything observed of the container under test.  The
/// operation's own checks come first (in the order the invariants are
/// stated), then the joint invariants: capacity at least the model length,
/// agreement on length, emptiness, the front element and the back element.
pub open spec fn spec_deque_check(s_pre: Seq<u8>, op: Op, obs: DequeObs) -> Option<
    DequeFailureKind,
> {
    let s_post = spec_deque_step(s_pre, op);
    let op_fail = match op {
        Op::Clear => if obs.post_len != 0 {
            Some(DequeFailureKind::ClearLeftResidue)
        } else if obs.post_capacity != obs.pre_capacity {
            Some(DequeFailureKind::ClearChangedCapacity)
        } else {
            None
        },
        Op::ShrinkToFit => if obs.post_len != obs.pre_len {
            Some(DequeFailureKind::ShrinkChangedLength)
        } else if obs.post_capacity > obs.pre_capacity {
            Some(DequeFailureKind::ShrinkGrewCapacity)
        } else {
            None
        },
        _ => match spec_deque_returned(s_pre, op) {
            Some(expected) => if obs.returned != expected {
                Some(DequeFailureKind::Discrepancy { model: expected, sut: obs.returned })
            } else {
                None
            },
            None => None,
        },
    };
    if op_fail is Some {
        op_fail
    } else if obs.post_capacity < s_post.len() {
        Some(DequeFailureKind::CapacityBelowLength)
    } else if obs.post_len != s_post.len() {
        Some(DequeFailureKind::LengthMismatch)
    } else if obs.post_is_empty != (s_post.len() == 0) {
        Some(DequeFailureKind::EmptinessMismatch)
    } else if obs.post_front != spec_front_of(s_post) {
        Some(DequeFailureKind::FrontMismatch)
    } else if obs.post_back != spec_back_of(s_post) {
        Some(DequeFailureKind::BackMismatch)
    } else {
        None
    }
}

/// Exact equality of two optional values, decided in executable code.
fn option_u8_eq(a: Option<u8>, b: Option<u8>) -> (r: bool)
    ensures
        r == (a == b),
{
    match (a, b) {
        (None, None) => true,
        (Some(x), Some(y)) => x == y,
        _ => false,
    }
}

/// Apply one operation to both sides, gather the observations, and return
/// them with the verdict.  The model is advanced exactly as the
/// specification says; the verdict is exactly the specification's verdict on
/// what was observed.
fn deque_step(model: &mut PropVecDeque, sut: &mut VecDeque<u8>, op: Op) -> (r: (
    DequeObs,
    Option<DequeFailureKind>,
))
    ensures
        final(model)@ == spec_deque_step(old(model)@, op),
        r.1 == spec_deque_check(old(model)@, op, r.0),
{
    let pre_len: usize = sut.len();
    let pre_capacity: usize = deque_sut_capacity(sut);
    let mut returned: Option<u8> = None;
    let mut model_returned: Option<u8> = None;
    match op {
        Op::Clear => {
            sut.clear();
            model.clear();
        },
        Op::ShrinkToFit => {
            deque_sut_shrink_to_fit(sut);
        },
        Op::PushBack(t) => {
            sut.push_back(t);
            model.push_back(t);
        },
        Op::PopBack => {
            returned = sut.pop_back();
            model_returned = model.pop_back();
        },
        Op::PushFront(t) => {
            sut.push_front(t);
            model.push_front(t);
        },
        Op::PopFront => {
            returned = sut.pop_front();
            model_returned = model.pop_front();
        },
        Op::Insert(i, t) => {
            if i <= sut.len() {
                sut.insert(i, t);
            }
            if i <= model.len() {
                model.insert(i, t);
            }
        },
        Op::Remove(i) => {
            returned = sut.remove(i);
            model_returned = model.remove(i);
        },
        Op::SwapRemoveBack(i) => {
            returned = deque_sut_swap_remove_back(sut, i);
            model_returned = model.swap_remove_back(i);
        },
    }
    let post_len: usize = sut.len();
    let post_capacity: usize = deque_sut_capacity(sut);
    let post_is_empty: bool = deque_sut_is_empty(sut);
    let post_front: Option<u8> = deque_sut_front(sut);
    let post_back: Option<u8> = deque_sut_back(sut);
    let obs = DequeObs {
        pre_len,
        pre_capacity,
        returned,
        post_len,
        post_capacity,
        post_is_empty,
        post_front,
        post_back,
    };
    let op_fail: Option<DequeFailureKind> = match op {
        Op::Clear => {
            if post_len != 0 {
                Some(DequeFailureKind::ClearLeftResidue)
            } else if post_capacity != pre_capacity {
                Some(DequeFailureKind::ClearChangedCapacity)
            } else {
                None
            }
        },
        Op::ShrinkToFit => {
            if post_len != pre_len {
                Some(DequeFailureKind::ShrinkChangedLength)
            } else if post_capacity > pre_capacity {
                Some(DequeFailureKind::ShrinkGrewCapacity)
            } else {
                None
            }
        },
        Op::PopBack | Op::PopFront | Op::Remove(_) | Op::SwapRemoveBack(_) => {
            if !option_u8_eq(model_returned, returned) {
                Some(DequeFailureKind::Discrepancy { model: model_returned, sut: returned })
            } else {
                None
            }
        },
        _ => None,
    };
    let model_len: usize = model.len();
    let model_front: Option<u8> = match model.front() {
        Some(v) => Some(*v),
        None => None,
    };
    let model_back: Option<u8> = match model.back() {
        Some(v) => Some(*v),
        None => None,
    };
    let fail: Option<DequeFailureKind> = match op_fail {
        Some(f) => Some(f),
        None => {
            if post_capacity < model_len {
                Some(DequeFailureKind::CapacityBelowLength)
            } else if post_len != model_len {
                Some(DequeFailureKind::LengthMismatch)
            } else if post_is_empty != (model_len == 0) {
                Some(DequeFailureKind::EmptinessMismatch)
            } else if !option_u8_eq(post_front, model_front) {
                Some(DequeFailureKind::FrontMismatch)
            } else if !option_u8_eq(post_back, model_back) {
                Some(DequeFailureKind::BackMismatch)
            } else {
                None
            }
        },
    };
    (obs, fail)
}

/// Every operation before position `n` passed its checks.
pub open spec fn spec_deque_clean_prefix(ops: Seq<Op>, obs: Seq<DequeObs>, n: int) -> bool {
    forall|i: int|
        0 <= i < n ==> spec_deque_check(
            spec_deque_fold(Seq::empty(), ops.take(i)),
            ops[i],
            #[trigger] obs[i],
        ) is None
}

/// What a report certifies about the operation sequence it ran: one
/// observation record per applied operation; on a pass, every operation ran
/// and passed its checks; on a failure, every earlier operation passed, the
/// report pins the offending operation and its position, and the recorded
/// kind is exactly the specification's verdict on what was observed there.
pub open spec fn spec_deque_report_matches(ops: Seq<Op>, r: DequeReport) -> bool {
    &&& r.obs@.len() == r.ops_run
    &&& r.ops_run <= ops.len()
    &&& match r.failure {
        None => r.ops_run == ops.len() && spec_deque_clean_prefix(ops, r.obs@, ops.len() as int),
        Some(f) => {
            &&& r.ops_run == f.position + 1
            &&& f.position < ops.len()
            &&& f.op == ops[f.position as int]
            &&& spec_deque_clean_prefix(ops, r.obs@, f.position as int)
            &&& spec_deque_check(
                spec_deque_fold(Seq::empty(), ops.take(f.position as int)),
                f.op,
                r.obs@[f.position as int],
            ) == Some(f.kind)
        },
    }
}

/// The verdict is a function of the operations and the observations: two
/// reports over the same operation sequence that recorded the same
/// observations agree on how far they ran and on the failure, if any.
pub proof fn lemma_deque_run_deterministic(ops: Seq<Op>, r1: DequeReport, r2: DequeReport)
    requires
        spec_deque_report_matches(ops, r1),
        spec_deque_report_matches(ops, r2),
        r1.obs@ == r2.obs@,
    ensures
        r1.ops_run == r2.ops_run,
        r1.failure == r2.failure,
{
    match (r1.failure, r2.failure) {
        (None, None) => {},
        (None, Some(f2)) => {
            assert(spec_deque_check(
                spec_deque_fold(Seq::empty(), ops.take(f2.position as int)),
                ops[f2.position as int],
                r1.obs@[f2.position as int],
            ) is None);
        },
        (Some(f1), None) => {
            assert(spec_deque_check(
                spec_deque_fold(Seq::empty(), ops.take(f1.position as int)),
                ops[f1.position as int],
                r2.obs@[f1.position as int],
            ) is None);
        },
        (Some(f1), Some(f2)) => {
            assert(f1.position == f2.position);
        },
    }
}

/// A passing run certifies the joint invariants after every operation: the
/// observed capacity of the container under test is at least the model's
/// length, the observed length equals the model's length, and the observed
/// emptiness, front element and back element all agree with the model's.
pub proof fn lemma_deque_pass_certifies_invariants(ops: Seq<Op>, r: DequeReport)
    requires
        spec_deque_report_matches(ops, r),
        r.failure is None,
    ensures
        forall|i: int|
            0 <= i < ops.len() ==> {
                let model = spec_deque_fold(Seq::empty(), ops.take(i + 1));
                &&& (#[trigger] r.obs@[i]).post_capacity >= model.len()
                &&& r.obs@[i].post_len == model.len()
                &&& r.obs@[i].post_is_empty == (model.len() == 0)
                &&& r.obs@[i].post_front == spec_front_of(model)
                &&& r.obs@[i].post_back == spec_back_of(model)
            },
{
    assert forall|i: int| 0 <= i < ops.len() implies {
        let model = spec_deque_fold(Seq::empty(), ops.take(i + 1));
        &&& (#[trigger] r.obs@[i]).post_capacity >= model.len()
        &&& r.obs@[i].post_len == model.len()
        &&& r.obs@[i].post_is_empty == (model.len() == 0)
        &&& r.obs@[i].post_front == spec_front_of(model)
        &&& r.obs@[i].post_back == spec_back_of(model)
    } by {
        assert(spec_deque_check(spec_deque_fold(Seq::empty(), ops.take(i)), ops[i], r.obs@[i])
            is None);
        assert(ops.take(i + 1) =~= ops.take(i).push(ops[i]));
        lemma_deque_fold_push(Seq::empty(), ops.take(i), ops[i]);
    }
}

/// `Clear` is idempotent on the model and always leaves it with length
/// zero; clearing twice is the same as clearing once.
pub proof fn lemma_deque_clear_idempotent(s: Seq<u8>)
    ensures
        spec_deque_step(s, Op::Clear).len() == 0,
        spec_deque_step(spec_deque_step(s, Op::Clear), Op::Clear) == spec_deque_step(s, Op::Clear),
{
}

/// In a passing run, every `Clear` left both sides at length zero and left
/// the capacity of the container under test unchanged.
pub proof fn lemma_deque_clear_certified(ops: Seq<Op>, r: DequeReport, i: int)
    requires
        spec_deque_report_matches(ops, r),
        r.failure is None,
        0 <= i < ops.len(),
        ops[i] is Clear,
    ensures
        spec_deque_fold(Seq::empty(), ops.take(i + 1)).len() == 0,
        r.obs@[i].post_len == 0,
        r.obs@[i].post_capacity == r.obs@[i].pre_capacity,
{
    assert(spec_deque_check(spec_deque_fold(Seq::empty(), ops.take(i)), ops[i], r.obs@[i])
        is None);
    assert(ops.take(i + 1) =~= ops.take(i).push(ops[i]));
    lemma_deque_fold_push(Seq::empty(), ops.take(i), ops[i]);
}

/// In a passing run, every `ShrinkToFit` left the length of the container
/// under test unchanged and never increased its capacity; the model is
/// untouched by it.
pub proof fn lemma_deque_shrink_certified(ops: Seq<Op>, r: DequeReport, i: int)
    requires
        spec_deque_report_matches(ops, r),
        r.failure is None,
        0 <= i < ops.len(),
        ops[i] is ShrinkToFit,
    ensures
        r.obs@[i].post_len == r.obs@[i].pre_len,
        r.obs@[i].post_capacity <= r.obs@[i].pre_capacity,
        spec_deque_fold(Seq::empty(), ops.take(i + 1)) == spec_deque_fold(Seq::empty(), ops.take(i)),
{
    assert(spec_deque_check(spec_deque_fold(Seq::empty(), ops.take(i)), ops[i], r.obs@[i])
        is None);
    assert(ops.take(i + 1) =~= ops.take(i).push(ops[i]));
    lemma_deque_fold_push(Seq::empty(), ops.take(i), ops[i]);
}

/// Pushing at the back and then at the front leaves the pushed values as
/// the back and front elements; popping them in front-then-back order
/// returns them and drains the model.
pub proof fn lemma_deque_push_pop_round_trip(s: Seq<u8>, back_value: u8, front_value: u8)
    ensures
        ({
            let pushed = spec_deque_step(spec_deque_step(s, Op::PushBack(back_value)),
                Op::PushFront(front_value));
            &&& spec_deque_returned(pushed, Op::PopFront) == Some(Some(front_value))
            &&& spec_deque_returned(spec_deque_step(pushed, Op::PopFront), Op::PopBack) == Some(
                Some(back_value),
            )
            &&& spec_deque_step(spec_deque_step(pushed, Op::PopFront), Op::PopBack) == s
        }),
{
    let pushed = spec_deque_step(spec_deque_step(s, Op::PushBack(back_value)),
        Op::PushFront(front_value));
    assert(pushed =~= seq![front_value] + s.push(back_value));
    assert(spec_deque_step(pushed, Op::PopFront) =~= s.push(back_value));
    assert(spec_deque_step(spec_deque_step(pushed, Op::PopFront), Op::PopBack) =~= s);
}

/// Replay a predetermined operation list against a fresh model and a fresh
/// container under test, pre-sized with the given capacity hint.  The run
/// stops at the first failure.
pub fn run_deque_ops(ops: &Vec<Op>, capacity: u8) -> (r: DequeReport)
    ensures
        spec_deque_report_matches(ops@, r),
{
    let mut model = PropVecDeque::new();
    let mut sut: VecDeque<u8> = VecDeque::with_capacity(capacity as usize);
    let mut obs: Ghost<Seq<DequeObs>> = Ghost(Seq::empty());
    let mut i: usize = 0;
    proof {
        assert(ops@.take(0) =~= Seq::<Op>::empty());
    }
    while i < ops.len()
        invariant
            i <= ops@.len(),
            model@ == spec_deque_fold(Seq::empty(), ops@.take(i as int)),
            obs@.len() == i,
            spec_deque_clean_prefix(ops@, obs@, i as int),
        decreases ops@.len() - i,
    {
        let op = ops[i];
        let ghost pre_obs = obs@;
        let (o, fail) = deque_step(&mut model, &mut sut, op);
        obs = Ghost(obs@.push(o));
        proof {
            assert(ops@.take(i + 1) =~= ops@.take(i as int).push(op));
            lemma_deque_fold_push(Seq::empty(), ops@.take(i as int), op);
            assert forall|j: int| 0 <= j < i implies spec_deque_check(
                spec_deque_fold(Seq::empty(), ops@.take(j)),
                ops@[j],
                #[trigger] obs@[j],
            ) is None by {
                assert(obs@[j] == pre_obs[j]);
            }
        }
        match fail {
            Some(kind) => {
                return DequeReport {
                    ops_run: i + 1,
                    failure: Some(DequeFailure { position: i, op, kind }),
                    obs,
                };
            },
            None => {},
        }
        i = i + 1;
    }
    DequeReport { ops_run: i, failure: None, obs }
}

/// A bounded stream cannot yield more operations than it has bytes left:
/// every operation consumes at least the discriminant byte.
pub proof fn lemma_deque_ops_len_bound(s: StreamModel)
    requires
        stream_wf(s),
        !s.cyclic,
    ensures
        spec_decode_deque_ops(s).len() <= s.limit - s.cursor,
    decreases s.limit - s.cursor,
{
    lemma_deque_decode_progress(s);
    match spec_decode_op(s) {
        (None, _) => {},
        (Some(op), s2) => {
            lemma_deque_ops_len_bound(s2);
        },
    }
}

/// Decode operations from a bounded stream and apply each immediately, until
/// the stream exhausts or a failure aborts the run.  The report certifies
/// the verdict on exactly the operations the stream yields.
pub fn run_deque_stream(stream: &mut ByteStream, capacity: u8) -> (r: DequeReport)
    requires
        stream_wf(old(stream)@),
        !old(stream)@.cyclic,
    ensures
        stream_wf(final(stream)@),
        spec_deque_report_matches(spec_decode_deque_ops(old(stream)@), r),
{
    let ghost ops = spec_decode_deque_ops(old(stream)@);
    let mut model = PropVecDeque::new();
    let mut sut: VecDeque<u8> = VecDeque::with_capacity(capacity as usize);
    let mut obs: Ghost<Seq<DequeObs>> = Ghost(Seq::empty());
    let mut i: usize = 0;
    proof {
        assert(ops.take(0) =~= Seq::<Op>::empty());
        assert(ops.skip(0) =~= ops);
        lemma_deque_ops_len_bound(old(stream)@);
    }
    loop
        invariant
            stream_wf(old(stream)@),
            !old(stream)@.cyclic,
            ops == spec_decode_deque_ops(old(stream)@),
            stream_wf(stream@),
            !stream@.cyclic,
            i <= ops.len(),
            ops.len() <= usize::MAX,
            spec_decode_deque_ops(stream@) == ops.skip(i as int),
            model@ == spec_deque_fold(Seq::empty(), ops.take(i as int)),
            obs@.len() == i,
            spec_deque_clean_prefix(ops, obs@, i as int),
        decreases stream@.limit - stream@.cursor,
    {
        let ghost s_pre = stream@;
        match Op::decode(stream) {
            None => {
                proof {
                    assert(ops.skip(i as int) =~= Seq::<Op>::empty());
                    assert(i == ops.len());
                    assert(ops.take(i as int) =~= ops);
                }
                return DequeReport { ops_run: i, failure: None, obs };
            },
            Some(op) => {
                proof {
                    lemma_deque_decode_progress(s_pre);
                    assert(ops.skip(i as int).first() == op);
                    assert(ops[i as int] == op);
                    assert(ops.skip(i as int).drop_first() =~= ops.skip(i + 1));
                }
                let ghost pre_obs = obs@;
                let (o, fail) = deque_step(&mut model, &mut sut, op);
                obs = Ghost(obs@.push(o));
                proof {
                    assert(ops.take(i + 1) =~= ops.take(i as int).push(op));
                    lemma_deque_fold_push(Seq::empty(), ops.take(i as int), op);
                    assert forall|j: int| 0 <= j < i implies spec_deque_check(
                        spec_deque_fold(Seq::empty(), ops.take(j)),
                        ops[j],
                        #[trigger] obs@[j],
                    ) is None by {
                        assert(obs@[j] == pre_obs[j]);
                    }
                }
                match fail {
                    Some(kind) => {
                        return DequeReport {
                            ops_run: i + 1,
                            failure: Some(DequeFailure { position: i, op, kind }),
                            obs,
                        };
                    },
                    None => {},
                }
                i = i + 1;
            },
        }
    }
}

/// Reading a run's header from the stream: the capacity hint, one byte wide
/// on purpose so that requested capacities stay within an allocatable range.
/// A deque needs no hash seed.
pub open spec fn spec_deque_run_header(s: StreamModel) -> Option<(u8, StreamModel)> {
    match stream_read_byte(s) {
        (None, _) => None,
        (Some(cap), s1) => Some((cap, s1)),
    }
}

/// A whole streaming run from one opaque byte buffer: read the capacity
/// hint, then decode and apply operations until the buffer's budget is
/// exhausted.  `None` means the buffer was too short for the header, which
/// ends the run cleanly before anything was built.
pub fn run_deque_buffer(data: Vec<u8>, max_bytes: usize) -> (r: Option<DequeReport>)
    ensures
        ({
            let s0 = spec_bounded_stream(data@, max_bytes);
            match spec_deque_run_header(s0) {
                None => r is None,
                Some((cap, s1)) => (r matches Some(report) && spec_deque_report_matches(
                    spec_decode_deque_ops(s1),
                    report,
                )),
            }
        }),
{
    let mut stream = ByteStream::new_bounded(data, max_bytes);
    let capacity = match stream.next_byte() {
        None => {
            return None;
        },
        Some(b) => b,
    };
    Some(run_deque_stream(&mut stream, capacity))
}

} // verus!
