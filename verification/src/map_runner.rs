//! Differential execution for map-like targets.
//!
//! Each decoded operation is applied to the reference model and to the
//! container under test; returned values are compared, and a fixed set of
//! structural invariants is evaluated after every operation.  The verdict is
//! a pure function of the operation sequence and of what was observed of the
//! container under test, so replaying the same input reproduces the same
//! verdict.

use vstd::prelude::*;

use crate::hash_map::Op;
use crate::hash_map::PropHashMap;
use crate::hash_map::lemma_map_decode_progress;
use crate::hash_map::spec_decode_map_ops;
use crate::hash_map::spec_decode_map_ops_n;
use crate::hash_map::spec_decode_op;
use crate::hasher::BuildTrulyAwfulHasher;
use crate::sut::map_sut_capacity;
use crate::sut::map_sut_new;
use crate::stream::ByteStream;
use crate::stream::StreamModel;
use crate::stream::spec_bounded_stream;
use crate::stream::spec_cyclic_stream;
use crate::stream::stream_read_byte;
use crate::stream::stream_wf;
use crate::sut::map_sut_shrink_to_fit;
use std::collections::HashMap;

verus! {

/// How one operation transforms the model's logical contents.
pub open spec fn spec_map_step(m: Map<u16, u16>, op: Op) -> Map<u16, u16> {
    match op {
        Op::ShrinkToFit => m,
        Op::Clear => Map::empty(),
        Op::Reserve { .. } => m,
        Op::Insert { k, v } => m.insert(k, v),
        Op::Remove { k } => m.remove(k),
        Op::Get { .. } => m,
    }
}

/// The observable value an operation returns, when it returns one: the
/// previous value for `Insert`, the removed value for `Remove`, the found
/// value for `Get`; the remaining operations return nothing comparable.
pub open spec fn spec_map_returned(m: Map<u16, u16>, op: Op) -> Option<Option<u16>> {
    match op {
        Op::Insert { k, .. } | Op::Remove { k } | Op::Get { k } => Some(
            if m.contains_key(k) {
                Some(m[k])
            } else {
                None
            },
        ),
        _ => None,
    }
}

/// The model's contents after a whole operation sequence, starting from
/// `init`.
pub open spec fn spec_map_fold(init: Map<u16, u16>, ops: Seq<Op>) -> Map<u16, u16>
    decreases ops.len(),
{
    if ops.len() == 0 {
        init
    } else {
        spec_map_fold(spec_map_step(init, ops.first()), ops.drop_first())
    }
}

/// Folding one more operation onto a sequence steps the folded state once.
pub proof fn lemma_map_fold_push(init: Map<u16, u16>, ops: Seq<Op>, op: Op)
    ensures
        spec_map_fold(init, ops.push(op)) == spec_map_step(spec_map_fold(init, ops), op),
    decreases ops.len(),
{
    if ops.len() == 0 {
        assert(ops.push(op).first() == op);
        assert(ops.push(op).drop_first() =~= Seq::<Op>::empty());
        assert(spec_map_fold(init, ops.push(op)) == spec_map_fold(
            spec_map_step(init, op),
            Seq::<Op>::empty(),
        ));
    } else {
        assert(ops.push(op).first() == ops.first());
        assert(ops.push(op).drop_first() =~= ops.drop_first().push(op));
        lemma_map_fold_push(spec_map_step(init, ops.first()), ops.drop_first(), op);
    }
}

/// What the engine observed of the container under test around one
/// operation.  These are raw run-time readings; nothing about them is
/// assumed, everything about them is checked.
#[derive(Clone, Copy, Debug)]
pub struct MapObs {
    /// The container's length before the operation.
    pub pre_len: usize,
    /// The container's capacity before the operation.
    pub pre_capacity: usize,
    /// The value the operation returned, for operations that return one.
    pub returned: Option<u16>,
    /// The container's length after the operation.
    pub post_len: usize,
    /// The container's capacity after the operation.
    pub post_capacity: usize,
    /// Whether the container reported itself empty after the operation.
    pub post_is_empty: bool,
}

/// Why a run was aborted.
#[derive(Clone, Copy, Debug)]
pub enum MapFailureKind {
    /// Model and container under test returned different values for the same
    /// operation.
    Discrepancy {
        /// What the model returned.
        model: Option<u16>,
        /// What the container under test returned.
        sut: Option<u16>,
    },
    /// `Clear` left the container reporting a non-zero length.
    ClearLeftResidue,
    /// `Clear` changed the container's capacity.
    ClearChangedCapacity,
    /// `ShrinkToFit` changed the container's length.
    ShrinkChangedLength,
    /// `ShrinkToFit` increased the container's capacity.
    ShrinkGrewCapacity,
    /// A `Reserve` skipped for overflow still changed the capacity.
    SkippedReserveChangedCapacity,
    /// The container's capacity fell below the model's length.
    CapacityBelowLength,
    /// Model and container under test disagreed about emptiness.
    EmptinessMismatch,
    /// Model and container under test disagreed about length.
    LengthMismatch,
}

/// A reported failure: the operation, its position in the sequence, and what
/// went wrong.
#[derive(Clone, Copy, Debug)]
pub struct MapFailure {
    /// The index of the offending operation.
    pub position: usize,
    /// The offending operation itself.
    pub op: Op,
    /// What went wrong.
    pub kind: MapFailureKind,
}

/// The outcome of a run: how many operations were applied (a failing one
/// included), the first failure if any, and the ghost record of everything
/// observed of the container under test.
pub struct MapReport {
    /// How many operations were applied.
    pub ops_run: usize,
    /// The first failure, or `None` for a passing run.
    pub failure: Option<MapFailure>,
    /// One observation record per applied operation.
    pub obs: Ghost<Seq<MapObs>>,
}

/// Whether a `Reserve` of `n` more entries on top of the observed capacity
/// would overflow the capacity representation; such a request is skipped on
/// both sides.
pub open spec fn spec_reserve_overflows(pre_capacity: usize, n: usize) -> bool {
    pre_capacity + n > usize::MAX
}

/// The verdict on one operation, as a pure function of the model state
/// before it and of everything observed of the container under test.  The
/// operation's own checks come first (in the order the invariants are
/// stated), then the joint invariants: capacity at least the model length,
/// agreement on emptiness, agreement on length.
pub open spec fn spec_map_check(m_pre: Map<u16, u16>, op: Op, obs: MapObs) -> Option<
    MapFailureKind,
> {
    let m_post = spec_map_step(m_pre, op);
    let model_len = m_post.dom().len();
    let op_fail = match op {
        Op::Clear => if obs.post_len != 0 {
            Some(MapFailureKind::ClearLeftResidue)
        } else if obs.post_capacity != obs.pre_capacity {
            Some(MapFailureKind::ClearChangedCapacity)
        } else {
            None
        },
        Op::ShrinkToFit => if obs.post_len != obs.pre_len {
            Some(MapFailureKind::ShrinkChangedLength)
        } else if obs.post_capacity > obs.pre_capacity {
            Some(MapFailureKind::ShrinkGrewCapacity)
        } else {
            None
        },
        Op::Reserve { n } => if spec_reserve_overflows(obs.pre_capacity, n) && obs.post_capacity
            != obs.pre_capacity {
            Some(MapFailureKind::SkippedReserveChangedCapacity)
        } else {
            None
        },
        _ => match spec_map_returned(m_pre, op) {
            Some(expected) => if obs.returned != expected {
                Some(MapFailureKind::Discrepancy { model: expected, sut: obs.returned })
            } else {
                None
            },
            None => None,
        },
    };
    if op_fail is Some {
        op_fail
    } else if obs.post_capacity < model_len {
        Some(MapFailureKind::CapacityBelowLength)
    } else if obs.post_is_empty != (model_len == 0) {
        Some(MapFailureKind::EmptinessMismatch)
    } else if obs.post_len != model_len {
        Some(MapFailureKind::LengthMismatch)
    } else {
        None
    }
}

/// Exact equality of two optional values, decided in executable code.
fn option_u16_eq(a: Option<u16>, b: Option<u16>) -> (r: bool)
    ensures
        r == (a == b),
{
    match (a, b) {
        (None, None) => true,
        (Some(x), Some(y)) => x == y,
        _ => false,
    }
}

/// Apply one operation to both sides, gather the observations, and return
/// them with the verdict.  The model is advanced exactly as the
/// specification says; the verdict is exactly the specification's verdict on
/// what was observed.
fn map_step(
    model: &mut PropHashMap,
    sut: &mut HashMap<u16, u16, BuildTrulyAwfulHasher>,
    op: Op,
) -> (r: (MapObs, Option<MapFailureKind>))
    requires
        old(model).wf(),
    ensures
        final(model).wf(),
        final(model)@ == spec_map_step(old(model)@, op),
        r.1 == spec_map_check(old(model)@, op, r.0),
{
    let pre_len: usize = sut.len();
    let pre_capacity: usize = map_sut_capacity(sut);
    let mut returned: Option<u16> = None;
    let mut model_returned: Option<u16> = None;
    match op {
        Op::Clear => {
            sut.clear();
            model.clear();
        },
        Op::ShrinkToFit => {
            map_sut_shrink_to_fit(sut);
        },
        Op::Reserve { n } => {
            if n <= usize::MAX - pre_capacity {
                sut.reserve(n);
            }
        },
        Op::Insert { k, v } => {
            model_returned = model.insert(k, v);
            returned = sut.insert(k, v);
        },
        Op::Remove { k } => {
            model_returned = model.remove(&k);
            returned = sut.remove(&k);
        },
        Op::Get { k } => {
            model_returned = match model.get(&k) {
                Some(v) => Some(*v),
                None => None,
            };
            returned = match sut.get(&k) {
                Some(v) => Some(*v),
                None => None,
            };
        },
    }
    let post_len: usize = sut.len();
    let post_capacity: usize = map_sut_capacity(sut);
    let post_is_empty: bool = sut.is_empty();
    let obs = MapObs { pre_len, pre_capacity, returned, post_len, post_capacity, post_is_empty };
    let op_fail: Option<MapFailureKind> = match op {
        Op::Clear => {
            if post_len != 0 {
                Some(MapFailureKind::ClearLeftResidue)
            } else if post_capacity != pre_capacity {
                Some(MapFailureKind::ClearChangedCapacity)
            } else {
                None
            }
        },
        Op::ShrinkToFit => {
            if post_len != pre_len {
                Some(MapFailureKind::ShrinkChangedLength)
            } else if post_capacity > pre_capacity {
                Some(MapFailureKind::ShrinkGrewCapacity)
            } else {
                None
            }
        },
        Op::Reserve { n } => {
            if n > usize::MAX - pre_capacity && post_capacity != pre_capacity {
                Some(MapFailureKind::SkippedReserveChangedCapacity)
            } else {
                None
            }
        },
        Op::Insert { .. } | Op::Remove { .. } | Op::Get { .. } => {
            if !option_u16_eq(model_returned, returned) {
                Some(MapFailureKind::Discrepancy { model: model_returned, sut: returned })
            } else {
                None
            }
        },
    };
    let model_len: usize = model.len();
    let fail: Option<MapFailureKind> = match op_fail {
        Some(f) => Some(f),
        None => {
            if post_capacity < model_len {
                Some(MapFailureKind::CapacityBelowLength)
            } else if post_is_empty != (model_len == 0) {
                Some(MapFailureKind::EmptinessMismatch)
            } else if post_len != model_len {
                Some(MapFailureKind::LengthMismatch)
            } else {
                None
            }
        },
    };
    (obs, fail)
}

/// Every operation before position `n` passed its checks.
pub open spec fn spec_map_clean_prefix(ops: Seq<Op>, obs: Seq<MapObs>, n: int) -> bool {
    forall|i: int|
        0 <= i < n ==> spec_map_check(
            spec_map_fold(Map::empty(), ops.take(i)),
            ops[i],
            #[trigger] obs[i],
        ) is None
}

/// What a report certifies about the operation sequence it ran: one
/// observation record per applied operation; on a pass, every operation ran
/// and passed its checks; on a failure, every earlier operation passed, the
/// report pins the offending operation and its position, and the recorded
/// kind is exactly the specification's verdict on what was observed there.
pub open spec fn spec_map_report_matches(ops: Seq<Op>, r: MapReport) -> bool {
    &&& r.obs@.len() == r.ops_run
    &&& r.ops_run <= ops.len()
    &&& match r.failure {
        None => r.ops_run == ops.len() && spec_map_clean_prefix(ops, r.obs@, ops.len() as int),
        Some(f) => {
            &&& r.ops_run == f.position + 1
            &&& f.position < ops.len()
            &&& f.op == ops[f.position as int]
            &&& spec_map_clean_prefix(ops, r.obs@, f.position as int)
            &&& spec_map_check(
                spec_map_fold(Map::empty(), ops.take(f.position as int)),
                f.op,
                r.obs@[f.position as int],
            ) == Some(f.kind)
        },
    }
}

/// The verdict is a function of the operations and the observations: two
/// reports over the same operation sequence that recorded the same
/// observations agree on how far they ran and on the failure, if any.
pub proof fn lemma_map_run_deterministic(ops: Seq<Op>, r1: MapReport, r2: MapReport)
    requires
        spec_map_report_matches(ops, r1),
        spec_map_report_matches(ops, r2),
        r1.obs@ == r2.obs@,
    ensures
        r1.ops_run == r2.ops_run,
        r1.failure == r2.failure,
{
    match (r1.failure, r2.failure) {
        (None, None) => {},
        (None, Some(f2)) => {
            assert(spec_map_check(
                spec_map_fold(Map::empty(), ops.take(f2.position as int)),
                ops[f2.position as int],
                r1.obs@[f2.position as int],
            ) is None);
        },
        (Some(f1), None) => {
            assert(spec_map_check(
                spec_map_fold(Map::empty(), ops.take(f1.position as int)),
                ops[f1.position as int],
                r2.obs@[f1.position as int],
            ) is None);
        },
        (Some(f1), Some(f2)) => {
            assert(f1.position == f2.position);
        },
    }
}

/// A passing run certifies the joint invariants after every operation: the
/// observed capacity of the container under test is at least the model's
/// length, the observed length equals the model's length, and the observed
/// emptiness agrees with the model's.
pub proof fn lemma_map_pass_certifies_invariants(ops: Seq<Op>, r: MapReport)
    requires
        spec_map_report_matches(ops, r),
        r.failure is None,
    ensures
        forall|i: int|
            0 <= i < ops.len() ==> {
                let model = spec_map_fold(Map::empty(), ops.take(i + 1));
                &&& (#[trigger] r.obs@[i]).post_capacity >= model.dom().len()
                &&& r.obs@[i].post_len == model.dom().len()
                &&& r.obs@[i].post_is_empty == (model.dom().len() == 0)
            },
{
    assert forall|i: int| 0 <= i < ops.len() implies {
        let model = spec_map_fold(Map::empty(), ops.take(i + 1));
        &&& (#[trigger] r.obs@[i]).post_capacity >= model.dom().len()
        &&& r.obs@[i].post_len == model.dom().len()
        &&& r.obs@[i].post_is_empty == (model.dom().len() == 0)
    } by {
        assert(spec_map_check(spec_map_fold(Map::empty(), ops.take(i)), ops[i], r.obs@[i])
            is None);
        assert(ops.take(i + 1) =~= ops.take(i).push(ops[i]));
        lemma_map_fold_push(Map::empty(), ops.take(i), ops[i]);
    }
}

/// `Clear` is idempotent on the model and always leaves it with length zero;
/// clearing twice is the same as clearing once.
pub proof fn lemma_map_clear_idempotent(m: Map<u16, u16>)
    ensures
        spec_map_step(m, Op::Clear).dom().len() == 0,
        spec_map_step(spec_map_step(m, Op::Clear), Op::Clear) == spec_map_step(m, Op::Clear),
{
    assert(Map::<u16, u16>::empty().dom() =~= Set::<u16>::empty());
}

/// In a passing run, every `Clear` left both sides at length zero and left
/// the capacity of the container under test unchanged.
pub proof fn lemma_map_clear_certified(ops: Seq<Op>, r: MapReport, i: int)
    requires
        spec_map_report_matches(ops, r),
        r.failure is None,
        0 <= i < ops.len(),
        ops[i] is Clear,
    ensures
        spec_map_fold(Map::empty(), ops.take(i + 1)).dom().len() == 0,
        r.obs@[i].post_len == 0,
        r.obs@[i].post_capacity == r.obs@[i].pre_capacity,
{
    assert(spec_map_check(spec_map_fold(Map::empty(), ops.take(i)), ops[i], r.obs@[i]) is None);
    assert(ops.take(i + 1) =~= ops.take(i).push(ops[i]));
    lemma_map_fold_push(Map::empty(), ops.take(i), ops[i]);
    lemma_map_clear_idempotent(spec_map_fold(Map::empty(), ops.take(i)));
}

/// In a passing run, every `ShrinkToFit` left the length of the container
/// under test unchanged and never increased its capacity; the model is
/// untouched by it.
pub proof fn lemma_map_shrink_certified(ops: Seq<Op>, r: MapReport, i: int)
    requires
        spec_map_report_matches(ops, r),
        r.failure is None,
        0 <= i < ops.len(),
        ops[i] is ShrinkToFit,
    ensures
        r.obs@[i].post_len == r.obs@[i].pre_len,
        r.obs@[i].post_capacity <= r.obs@[i].pre_capacity,
        spec_map_fold(Map::empty(), ops.take(i + 1)) == spec_map_fold(Map::empty(), ops.take(i)),
{
    assert(spec_map_check(spec_map_fold(Map::empty(), ops.take(i)), ops[i], r.obs@[i]) is None);
    assert(ops.take(i + 1) =~= ops.take(i).push(ops[i]));
    lemma_map_fold_push(Map::empty(), ops.take(i), ops[i]);
}

/// In a passing run, every `Reserve` whose request would overflow the
/// capacity representation was skipped and left the capacity of the
/// container under test unchanged; the model never has a `Reserve` effect.
pub proof fn lemma_map_overflowing_reserve_certified(ops: Seq<Op>, r: MapReport, i: int, n: usize)
    requires
        spec_map_report_matches(ops, r),
        r.failure is None,
        0 <= i < ops.len(),
        ops[i] == (Op::Reserve { n }),
        spec_reserve_overflows(r.obs@[i].pre_capacity, n),
    ensures
        r.obs@[i].post_capacity == r.obs@[i].pre_capacity,
        spec_map_fold(Map::empty(), ops.take(i + 1)) == spec_map_fold(Map::empty(), ops.take(i)),
{
    assert(spec_map_check(spec_map_fold(Map::empty(), ops.take(i)), ops[i], r.obs@[i]) is None);
    assert(ops.take(i + 1) =~= ops.take(i).push(ops[i]));
    lemma_map_fold_push(Map::empty(), ops.take(i), ops[i]);
}

/// Inserting a pair returns the previous value exactly when the key was
/// already present, and a lookup right after the insert returns the value
/// just inserted.
pub proof fn lemma_map_insert_then_get(m: Map<u16, u16>, k: u16, v: u16)
    ensures
        spec_map_returned(m, Op::Insert { k, v }) == Some(
            if m.contains_key(k) {
                Some(m[k])
            } else {
                None::<u16>
            },
        ),
        spec_map_step(m, Op::Insert { k, v }).contains_key(k),
        spec_map_step(m, Op::Insert { k, v })[k] == v,
        spec_map_returned(spec_map_step(m, Op::Insert { k, v }), Op::Get { k }) == Some(
            Some(v),
        ),
{
}

/// Replay a predetermined operation list against a fresh model and a fresh
/// container under test, configured with the given hash seed and capacity
/// hint.  The run stops at the first failure.  A passing run certifies that
/// every operation passed every check; a failing report pins down the
/// offending operation, its position, and the verdict on what was observed
/// there.
pub fn run_map_ops(ops: &Vec<Op>, hash_seed: u8, capacity: u8) -> (r: MapReport)
    ensures
        spec_map_report_matches(ops@, r),
{
    let mut model = PropHashMap::new();
    let mut sut = map_sut_new(capacity as usize, BuildTrulyAwfulHasher::new(hash_seed));
    let mut obs: Ghost<Seq<MapObs>> = Ghost(Seq::empty());
    let mut i: usize = 0;
    proof {
        assert(ops@.take(0) =~= Seq::<Op>::empty());
    }
    while i < ops.len()
        invariant
            i <= ops@.len(),
            model.wf(),
            model@ == spec_map_fold(Map::empty(), ops@.take(i as int)),
            obs@.len() == i,
            spec_map_clean_prefix(ops@, obs@, i as int),
        decreases ops@.len() - i,
    {
        let op = ops[i];
        let ghost pre_obs = obs@;
        let (o, fail) = map_step(&mut model, &mut sut, op);
        obs = Ghost(obs@.push(o));
        proof {
            assert(ops@.take(i + 1) =~= ops@.take(i as int).push(op));
            lemma_map_fold_push(Map::empty(), ops@.take(i as int), op);
            assert forall|j: int| 0 <= j < i implies spec_map_check(
                spec_map_fold(Map::empty(), ops@.take(j)),
                ops@[j],
                #[trigger] obs@[j],
            ) is None by {
                assert(obs@[j] == pre_obs[j]);
            }
        }
        match fail {
            Some(kind) => {
                return MapReport {
                    ops_run: i + 1,
                    failure: Some(MapFailure { position: i, op, kind }),
                    obs,
                };
            },
            None => {},
        }
        i = i + 1;
    }
    MapReport { ops_run: i, failure: None, obs }
}

/// A bounded stream cannot yield more operations than it has bytes left:
/// every operation consumes at least the discriminant byte.
pub proof fn lemma_map_ops_len_bound(s: StreamModel)
    requires
        stream_wf(s),
        !s.cyclic,
    ensures
        spec_decode_map_ops(s).len() <= s.limit - s.cursor,
    decreases s.limit - s.cursor,
{
    lemma_map_decode_progress(s);
    match spec_decode_op(s) {
        (None, _) => {},
        (Some(op), s2) => {
            lemma_map_ops_len_bound(s2);
        },
    }
}

/// Decode operations from a bounded stream and apply each immediately, until
/// the stream exhausts or a failure aborts the run.  The report certifies
/// the verdict on exactly the operations the stream yields.
pub fn run_map_stream(stream: &mut ByteStream, hash_seed: u8, capacity: u8) -> (r: MapReport)
    requires
        stream_wf(old(stream)@),
        !old(stream)@.cyclic,
    ensures
        stream_wf(final(stream)@),
        spec_map_report_matches(spec_decode_map_ops(old(stream)@), r),
{
    let ghost ops = spec_decode_map_ops(old(stream)@);
    let mut model = PropHashMap::new();
    let mut sut = map_sut_new(capacity as usize, BuildTrulyAwfulHasher::new(hash_seed));
    let mut obs: Ghost<Seq<MapObs>> = Ghost(Seq::empty());
    let mut i: usize = 0;
    proof {
        assert(ops.take(0) =~= Seq::<Op>::empty());
        assert(ops.skip(0) =~= ops);
        lemma_map_ops_len_bound(old(stream)@);
    }
    loop
        invariant
            stream_wf(old(stream)@),
            !old(stream)@.cyclic,
            ops == spec_decode_map_ops(old(stream)@),
            stream_wf(stream@),
            !stream@.cyclic,
            i <= ops.len(),
            ops.len() <= usize::MAX,
            spec_decode_map_ops(stream@) == ops.skip(i as int),
            model.wf(),
            model@ == spec_map_fold(Map::empty(), ops.take(i as int)),
            obs@.len() == i,
            spec_map_clean_prefix(ops, obs@, i as int),
        decreases stream@.limit - stream@.cursor,
    {
        let ghost s_pre = stream@;
        match Op::decode(stream) {
            None => {
                proof {
                    assert(ops.skip(i as int) =~= Seq::<Op>::empty());
                    assert(i == ops.len());
                    assert(ops.take(i as int) =~= ops);
                }
                return MapReport { ops_run: i, failure: None, obs };
            },
            Some(op) => {
                proof {
                    lemma_map_decode_progress(s_pre);
                    assert(ops.skip(i as int).first() == op);
                    assert(ops[i as int] == op);
                    assert(ops.skip(i as int).drop_first() =~= ops.skip(i + 1));
                }
                let ghost pre_obs = obs@;
                let (o, fail) = map_step(&mut model, &mut sut, op);
                obs = Ghost(obs@.push(o));
                proof {
                    assert(ops.take(i + 1) =~= ops.take(i as int).push(op));
                    lemma_map_fold_push(Map::empty(), ops.take(i as int), op);
                    assert forall|j: int| 0 <= j < i implies spec_map_check(
                        spec_map_fold(Map::empty(), ops.take(j)),
                        ops[j],
                        #[trigger] obs@[j],
                    ) is None by {
                        assert(obs@[j] == pre_obs[j]);
                    }
                }
                match fail {
                    Some(kind) => {
                        return MapReport {
                            ops_run: i + 1,
                            failure: Some(MapFailure { position: i, op, kind }),
                            obs,
                        };
                    },
                    None => {},
                }
                i = i + 1;
            },
        }
    }
}

/// Decode up to `count` operations upfront (fewer only if the stream
/// exhausts first), for the fixed-count execution shape.
pub fn decode_map_ops(stream: &mut ByteStream, count: u16) -> (r: Vec<Op>)
    requires
        stream_wf(old(stream)@),
    ensures
        stream_wf(final(stream)@),
        r@ == spec_decode_map_ops_n(old(stream)@, count as nat),
{
    let mut r: Vec<Op> = Vec::new();
    let mut i: u16 = 0;
    while i < count
        invariant
            stream_wf(stream@),
            i <= count,
            spec_decode_map_ops_n(old(stream)@, count as nat) == r@ + spec_decode_map_ops_n(
                stream@,
                (count - i) as nat,
            ),
        decreases count - i,
    {
        let ghost s_pre = stream@;
        match Op::decode(stream) {
            None => {
                proof {
                    assert(spec_decode_map_ops_n(s_pre, (count - i) as nat) =~= Seq::<Op>::empty());
                    assert(r@ + Seq::<Op>::empty() =~= r@);
                }
                return r;
            },
            Some(op) => {
                let ghost r_pre = r@;
                r.push(op);
                proof {
                    assert(spec_decode_map_ops_n(s_pre, (count - i) as nat) == seq![op]
                        + spec_decode_map_ops_n(stream@, (count - i - 1) as nat));
                    assert(r_pre + (seq![op] + spec_decode_map_ops_n(
                        stream@,
                        (count - i - 1) as nat,
                    )) =~= r@ + spec_decode_map_ops_n(stream@, (count - i - 1) as nat));
                }
                i = i + 1;
            },
        }
    }
    proof {
        assert(spec_decode_map_ops_n(stream@, 0) =~= Seq::<Op>::empty());
        assert(r@ + Seq::<Op>::empty() =~= r@);
    }
    r
}

/// Reading a run's header from the stream: the hash seed, then the capacity
/// hint, both one byte wide on purpose so that requested capacities stay
/// within an allocatable range.
pub open spec fn spec_map_run_header(s: StreamModel) -> Option<(u8, u8, StreamModel)> {
    match stream_read_byte(s) {
        (None, _) => None,
        (Some(seed), s1) => match stream_read_byte(s1) {
            (None, _) => None,
            (Some(cap), s2) => Some((seed, cap, s2)),
        },
    }
}

/// A whole streaming run from one opaque byte buffer: read the hash seed and
/// the capacity hint, then decode and apply operations until the buffer's
/// budget is exhausted.  `None` means the buffer was too short for the
/// header, which ends the run cleanly before anything was built.
pub fn run_map_buffer(data: Vec<u8>, max_bytes: usize) -> (r: Option<MapReport>)
    ensures
        ({
            let s0 = spec_bounded_stream(data@, max_bytes);
            match spec_map_run_header(s0) {
                None => r is None,
                Some((seed, cap, s2)) => (r matches Some(report) && spec_map_report_matches(
                    spec_decode_map_ops(s2),
                    report,
                )),
            }
        }),
{
    let mut stream = ByteStream::new_bounded(data, max_bytes);
    let hash_seed = match stream.next_byte() {
        None => {
            return None;
        },
        Some(b) => b,
    };
    let capacity = match stream.next_byte() {
        None => {
            return None;
        },
        Some(b) => b,
    };
    Some(run_map_stream(&mut stream, hash_seed, capacity))
}

/// A whole fixed-count run from one opaque byte buffer: over a cyclic
/// stream, read the hash seed and the capacity hint, decode exactly
/// `total_ops` operations upfront (the cyclic stream never exhausts), then
/// replay them.  `None` means the buffer was empty, which a cyclic stream
/// cannot wrap over.
pub fn run_map_buffer_cyclic(data: Vec<u8>, total_ops: u16) -> (r: Option<MapReport>)
    ensures
        r is Some <==> data@.len() > 0,
        ({
            let s0 = spec_cyclic_stream(data@);
            r matches Some(report) ==> (spec_map_run_header(s0) matches Some((seed, cap, s2))
                && spec_map_report_matches(spec_decode_map_ops_n(s2, total_ops as nat), report))
        }),
{
    let stream = ByteStream::new_cyclic(data);
    match stream {
        None => None,
        Some(mut stream) => {
            let hash_seed = match stream.next_byte() {
                None => {
                    return None;
                },
                Some(b) => b,
            };
            let capacity = match stream.next_byte() {
                None => {
                    return None;
                },
                Some(b) => b,
            };
            let ops = decode_map_ops(&mut stream, total_ops);
            Some(run_map_ops(&ops, hash_seed, capacity))
        },
    }
}

} // verus!
