//! The trusted surface towards the containers under test.
//!
//! The engine treats a production container as an opaque black box: it calls
//! it, records what came back, and checks the record at run time.  The
//! standard library's `HashMap` and `VecDeque` already carry specifications
//! in vstd for most of the operations the engine uses; this module wraps the
//! remaining few at the instantiations the engine runs.  Capacity is
//! deliberately left unspecified — the capacity invariants are exactly what
//! the engine checks at run time, so nothing here may promise them.

use vstd::prelude::*;

use crate::hasher::BuildTrulyAwfulHasher;
use std::collections::HashMap;
use std::collections::VecDeque;

verus! {

/// Relies on `HashMap::with_capacity_and_hasher`: it creates an empty map
/// (the capacity argument only pre-sizes the allocation and the hasher only
/// configures key placement, neither adds an entry).
#[verifier::external_body]
pub fn map_sut_new(capacity: usize, hash_builder: BuildTrulyAwfulHasher) -> (m: HashMap<
    u16,
    u16,
    BuildTrulyAwfulHasher,
>)
    ensures
        m@ === Map::empty(),
{
    HashMap::with_capacity_and_hasher(capacity, hash_builder)
}

/// Relies on `HashMap::capacity` only for its type: how many entries the map
/// can hold without reallocating is exactly what the engine refuses to
/// assume and instead checks at run time, so nothing is promised of the
/// result.
#[verifier::external_body]
pub fn map_sut_capacity(m: &HashMap<u16, u16, BuildTrulyAwfulHasher>) -> usize {
    m.capacity()
}

/// Relies on `HashMap::shrink_to_fit`: it drops spare capacity and keeps the
/// entries, so the logical contents are unchanged.  What happens to the
/// capacity is deliberately not promised.
#[verifier::external_body]
pub fn map_sut_shrink_to_fit(m: &mut HashMap<u16, u16, BuildTrulyAwfulHasher>)
    ensures
        final(m)@ == old(m)@,
{
    m.shrink_to_fit()
}

/// Relies on `VecDeque::capacity` only for its type, for the same reason as
/// the map's capacity: the engine checks capacity behaviour, it does not
/// assume it.
#[verifier::external_body]
pub fn deque_sut_capacity(v: &VecDeque<u8>) -> usize {
    v.capacity()
}

/// Relies on `VecDeque::shrink_to_fit`: it drops spare capacity and keeps
/// the elements in order, so the logical contents are unchanged.  What
/// happens to the capacity is deliberately not promised.
#[verifier::external_body]
pub fn deque_sut_shrink_to_fit(v: &mut VecDeque<u8>)
    ensures
        final(v)@ == old(v)@,
{
    v.shrink_to_fit()
}

/// Relies on `VecDeque::is_empty`: true exactly when the deque holds no
/// elements.
#[verifier::external_body]
pub fn deque_sut_is_empty(v: &VecDeque<u8>) -> (r: bool)
    ensures
        r == (v@.len() == 0),
{
    v.is_empty()
}

/// Relies on `VecDeque::front`: the first element, or `None` exactly when
/// the deque is empty.
#[verifier::external_body]
pub fn deque_sut_front(v: &VecDeque<u8>) -> (r: Option<u8>)
    ensures
        r is None ==> v@.len() == 0,
        r matches Some(x) ==> v@.len() > 0 && x == v@[0],
{
    v.front().copied()
}

/// Relies on `VecDeque::back`: the last element, or `None` exactly when the
/// deque is empty.
#[verifier::external_body]
pub fn deque_sut_back(v: &VecDeque<u8>) -> (r: Option<u8>)
    ensures
        r is None ==> v@.len() == 0,
        r matches Some(x) ==> v@.len() > 0 && x == v@[v@.len() - 1],
{
    v.back().copied()
}

/// Relies on `VecDeque::swap_remove_back`: with `index` in bounds it removes
/// and returns the element there after overwriting it with the back element
/// (dropping the back slot); out of bounds it returns `None` and changes
/// nothing.
#[verifier::external_body]
pub fn deque_sut_swap_remove_back(v: &mut VecDeque<u8>, index: usize) -> (r: Option<u8>)
    ensures
        index < old(v)@.len() ==> (r matches Some(x) && x == old(v)@[index as int] && final(v)@
            == old(v)@.update(index as int, old(v)@.last()).drop_last()),
        index >= old(v)@.len() ==> r is None && final(v)@ == old(v)@,
{
    v.swap_remove_back(index)
}

} // verus!
