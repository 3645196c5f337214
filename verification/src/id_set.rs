//! Sets of allocation ids.

use vstd::prelude::*;
use ahash::AHashSet;
use crate::capture::AllocationId;

verus! {

#[verifier::external_type_specification]
#[verifier::external_body]
#[verifier::reject_recursive_types(T)]
#[verifier::reject_recursive_types(S)]
pub struct ExAHashSet<T, S>(AHashSet<T, S>);

/// The ids that a set holds.
pub uninterp spec fn members(set: AHashSet<AllocationId>) -> Set<AllocationId>;

/// An empty set, made with `AHashSet::new`.
#[verifier::external_body]
fn empty() -> (r: AHashSet<AllocationId>)
    ensures
        members(r) == Set::<AllocationId>::empty(),
{
    AHashSet::new()
}

/// Adds an id with `AHashSet::insert`: the set then holds it, and all that
/// it held before.
#[verifier::external_body]
fn put(set: &mut AHashSet<AllocationId>, id: AllocationId)
    ensures
        members(*final(set)) == members(*old(set)).insert(id),
{
    set.insert(id);
}

/// Asks `AHashSet::contains` whether the set holds an id.
#[verifier::external_body]
fn holds(set: &AHashSet<AllocationId>, id: AllocationId) -> (r: bool)
    ensures
        r == members(*set).contains(id),
{
    set.contains(&id)
}

/// Whether `set` holds `id`.
pub fn contains(set: &AHashSet<AllocationId>, id: AllocationId) -> (r: bool)
    ensures
        r == members(*set).contains(id),
{
    holds(set, id)
}

/// The set of the ids of a list.
pub fn id_set_from(ids: &Vec<AllocationId>) -> (r: AHashSet<AllocationId>)
    ensures
        members(r) == ids@.to_set(),
{
    let mut set = empty();
    let mut i: usize = 0;
    while i < ids.len()
        invariant
            0 <= i <= ids.len(),
            members(set) == ids@.take(i as int).to_set(),
        decreases ids.len() - i,
    {
        put(&mut set, ids[i]);
        proof {
            assert(ids@.take(i + 1) =~= ids@.take(i as int).push(ids[i as int]));
            ids@.take(i as int).lemma_push_to_set_commute(ids[i as int]);
        }
        i += 1;
    }
    assert(ids@.take(ids.len() as int) =~= ids@);
    set
}

} // verus!
