//! The allocations of a capture that a filter accepts, and the part of them
//! that one answer shows.

use vstd::prelude::*;
use crate::capture::{Allocation, AllocationId, Data, DataId};
use crate::filter::AllocationFilter;
use crate::protocol::{AllocSortBy, Order};

verus! {

/// The index of a capture that is sorted by `sort_by`.
pub open spec fn index_of(data: &Data, sort_by: AllocSortBy) -> Seq<AllocationId> {
    match sort_by {
        AllocSortBy::Timestamp => data.sorted_by_timestamp@,
        AllocSortBy::Address => data.sorted_by_address@,
        AllocSortBy::Size => data.sorted_by_size@,
    }
}

/// The ids among which the allocations of an answer are looked for: all of
/// the capture, in the order of `sort_by`.
pub fn prefiltered_allocation_ids<'a, F>(
    data: &'a Data,
    sort_by: AllocSortBy,
    _filter: &AllocationFilter<F>,
) -> (r: &'a Vec<AllocationId>)
    ensures
        r@ == index_of(data, sort_by),
{
    match sort_by {
        AllocSortBy::Timestamp => &data.sorted_by_timestamp,
        AllocSortBy::Address => &data.sorted_by_address,
        AllocSortBy::Size => &data.sorted_by_size,
    }
}

/// Whether `filter` accepts the allocation `id` of `data`, as a predicate
/// on ids.
pub open spec fn acceptance<F: Fn(DataId, AllocationId, &Allocation) -> bool>(
    data: &Data,
    filter: &AllocationFilter<F>,
) -> spec_fn(AllocationId) -> bool {
    |id: AllocationId| filter.accepts(data.id, id, data.allocations[id as int])
}

/// The ids of `ids` that `filter` accepts, in the order in which they stand.
pub open spec fn matching<F: Fn(DataId, AllocationId, &Allocation) -> bool>(
    data: &Data,
    filter: &AllocationFilter<F>,
    ids: Seq<AllocationId>,
) -> Seq<AllocationId> {
    ids.filter(acceptance(data, filter))
}

/// Applies a filter to some allocations of a capture.
pub fn matching_ids<F: Fn(DataId, AllocationId, &Allocation) -> bool>(
    data: &Data,
    filter: &AllocationFilter<F>,
    ids: &Vec<AllocationId>,
) -> (r: Vec<AllocationId>)
    requires
        filter.wf(),
        forall|i: int| 0 <= i < ids.len() ==> ids[i] < data.allocations.len(),
    ensures
        r@ == matching(data, filter, ids@),
        forall|i: int| 0 <= i < r.len() ==> r[i] < data.allocations.len(),
{
    let mut matched: Vec<AllocationId> = Vec::new();
    let mut i: usize = 0;
    while i < ids.len()
        invariant
            filter.wf(),
            0 <= i <= ids.len(),
            forall|i: int| 0 <= i < ids.len() ==> ids[i] < data.allocations.len(),
            matched@ == matching(data, filter, ids@.take(i as int)),
            forall|i: int| 0 <= i < matched.len() ==> matched[i] < data.allocations.len(),
        decreases ids.len() - i,
    {
        let id: AllocationId = ids[i];
        proof {
            reveal(Seq::filter);
            assert(ids@.take(i + 1).drop_last() =~= ids@.take(i as int));
        }
        if filter.try_match(data, id, data.get_allocation(id)) {
            matched.push(id);
        }
        i += 1;
    }
    assert(ids@.take(ids.len() as int) =~= ids@);
    matched
}

/// An id is among those that matched if and only if it was among those
/// that the filter was applied to, the compiled predicate accepts its
/// allocation and, where the request has a script, the script picked it.
pub proof fn lemma_matching_composes<F: Fn(DataId, AllocationId, &Allocation) -> bool>(
    data: &Data,
    filter: &AllocationFilter<F>,
    ids: Seq<AllocationId>,
    id: AllocationId,
)
    ensures
        matching(data, filter, ids).contains(id) <==> {
            &&& ids.contains(id)
            &&& filter.custom_ids() matches Some(picked) ==> picked.contains(id)
            &&& filter.structural(data.id, id, data.allocations[id as int])
        },
{
    let accepted = acceptance(data, filter);
    let matched = matching(data, filter, ids);
    if matched.contains(id) {
        let at = choose|at: int| 0 <= at < matched.len() && matched[at] == id;
        ids.lemma_filter_pred(accepted, at);
        ids.lemma_filter_contains_rev(accepted, id);
    }
    if ids.contains(id) && accepted(id) {
        let at = choose|at: int| 0 <= at < ids.len() && ids[at] == id;
        ids.lemma_filter_contains(accepted, at);
    }
}

/// Applying a filter to the same allocations of the same capture twice
/// gives the same ids: what matched is settled by the capture, the ids and
/// the filter, and by nothing else.
pub proof fn lemma_matching_deterministic<F: Fn(DataId, AllocationId, &Allocation) -> bool>(
    data: &Data,
    filter: &AllocationFilter<F>,
    ids: Seq<AllocationId>,
    once: Seq<AllocationId>,
    again: Seq<AllocationId>,
)
    requires
        once == matching(data, filter, ids),
        again == matching(data, filter, ids),
    ensures
        once == again,
        once.to_set() == again.to_set(),
{
}

/// The part of a list that one answer shows: `count` items at most, after
/// `skip` items that are left out, of the list as it stands or read
/// backwards.
pub open spec fn page_of(ids: Seq<AllocationId>, order: Order, skip: nat, count: nat) -> Seq<
    AllocationId,
> {
    let ordered = match order {
        Order::Asc => ids,
        Order::Dsc => ids.reverse(),
    };
    let from = if skip < ordered.len() { skip } else { ordered.len() };
    let to = if from + count < ordered.len() { from + count } else { ordered.len() };
    ordered.subrange(from as int, to as int)
}

/// Cuts the part that one answer shows out of a list.
pub fn page(ids: &Vec<AllocationId>, order: Order, skip: usize, count: usize) -> (r: Vec<AllocationId>)
    ensures
        r@ == page_of(ids@, order, skip as nat, count as nat),
{
    let len: usize = ids.len();
    let from: usize = if skip < len { skip } else { len };
    let to: usize = if count < len - from { from + count } else { len };
    let mut shown: Vec<AllocationId> = Vec::new();
    let mut i: usize = from;
    while i < to
        invariant
            len == ids.len(),
            from <= i <= to <= len,
            shown@ == match order {
                Order::Asc => ids@,
                Order::Dsc => ids@.reverse(),
            }.subrange(from as int, i as int),
        decreases to - i,
    {
        let id: AllocationId = match order {
            Order::Asc => ids[i],
            Order::Dsc => ids[len - 1 - i],
        };
        shown.push(id);
        assert(shown@ =~= match order {
            Order::Asc => ids@,
            Order::Dsc => ids@.reverse(),
        }.subrange(from as int, i + 1));
        i += 1;
    }
    shown
}

} // verus!
