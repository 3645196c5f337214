//! Why the fragmentation of an orderly heap is what is left of its span.
//!
//! The replay of the operations counts bytes and the ends of ranges; it
//! does not ask whether the operations make sense. Here they are asked to:
//! what is given back was allocated and not given back before, and what is
//! allocated lies apart from all that is in use. Of such operations the
//! replay's numbers are the numbers of the allocations in use, and the
//! fragmentation is the part of the span that no allocation takes up.

use vstd::prelude::*;
use crate::capture::{AllocationId, Data, Operation};
use crate::fragmentation::{takes_part, AddressSpace, Timeline};

verus! {

pub open spec fn start_of(data: &Data, id: AllocationId) -> u64 {
    data.allocations[id as int].start()
}

pub open spec fn end_of(data: &Data, id: AllocationId) -> u64 {
    data.allocations[id as int].end()
}

pub open spec fn size_of(data: &Data, id: AllocationId) -> int {
    data.allocations[id as int].size as int
}

/// Two allocations lie apart: one ends where the other begins, or before.
pub open spec fn apart(data: &Data, one: AllocationId, other: AllocationId) -> bool {
    end_of(data, one) <= start_of(data, other) || end_of(data, other) <= start_of(data, one)
}

/// The allocation `id` lies apart from each of `live`, and is none of them.
pub open spec fn fits_among(data: &Data, live: Seq<AllocationId>, id: AllocationId) -> bool {
    forall|j: int| 0 <= j < live.len() ==> (#[trigger] live[j]) != id && apart(data, live[j], id)
}

/// The allocations `live` without `id`. Where `id` is among them more than
/// once, the first one leaves.
pub open spec fn without(live: Seq<AllocationId>, id: AllocationId) -> Seq<AllocationId> {
    if live.contains(id) {
        live.remove(live.index_of(id))
    } else {
        live
    }
}

/// The allocations in use once one more operation has taken place. Only
/// allocations that take part in the timeline are kept track of.
pub open spec fn live_step(data: &Data, live: Seq<AllocationId>, operation: Operation) -> Seq<
    AllocationId,
> {
    match operation {
        Operation::Allocation { allocation } => {
            if takes_part(data.allocations[allocation as int]) {
                live.push(allocation)
            } else {
                live
            }
        },
        Operation::Deallocation { allocation } => {
            if takes_part(data.allocations[allocation as int]) {
                without(live, allocation)
            } else {
                live
            }
        },
        Operation::Reallocation { new_allocation, old_allocation } => {
            let left = if takes_part(data.allocations[old_allocation as int]) {
                without(live, old_allocation)
            } else {
                live
            };
            if takes_part(data.allocations[new_allocation as int]) {
                left.push(new_allocation)
            } else {
                left
            }
        },
    }
}

/// The allocations in use after the first `count` operations of a capture.
pub open spec fn live_after(data: &Data, count: nat) -> Seq<AllocationId>
    decreases count,
{
    if count == 0 {
        Seq::empty()
    } else {
        live_step(data, live_after(data, (count - 1) as nat), data.operations[count - 1])
    }
}

/// An operation makes sense where `live` is in use: what it gives back is
/// in use, and what it allocates is not in use and lies apart from all that
/// is.
pub open spec fn makes_sense(data: &Data, live: Seq<AllocationId>, operation: Operation) -> bool {
    match operation {
        Operation::Allocation { allocation } => takes_part(data.allocations[allocation as int])
            ==> fits_among(data, live, allocation),
        Operation::Deallocation { allocation } => takes_part(data.allocations[allocation as int])
            ==> live.contains(allocation),
        Operation::Reallocation { new_allocation, old_allocation } => {
            let left = if takes_part(data.allocations[old_allocation as int]) {
                without(live, old_allocation)
            } else {
                live
            };
            &&& takes_part(data.allocations[old_allocation as int]) ==> live.contains(old_allocation)
            &&& takes_part(data.allocations[new_allocation as int]) ==> fits_among(
                data,
                left,
                new_allocation,
            )
        },
    }
}

/// The first `count` operations of a capture make sense, each where it
/// takes place.
pub open spec fn orderly(data: &Data, count: nat) -> bool {
    forall|k: int|
        0 <= k < count ==> makes_sense(data, live_after(data, k as nat), #[trigger] data.operations[k])
}

/// The bytes of some allocations, summed up.
pub open spec fn live_bytes(data: &Data, live: Seq<AllocationId>) -> int
    decreases live.len(),
{
    if live.len() == 0 {
        0
    } else {
        live_bytes(data, live.drop_last()) + size_of(data, live.last())
    }
}

/// How many of some allocations begin at an address, and how many end
/// there, summed up.
pub open spec fn ends_at(data: &Data, live: Seq<AllocationId>, address: u64) -> int
    decreases live.len(),
{
    if live.len() == 0 {
        0
    } else {
        ends_at(data, live.drop_last(), address) + ends_of(data, live.last(), address)
    }
}

/// How many ends of an allocation lie at an address: none, one, or both.
pub open spec fn ends_of(data: &Data, id: AllocationId, address: u64) -> int {
    (if start_of(data, id) == address { 1int } else { 0int }) + (if end_of(data, id) == address {
        1int
    } else {
        0int
    })
}

/// Each of `live` is an allocation of `data` that takes part; no two are
/// the same, and any two lie apart.
pub open spec fn spread(data: &Data, live: Seq<AllocationId>) -> bool {
    &&& forall|j: int|
        0 <= j < live.len() ==> (#[trigger] live[j]) < data.allocations.len() && takes_part(
            data.allocations[live[j] as int],
        )
    &&& forall|i: int, j: int|
        0 <= i < j < live.len() ==> (#[trigger] live[i]) != (#[trigger] live[j]) && apart(
            data,
            live[i],
            live[j],
        )
}

/// The bounds of the address space are those of the allocations `live`:
/// one of them begins at the lower bound and one of them ends at the upper
/// one. Where there are none, the lower bound is the largest address there
/// is and the upper one is zero.
pub open spec fn tight(data: &Data, space: AddressSpace, live: Seq<AllocationId>) -> bool {
    if live.len() == 0 {
        space.min == u64::MAX && space.max == 0
    } else {
        &&& exists|j: int| 0 <= j < live.len() && start_of(data, #[trigger] live[j]) == space.min
        &&& exists|j: int| 0 <= j < live.len() && end_of(data, #[trigger] live[j]) == space.max
    }
}

/// The address space is that of the allocations `live`: their bytes are in
/// use, their ends are counted, and the bounds hold them all and no more.
pub open spec fn agrees(data: &Data, space: AddressSpace, live: Seq<AllocationId>) -> bool {
    &&& tight(data, space, live)
    &&& spread(data, live)
    &&& space.used == live_bytes(data, live)
    &&& forall|address: u64| #[trigger] space.count(address) == ends_at(data, live, address)
    &&& forall|j: int|
        0 <= j < live.len() ==> space.min <= start_of(data, #[trigger] live[j]) && end_of(
            data,
            live[j],
        ) <= space.max
}

proof fn lemma_remove_sums(data: &Data, live: Seq<AllocationId>, at: int, address: u64)
    requires
        0 <= at < live.len(),
    ensures
        live_bytes(data, live) == live_bytes(data, live.remove(at)) + size_of(data, live[at]),
        ends_at(data, live, address) == ends_at(data, live.remove(at), address) + ends_of(
            data,
            live[at],
            address,
        ),
    decreases live.len(),
{
    if at == live.len() - 1 {
        assert(live.remove(at) =~= live.drop_last());
    } else {
        lemma_remove_sums(data, live.drop_last(), at, address);
        assert(live.remove(at).drop_last() =~= live.drop_last().remove(at));
        assert(live.remove(at).last() == live.last());
    }
}

proof fn lemma_sums_natural(data: &Data, live: Seq<AllocationId>, address: u64)
    ensures
        live_bytes(data, live) >= 0,
        ends_at(data, live, address) >= 0,
        forall|j: int|
            0 <= j < live.len() && start_of(data, #[trigger] live[j]) == address ==> ends_at(
                data,
                live,
                address,
            ) >= 1,
        forall|j: int|
            0 <= j < live.len() && end_of(data, #[trigger] live[j]) == address ==> ends_at(
                data,
                live,
                address,
            ) >= 1,
    decreases live.len(),
{
    if live.len() > 0 {
        lemma_sums_natural(data, live.drop_last(), address);
        assert forall|j: int|
            0 <= j < live.len() && start_of(data, #[trigger] live[j]) == address implies ends_at(
            data,
            live,
            address,
        ) >= 1 by {
            if j < live.len() - 1 {
                assert(live.drop_last()[j] == live[j]);
            }
        }
        assert forall|j: int|
            0 <= j < live.len() && end_of(data, #[trigger] live[j]) == address implies ends_at(
            data,
            live,
            address,
        ) >= 1 by {
            if j < live.len() - 1 {
                assert(live.drop_last()[j] == live[j]);
            }
        }
    }
}

/// At an address that is counted, one of the allocations begins or ends.
proof fn lemma_counted_is_an_end(data: &Data, live: Seq<AllocationId>, address: u64)
    requires
        ends_at(data, live, address) != 0,
    ensures
        exists|j: int|
            0 <= j < live.len() && (start_of(data, #[trigger] live[j]) == address || end_of(
                data,
                live[j],
            ) == address),
    decreases live.len(),
{
    if live.len() > 0 {
        let last = live.len() - 1;
        if ends_of(data, live[last], address) != 0 {
            assert(start_of(data, live[last]) == address || end_of(data, live[last]) == address);
        } else {
            lemma_counted_is_an_end(data, live.drop_last(), address);
            let j = choose|j: int|
                0 <= j < live.drop_last().len() && (start_of(data, #[trigger] live.drop_last()[j])
                    == address || end_of(data, live.drop_last()[j]) == address);
            assert(live.drop_last()[j] == live[j]);
        }
    }
}

proof fn lemma_remove_spread(data: &Data, live: Seq<AllocationId>, at: int)
    requires
        spread(data, live),
        0 <= at < live.len(),
    ensures
        spread(data, live.remove(at)),
        forall|j: int|
            0 <= j < live.remove(at).len() ==> live.contains(#[trigger] live.remove(at)[j])
                && live.remove(at)[j] != live[at],
{
    let rest = live.remove(at);
    assert forall|j: int| 0 <= j < rest.len() implies live.contains(#[trigger] rest[j]) && rest[j]
        != live[at] by {
        if j < at {
            assert(rest[j] == live[j]);
        } else {
            assert(rest[j] == live[j + 1]);
        }
    }
    assert forall|i: int, j: int| 0 <= i < j < rest.len() implies (#[trigger] rest[i]) != (
    #[trigger] rest[j]) && apart(data, rest[i], rest[j]) by {
        let from = if i < at { i } else { i + 1 };
        let to = if j < at { j } else { j + 1 };
        assert(rest[i] == live[from] && rest[j] == live[to]);
    }
    assert forall|j: int| 0 <= j < rest.len() implies (#[trigger] rest[j]) < data.allocations.len()
        && takes_part(data.allocations[rest[j] as int]) by {
        let from = if j < at { j } else { j + 1 };
        assert(rest[j] == live[from]);
    }
}

/// Where an address is counted, there is a lowest address that is counted
/// and a highest one.
proof fn lemma_lowest_exists(space: AddressSpace, address: u64)
    requires
        space.count(address) != 0,
    ensures
        exists|lowest: u64| space.is_lowest(lowest),
    decreases address,
{
    if forall|below: u64| below < address ==> space.count(below) == 0 {
        assert(space.is_lowest(address));
    } else {
        let below = choose|below: u64| below < address && space.count(below) != 0;
        lemma_lowest_exists(space, below);
    }
}

proof fn lemma_highest_exists(space: AddressSpace, address: u64)
    requires
        space.count(address) != 0,
    ensures
        exists|highest: u64| space.is_highest(highest),
    decreases u64::MAX - address,
{
    if forall|above: u64| above > address ==> space.count(above) == 0 {
        assert(space.is_highest(address));
    } else {
        let above = choose|above: u64| above > address && space.count(above) != 0;
        lemma_highest_exists(space, above);
    }
}

/// An allocation that fits among those in use may come to life.
proof fn lemma_allocate(data: &Data, space: AddressSpace, live: Seq<AllocationId>, id: AllocationId)
    requires
        data.wf(),
        agrees(data, space, live),
        id < data.allocations.len(),
        takes_part(data.allocations[id as int]),
        fits_among(data, live, id),
    ensures
        agrees(data, space.allocate(start_of(data, id), end_of(data, id)), live.push(id)),
{
    let start = start_of(data, id);
    let end = end_of(data, id);
    let after = space.allocate(start, end);
    let more = live.push(id);
    assert(data.allocation_wf(data.allocations[id as int]));
    assert(more.drop_last() =~= live);
    assert forall|address: u64| #[trigger] after.count(address) == ends_at(data, more, address) by {
        assert(space.count(address) == ends_at(data, live, address));
    }
    assert forall|i: int, j: int| 0 <= i < j < more.len() implies (#[trigger] more[i]) != (
    #[trigger] more[j]) && apart(data, more[i], more[j]) by {
        if j < live.len() {
            assert(more[i] == live[i] && more[j] == live[j]);
        } else {
            assert(more[i] == live[i]);
        }
    }
    assert forall|j: int| 0 <= j < more.len() implies after.min <= start_of(data, #[trigger] more[j])
        && end_of(data, more[j]) <= after.max by {
        if j < live.len() {
            assert(more[j] == live[j]);
        }
    }
    let last = live.len() as int;
    assert(more[last] == id);
    if live.len() == 0 || start < space.min {
        assert(start_of(data, more[last]) == after.min);
    } else {
        let j = choose|j: int| 0 <= j < live.len() && start_of(data, #[trigger] live[j]) == space.min;
        assert(more[j] == live[j]);
        assert(start_of(data, more[j]) == after.min);
    }
    if live.len() == 0 || end > space.max {
        assert(end_of(data, more[last]) == after.max);
    } else {
        let j = choose|j: int| 0 <= j < live.len() && end_of(data, #[trigger] live[j]) == space.max;
        assert(more[j] == live[j]);
        assert(end_of(data, more[j]) == after.max);
    }
    assert(tight(data, after, more));
}

/// An allocation that is in use may be given back.
proof fn lemma_deallocate(data: &Data, space: AddressSpace, live: Seq<AllocationId>, id: AllocationId)
    requires
        data.wf(),
        agrees(data, space, live),
        live.contains(id),
    ensures
        agrees(data, space.deallocate(start_of(data, id), end_of(data, id)), without(live, id)),
{
    let start = start_of(data, id);
    let end = end_of(data, id);
    let after = space.deallocate(start, end);
    let at = live.index_of(id);
    let rest = live.remove(at);
    assert(live[at] == id);
    lemma_remove_spread(data, live, at);
    lemma_remove_sums(data, live, at, 0);
    let counted = space.bump(start, -1).bump(end, -1);
    assert forall|address: u64| #[trigger] counted.count(address) == ends_at(data, rest, address) by {
        lemma_remove_sums(data, live, at, address);
        assert(space.count(address) == ends_at(data, live, address));
    }
    assert forall|address: u64| #[trigger] after.count(address) == ends_at(data, rest, address) by {
        assert(after.counts == counted.counts);
        assert(after.count(address) == counted.count(address));
    }
    assert forall|j: int| 0 <= j < rest.len() implies after.min <= start_of(data, #[trigger] rest[j])
        && end_of(data, rest[j]) <= after.max by {
        let other = rest[j];
        assert(live.contains(other));
        let from = choose|from: int| 0 <= from < live.len() && live[from] == other;
        assert(space.min <= start_of(data, live[from]) && end_of(data, live[from]) <= space.max);
        assert(data.allocation_wf(data.allocations[other as int]));
        if start == space.min {
            lemma_sums_natural(data, rest, start_of(data, other));
            assert(counted.count(start_of(data, other)) >= 1);
            lemma_lowest_exists(counted, start_of(data, other));
            let lowest = counted.lowest();
            assert(counted.is_lowest(lowest));
            assert(lowest <= start_of(data, other));
        }
        if end == space.max {
            lemma_sums_natural(data, rest, end_of(data, other));
            assert(counted.count(end_of(data, other)) >= 1);
            lemma_highest_exists(counted, end_of(data, other));
            let highest = counted.highest();
            assert(counted.is_highest(highest));
            assert(highest >= end_of(data, other));
        }
    }
    lemma_deallocate_tight(data, space, live, at);
}

/// Once an allocation is given back, the bounds are those of the others.
proof fn lemma_deallocate_tight(data: &Data, space: AddressSpace, live: Seq<AllocationId>, at: int)
    requires
        data.wf(),
        agrees(data, space, live),
        0 <= at < live.len(),
        spread(data, live.remove(at)),
        forall|address: u64|
            #[trigger] space.bump(start_of(data, live[at]), -1).bump(
                end_of(data, live[at]),
                -1,
            ).count(address) == ends_at(data, live.remove(at), address),
    ensures
        tight(
            data,
            space.deallocate(start_of(data, live[at]), end_of(data, live[at])),
            live.remove(at),
        ),
{
    let id = live[at];
    let start = start_of(data, id);
    let end = end_of(data, id);
    let after = space.deallocate(start, end);
    let rest = live.remove(at);
    let counted = space.bump(start, -1).bump(end, -1);
    if rest.len() == 0 {
        assert(live.len() == 1 && at == 0);
        let low = choose|j: int| 0 <= j < live.len() && start_of(data, #[trigger] live[j]) == space.min;
        let high = choose|j: int| 0 <= j < live.len() && end_of(data, #[trigger] live[j]) == space.max;
        assert(low == 0 && high == 0);
        assert forall|address: u64| !counted.is_lowest(address) && !counted.is_highest(address) by {
            assert(counted.count(address) == ends_at(data, rest, address));
        }
    } else {
        if start == space.min {
            let some = rest[0];
            assert(data.allocation_wf(data.allocations[some as int]));
            lemma_sums_natural(data, rest, start_of(data, some));
            assert(counted.count(start_of(data, some)) >= 1);
            lemma_lowest_exists(counted, start_of(data, some));
            let lowest = counted.lowest();
            assert(counted.is_lowest(lowest));
            assert(counted.count(lowest) == ends_at(data, rest, lowest));
            lemma_counted_is_an_end(data, rest, lowest);
            let j = choose|j: int|
                0 <= j < rest.len() && (start_of(data, #[trigger] rest[j]) == lowest || end_of(
                    data,
                    rest[j],
                ) == lowest);
            assert(data.allocation_wf(data.allocations[rest[j] as int]));
            if start_of(data, rest[j]) != lowest {
                lemma_sums_natural(data, rest, start_of(data, rest[j]));
                assert(counted.count(start_of(data, rest[j])) >= 1);
            }
            assert(start_of(data, rest[j]) == after.min);
        } else {
            let j = choose|j: int| 0 <= j < live.len() && start_of(data, #[trigger] live[j]) == space.min;
            let to = if j < at { j } else { j - 1 };
            assert(rest[to] == live[j]);
            assert(start_of(data, rest[to]) == after.min);
        }
        if end == space.max {
            let some = rest[0];
            assert(data.allocation_wf(data.allocations[some as int]));
            lemma_sums_natural(data, rest, end_of(data, some));
            assert(counted.count(end_of(data, some)) >= 1);
            lemma_highest_exists(counted, end_of(data, some));
            let highest = counted.highest();
            assert(counted.is_highest(highest));
            assert(counted.count(highest) == ends_at(data, rest, highest));
            lemma_counted_is_an_end(data, rest, highest);
            let j = choose|j: int|
                0 <= j < rest.len() && (start_of(data, #[trigger] rest[j]) == highest || end_of(
                    data,
                    rest[j],
                ) == highest);
            assert(data.allocation_wf(data.allocations[rest[j] as int]));
            if end_of(data, rest[j]) != highest {
                lemma_sums_natural(data, rest, end_of(data, rest[j]));
                assert(counted.count(end_of(data, rest[j])) >= 1);
            }
            assert(end_of(data, rest[j]) == after.max);
        } else {
            let j = choose|j: int| 0 <= j < live.len() && end_of(data, #[trigger] live[j]) == space.max;
            let to = if j < at { j } else { j - 1 };
            assert(rest[to] == live[j]);
            assert(end_of(data, rest[to]) == after.max);
        }
    }
}

/// One more operation that makes sense leaves the address space of the
/// replay that of the allocations in use.
proof fn lemma_step_agrees(data: &Data, timeline: Timeline, live: Seq<AllocationId>, operation: Operation)
    requires
        data.wf(),
        agrees(data, timeline.space, live),
        data.operation_wf(operation),
        makes_sense(data, live, operation),
    ensures
        agrees(data, timeline.step(data, operation).space, live_step(data, live, operation)),
{
    let space = timeline.space;
    match operation {
        Operation::Allocation { allocation } => {
            if takes_part(data.allocations[allocation as int]) {
                lemma_allocate(data, space, live, allocation);
            }
        },
        Operation::Deallocation { allocation } => {
            if takes_part(data.allocations[allocation as int]) {
                lemma_deallocate(data, space, live, allocation);
            }
        },
        Operation::Reallocation { new_allocation, old_allocation } => {
            let gives_back = takes_part(data.allocations[old_allocation as int]);
            let left = if gives_back { without(live, old_allocation) } else { live };
            let freed = if gives_back {
                space.deallocate(start_of(data, old_allocation), end_of(data, old_allocation))
            } else {
                space
            };
            if gives_back {
                lemma_deallocate(data, space, live, old_allocation);
            }
            if takes_part(data.allocations[new_allocation as int]) {
                lemma_allocate(data, freed, left, new_allocation);
            }
        },
    }
}

/// After operations that make sense, the address space of the replay is
/// that of the allocations in use.
pub proof fn lemma_replay_agrees(data: &Data, count: nat)
    requires
        data.wf(),
        count <= data.operations.len(),
        orderly(data, count),
    ensures
        agrees(data, Timeline::after(data, count).space, live_after(data, count)),
    decreases count,
{
    if count == 0 {
        assert forall|address: u64| #[trigger]
            AddressSpace::empty().count(address) == ends_at(data, Seq::empty(), address) by {}
    } else {
        let before = (count - 1) as nat;
        assert(orderly(data, before));
        lemma_replay_agrees(data, before);
        let operation = data.operations[count - 1];
        assert(makes_sense(data, live_after(data, before), operation));
        assert(data.operation_wf(operation));
        lemma_step_agrees(data, Timeline::after(data, before), live_after(data, before), operation);
    }
}

/// The allocation at `top` takes up room, and none that takes up room
/// ends behind it.
spec fn is_top(data: &Data, live: Seq<AllocationId>, top: int) -> bool {
    &&& 0 <= top < live.len()
    &&& size_of(data, live[top]) > 0
    &&& forall|j: int|
        0 <= j < live.len() && size_of(data, #[trigger] live[j]) > 0 ==> end_of(data, live[j])
            <= end_of(data, live[top])
}

proof fn lemma_top_exists(data: &Data, live: Seq<AllocationId>)
    requires
        exists|j: int| 0 <= j < live.len() && size_of(data, #[trigger] live[j]) > 0,
    ensures
        exists|top: int| is_top(data, live, top),
    decreases live.len(),
{
    let front = live.drop_last();
    let last = live.len() - 1;
    if exists|j: int| 0 <= j < front.len() && size_of(data, #[trigger] front[j]) > 0 {
        lemma_top_exists(data, front);
        let top = choose|top: int| is_top(data, front, top);
        assert(front[top] == live[top]);
        if size_of(data, live[last]) > 0 && end_of(data, live[last]) > end_of(data, live[top]) {
            assert forall|j: int| 0 <= j < live.len() && size_of(data, #[trigger] live[j]) > 0 implies end_of(
                data,
                live[j],
            ) <= end_of(data, live[last]) by {
                if j < last {
                    assert(front[j] == live[j]);
                }
            }
            assert(is_top(data, live, last));
        } else {
            assert forall|j: int| 0 <= j < live.len() && size_of(data, #[trigger] live[j]) > 0 implies end_of(
                data,
                live[j],
            ) <= end_of(data, live[top]) by {
                if j < last {
                    assert(front[j] == live[j]);
                }
            }
            assert(is_top(data, live, top));
        }
    } else {
        let j = choose|j: int| 0 <= j < live.len() && size_of(data, #[trigger] live[j]) > 0;
        if j < last {
            assert(front[j] == live[j]);
        }
        assert forall|k: int| 0 <= k < live.len() && size_of(data, #[trigger] live[k]) > 0 implies end_of(
            data,
            live[k],
        ) <= end_of(data, live[last]) by {
            if k < last {
                assert(front[k] == live[k]);
            }
        }
        assert(is_top(data, live, last));
    }
}

proof fn lemma_no_bytes(data: &Data, live: Seq<AllocationId>)
    requires
        forall|j: int| 0 <= j < live.len() ==> size_of(data, #[trigger] live[j]) == 0,
    ensures
        live_bytes(data, live) == 0,
    decreases live.len(),
{
    if live.len() > 0 {
        assert forall|j: int| 0 <= j < live.drop_last().len() implies size_of(
            data,
            #[trigger] live.drop_last()[j],
        ) == 0 by {
            assert(live.drop_last()[j] == live[j]);
        }
        lemma_no_bytes(data, live.drop_last());
        assert(size_of(data, live[live.len() - 1]) == 0);
    }
}

/// Allocations that lie apart from each other, between two addresses, take
/// up no more bytes than there are between the two.
proof fn lemma_bytes_within(data: &Data, live: Seq<AllocationId>, low: int, high: int)
    requires
        data.wf(),
        spread(data, live),
        low <= high,
        forall|j: int|
            0 <= j < live.len() && size_of(data, #[trigger] live[j]) > 0 ==> low <= start_of(
                data,
                live[j],
            ) && end_of(data, live[j]) <= high,
    ensures
        live_bytes(data, live) <= high - low,
    decreases live.len(),
{
    if exists|j: int| 0 <= j < live.len() && size_of(data, #[trigger] live[j]) > 0 {
        lemma_top_exists(data, live);
        let top = choose|top: int| is_top(data, live, top);
        let rest = live.remove(top);
        let start = start_of(data, live[top]);
        let end = end_of(data, live[top]);
        assert(data.allocation_wf(data.allocations[live[top] as int]));
        lemma_remove_sums(data, live, top, 0);
        lemma_remove_spread(data, live, top);
        assert forall|j: int| 0 <= j < rest.len() && size_of(data, #[trigger] rest[j]) > 0 implies low
            <= start_of(data, rest[j]) && end_of(data, rest[j]) <= start by {
            let from = if j < top { j } else { j + 1 };
            assert(rest[j] == live[from]);
            assert(size_of(data, live[from]) > 0);
            assert(data.allocation_wf(data.allocations[live[from] as int]));
            if from < top {
                assert(apart(data, live[from], live[top]));
            } else {
                assert(apart(data, live[top], live[from]));
            }
        }
        lemma_bytes_within(data, rest, low, start as int);
    } else {
        assert forall|j: int| 0 <= j < live.len() implies size_of(data, #[trigger] live[j]) == 0 by {}
        lemma_no_bytes(data, live);
    }
}

/// Whatever the operations of a capture are, no fragmentation is below
/// zero. Where they make sense, what the timeline tells is what it is meant
/// to tell: the bytes in use are those of the allocations in use, the
/// bounds are the lowest address at which one of them begins and the
/// highest at which one of them ends, the bytes in use fit between the two,
/// and the fragmentation is what is left of that span. Where nothing is in
/// use, the fragmentation is zero.
pub proof fn lemma_fragmentation_bounds(data: &Data, count: nat)
    requires
        data.wf(),
        count <= data.operations.len(),
        orderly(data, count),
    ensures
        Timeline::after(data, count).space.used == live_bytes(data, live_after(data, count)),
        0 <= Timeline::after(data, count).space.fragmentation(),
        0 <= Timeline::after(data, count).space.used <= Timeline::after(data, count).space.span(),
        Timeline::after(data, count).space.fragmentation() + Timeline::after(data, count).space.used
            == Timeline::after(data, count).space.span(),
        live_after(data, count).len() > 0 ==> Timeline::after(data, count).space.span()
            == Timeline::after(data, count).space.max - Timeline::after(data, count).space.min,
        tight(data, Timeline::after(data, count).space, live_after(data, count)),
        forall|j: int|
            0 <= j < live_after(data, count).len() ==> Timeline::after(data, count).space.min
                <= start_of(data, #[trigger] live_after(data, count)[j]) && end_of(
                data,
                live_after(data, count)[j],
            ) <= Timeline::after(data, count).space.max,
        live_after(data, count).len() == 0 ==> Timeline::after(data, count).space.fragmentation() == 0,
{
    let space = Timeline::after(data, count).space;
    let live = live_after(data, count);
    lemma_replay_agrees(data, count);
    lemma_sums_natural(data, live, 0);
    if live.len() > 0 {
        assert(data.allocation_wf(data.allocations[live[0] as int]));
        assert(space.min <= start_of(data, live[0]) && end_of(data, live[0]) <= space.max);
        assert forall|j: int| 0 <= j < live.len() implies space.min <= start_of(data, #[trigger] live[j])
            && end_of(data, live[j]) <= space.max by {}
        lemma_bytes_within(data, live, space.min as int, space.max as int);
        if space.max == 0 {
            assert forall|j: int| 0 <= j < live.len() implies size_of(data, #[trigger] live[j]) == 0 by {
                assert(data.allocation_wf(data.allocations[live[j] as int]));
                assert(end_of(data, live[j]) <= space.max);
            }
            lemma_no_bytes(data, live);
        }
    }
}

/// Each value of the timeline is the fragmentation of the address space
/// after some of the operations.
pub proof fn lemma_values_are_of_states(data: &Data, count: nat, at: int)
    requires
        count <= data.operations.len(),
        0 <= at < Timeline::after(data, count).fragmentation.len(),
    ensures
        exists|k: nat|
            k <= count && Timeline::after(data, count).fragmentation[at] == (#[trigger] Timeline::after(
                data,
                k,
            )).space.fragmentation(),
    decreases count,
{
    lemma_points_follow_seconds(data, count);
    if count > 0 {
        let before = Timeline::after(data, (count - 1) as nat);
        let after = Timeline::after(data, count);
        lemma_points_follow_seconds(data, (count - 1) as nat);
        let operation = data.operations[count - 1];
        if crate::fragmentation::is_relevant(data, operation) {
            let applied = Timeline { space: before.space.apply(data, operation), ..before };
            let origin = data.initial_timestamp.secs();
            let second = data.operation_timestamp(operation).secs();
            let opened = applied.open_second(origin, second);
            assert(after.space == applied.space);
            if at == after.fragmentation.len() - 1 {
                assert(after.fragmentation[at] == Timeline::after(data, count).space.fragmentation());
            } else if at < before.fragmentation.len() {
                assert(after.fragmentation[at] == before.fragmentation[at]);
                lemma_values_are_of_states(data, (count - 1) as nat, at);
            } else {
                let last = before.fragmentation.len() - 1;
                assert(after.fragmentation[at] == before.fragmentation[last]);
                lemma_values_are_of_states(data, (count - 1) as nat, last);
            }
        } else {
            lemma_values_are_of_states(data, (count - 1) as nat, at);
        }
    }
}

/// A timeline with a last second has a point, and one without has none.
proof fn lemma_points_follow_seconds(data: &Data, count: nat)
    requires
        count <= data.operations.len(),
    ensures
        Timeline::after(data, count).second is Some <==> Timeline::after(data, count).fragmentation.len()
            > 0,
    decreases count,
{
    if count > 0 {
        lemma_points_follow_seconds(data, (count - 1) as nat);
    }
}

} // verus!
