//! The stretches of the address space that the allocations of an answer
//! take up.

use vstd::prelude::*;
use crate::allocations::matching;
use crate::capture::{Allocation, AllocationId, Data, DataId};
use crate::filter::AllocationFilter;
use crate::text::{decimal_width, digits_of, to_decimal};

verus! {

/// The stretches that the allocations of an answer take up, and where the
/// main heap begins and ends.
#[derive(Debug)]
pub struct ResponseRegions {
    pub main_heap_start: u64,
    pub main_heap_end: u64,
    pub main_heap_start_s: String,
    pub main_heap_end_s: String,
    pub regions: Vec<[u64; 2]>,
}

/// Whether an allocation lies in the main heap.
pub open spec fn in_main_heap(allocation: Allocation) -> bool {
    !allocation.is_mmaped && allocation.in_main_arena
}

/// Where the main heap begins: at the first allocation that lies in it, of
/// the allocations in the order `index`; at zero where none does.
pub open spec fn main_heap_start_of(data: &Data, index: Seq<AllocationId>) -> u64
    decreases index.len(),
{
    if index.len() == 0 {
        0
    } else if in_main_heap(data.allocations[index.first() as int]) {
        data.allocations[index.first() as int].start()
    } else {
        main_heap_start_of(data, index.drop_first())
    }
}

/// Where the main heap ends: behind the last allocation that lies in it;
/// at zero where none does.
pub open spec fn main_heap_end_of(data: &Data, index: Seq<AllocationId>) -> u64
    decreases index.len(),
{
    if index.len() == 0 {
        0
    } else if in_main_heap(data.allocations[index.last() as int]) {
        data.allocations[index.last() as int].end()
    } else {
        main_heap_end_of(data, index.drop_last())
    }
}

/// A range lies within a stretch.
pub open spec fn lies_in(range: (u64, u64), region: (u64, u64)) -> bool {
    region.0 <= range.0 && range.1 <= region.1
}

/// A range takes up an address.
pub open spec fn reaches(range: (u64, u64), address: u64) -> bool {
    range.0 <= address < range.1
}

/// One of the stretches holds the range.
pub open spec fn held(regions: Seq<(u64, u64)>, range: (u64, u64)) -> bool {
    exists|i: int| 0 <= i < regions.len() && lies_in(range, #[trigger] regions[i])
}

/// One of the ranges begins at the address.
pub open spec fn begins(ranges: Seq<(u64, u64)>, address: u64) -> bool {
    exists|k: int| 0 <= k < ranges.len() && (#[trigger] ranges[k]).0 == address
}

/// One of the ranges ends at the address.
pub open spec fn ends(ranges: Seq<(u64, u64)>, address: u64) -> bool {
    exists|k: int| 0 <= k < ranges.len() && (#[trigger] ranges[k]).1 == address
}

/// One of the ranges takes up the address.
pub open spec fn touched(ranges: Seq<(u64, u64)>, address: u64) -> bool {
    exists|k: int| 0 <= k < ranges.len() && reaches(#[trigger] ranges[k], address)
}

/// A stretch begins where one of the ranges begins, and ends where one of
/// them ends.
pub open spec fn bounded(ranges: Seq<(u64, u64)>, region: (u64, u64)) -> bool {
    begins(ranges, region.0) && ends(ranges, region.1)
}

/// `regions` are the stretches that `ranges` take up: the stretches stand
/// in the order of their addresses, with room between each and the next;
/// each range lies within one of them; each stretch begins where a range
/// begins and ends where a range ends; and no address of a stretch is left
/// out by all ranges. So ranges that overlap, touch or lie within each
/// other make one stretch, and ranges with room between them do not.
pub open spec fn coalesced(ranges: Seq<(u64, u64)>, regions: Seq<(u64, u64)>) -> bool {
    &&& forall|i: int| 0 <= i < regions.len() ==> (#[trigger] regions[i]).0 <= regions[i].1
    &&& forall|i: int, j: int|
        0 <= i < j < regions.len() ==> (#[trigger] regions[i]).1 < (#[trigger] regions[j]).0
    &&& forall|k: int| 0 <= k < ranges.len() ==> #[trigger] held(regions, ranges[k])
    &&& forall|i: int| 0 <= i < regions.len() ==> #[trigger] bounded(ranges, regions[i])
    &&& forall|i: int, address: u64|
        0 <= i < regions.len() && #[trigger] reaches(regions[i], address) ==> touched(
            ranges,
            address,
        )
}

/// No range ends before it begins.
pub open spec fn forward(ranges: Seq<(u64, u64)>) -> bool {
    forall|k: int| 0 <= k < ranges.len() ==> (#[trigger] ranges[k]).0 <= ranges[k].1
}

/// Each stretch of the one kind begins where a stretch of the other kind
/// begins.
proof fn lemma_begins_alike(
    ranges: Seq<(u64, u64)>,
    one: Seq<(u64, u64)>,
    other: Seq<(u64, u64)>,
    i: int,
) -> (j: int)
    requires
        forward(ranges),
        coalesced(ranges, one),
        coalesced(ranges, other),
        0 <= i < one.len(),
    ensures
        0 <= j < other.len(),
        other[j].0 == one[i].0,
{
    let a = one[i].0;
    assert(bounded(ranges, one[i]));
    let k = choose|k: int| 0 <= k < ranges.len() && (#[trigger] ranges[k]).0 == a;
    assert(held(other, ranges[k]));
    let j = choose|j: int| 0 <= j < other.len() && lies_in(ranges[k], #[trigger] other[j]);
    if other[j].0 < a {
        let below = (a - 1) as u64;
        assert(reaches(other[j], below));
        assert(touched(ranges, below));
        let n = choose|n: int| 0 <= n < ranges.len() && reaches(#[trigger] ranges[n], below);
        assert(held(one, ranges[n]));
        let at = choose|at: int| 0 <= at < one.len() && lies_in(ranges[n], #[trigger] one[at]);
        if at < i {
            assert(one[at].1 < one[i].0);
        } else if at > i {
            assert(one[i].1 < one[at].0);
        }
        assert(false);
    }
    j
}

/// Of two stretches that begin at one address, the one of the other kind
/// reaches no farther than the one of the one kind.
proof fn lemma_no_farther(
    ranges: Seq<(u64, u64)>,
    one: Seq<(u64, u64)>,
    other: Seq<(u64, u64)>,
    i: int,
    j: int,
)
    requires
        forward(ranges),
        coalesced(ranges, one),
        coalesced(ranges, other),
        0 <= i < one.len(),
        0 <= j < other.len(),
        one[i].0 == other[j].0,
    ensures
        other[j].1 <= one[i].1,
{
    let b = one[i].1;
    if b < other[j].1 {
        assert(reaches(other[j], b));
        assert(touched(ranges, b));
        let n = choose|n: int| 0 <= n < ranges.len() && reaches(#[trigger] ranges[n], b);
        assert(held(one, ranges[n]));
        let at = choose|at: int| 0 <= at < one.len() && lies_in(ranges[n], #[trigger] one[at]);
        if at < i {
            assert(one[at].1 < one[i].0);
        } else if at > i {
            assert(one[i].1 < one[at].0);
        }
        assert(false);
    }
}

/// Stretches that lie apart, in the order of their addresses, and are
/// found among each other are the same.
proof fn lemma_same_stretches(one: Seq<(u64, u64)>, other: Seq<(u64, u64)>)
    requires
        forall|i: int| 0 <= i < one.len() ==> (#[trigger] one[i]).0 <= one[i].1,
        forall|i: int, j: int| 0 <= i < j < one.len() ==> (#[trigger] one[i]).1 < (#[trigger] one[j]).0,
        forall|i: int| 0 <= i < other.len() ==> (#[trigger] other[i]).0 <= other[i].1,
        forall|i: int, j: int|
            0 <= i < j < other.len() ==> (#[trigger] other[i]).1 < (#[trigger] other[j]).0,
        forall|i: int| 0 <= i < one.len() ==> other.contains(#[trigger] one[i]),
        forall|j: int| 0 <= j < other.len() ==> one.contains(#[trigger] other[j]),
    ensures
        one == other,
    decreases one.len(),
{
    if one.len() == 0 {
        if other.len() > 0 {
            assert(one.contains(other[0]));
        }
        assert(one =~= other);
    } else {
        let last = one.len() - 1;
        assert(other.contains(one[last]));
        let j = choose|j: int| 0 <= j < other.len() && other[j] == one[last];
        let end = other.len() - 1;
        assert(one.contains(other[end]));
        let i = choose|i: int| 0 <= i < one.len() && one[i] == other[end];
        if i < last {
            assert(one[i].1 < one[last].0);
        }
        if j < end {
            assert(other[j].1 < other[end].0);
        }
        assert(i == last && j == end);
        let front = one.drop_last();
        let back = other.drop_last();
        assert forall|k: int| 0 <= k < front.len() implies back.contains(#[trigger] front[k]) by {
            assert(front[k] == one[k]);
            assert(other.contains(one[k]));
            let to = choose|to: int| 0 <= to < other.len() && other[to] == one[k];
            assert(one[k].1 < one[last].0);
            assert(to != end);
            assert(back[to] == other[to]);
        }
        assert forall|k: int| 0 <= k < back.len() implies front.contains(#[trigger] back[k]) by {
            assert(back[k] == other[k]);
            assert(one.contains(other[k]));
            let to = choose|to: int| 0 <= to < one.len() && one[to] == other[k];
            assert(other[k].1 < other[end].0);
            assert(to != last);
            assert(front[to] == one[to]);
        }
        assert forall|a: int, b: int| 0 <= a < b < front.len() implies (#[trigger] front[a]).1 < (
        #[trigger] front[b]).0 by {
            assert(one[a].1 < one[b].0);
        }
        assert forall|a: int, b: int| 0 <= a < b < back.len() implies (#[trigger] back[a]).1 < (
        #[trigger] back[b]).0 by {
            assert(other[a].1 < other[b].0);
        }
        lemma_same_stretches(front, back);
        assert(one =~= front.push(one[last]));
        assert(other =~= back.push(other[end]));
    }
}

/// Ranges take up the same stretches however these are found: what
/// `coalesced` asks of the stretches leaves no choice.
pub proof fn lemma_coalesced_once(
    ranges: Seq<(u64, u64)>,
    one: Seq<(u64, u64)>,
    other: Seq<(u64, u64)>,
)
    requires
        forward(ranges),
        coalesced(ranges, one),
        coalesced(ranges, other),
    ensures
        one == other,
{
    assert forall|i: int| 0 <= i < one.len() implies other.contains(#[trigger] one[i]) by {
        let j = lemma_begins_alike(ranges, one, other, i);
        lemma_no_farther(ranges, one, other, i, j);
        lemma_no_farther(ranges, other, one, j, i);
        assert(other[j] == one[i]);
    }
    assert forall|j: int| 0 <= j < other.len() implies one.contains(#[trigger] other[j]) by {
        let i = lemma_begins_alike(ranges, other, one, j);
        lemma_no_farther(ranges, other, one, j, i);
        lemma_no_farther(ranges, one, other, i, j);
        assert(one[i] == other[j]);
    }
    lemma_same_stretches(one, other);
}

/// The range that an allocation takes up.
pub open spec fn range_of(data: &Data, id: AllocationId) -> (u64, u64) {
    (data.allocations[id as int].start(), data.allocations[id as int].end())
}

/// The ranges that some allocations take up.
pub open spec fn ranges_of(data: &Data, ids: Seq<AllocationId>) -> Seq<(u64, u64)> {
    ids.map_values(|id: AllocationId| range_of(data, id))
}

/// The stretches of an answer, each as a pair of its two ends.
pub open spec fn pairs(regions: Seq<[u64; 2]>) -> Seq<(u64, u64)> {
    Seq::new(regions.len(), |i: int| (regions[i][0], regions[i][1]))
}

/// The stretches while ranges are still taken in: those that are done, and
/// the one that the next range may still make longer.
spec fn underway(ranges: Seq<(u64, u64)>, done: Seq<(u64, u64)>, open: Option<(u64, u64)>) -> bool {
    match open {
        None => ranges.len() == 0 && done.len() == 0,
        Some(open) => coalesced(ranges, done.push(open)),
    }
}

/// The stretches that are done once one more range is taken in.
spec fn done_after(done: Seq<(u64, u64)>, open: Option<(u64, u64)>, range: (u64, u64)) -> Seq<
    (u64, u64),
> {
    match open {
        Some(open) if range.0 > open.1 => done.push(open),
        _ => done,
    }
}

/// The open stretch once one more range is taken in: the range belongs to
/// the open stretch if it begins where the stretch ends, or before, and the
/// stretch then reaches as far as the one of the two that reaches farther.
spec fn open_after(open: Option<(u64, u64)>, range: (u64, u64)) -> (u64, u64) {
    match open {
        Some(open) if range.0 <= open.1 => (open.0, if range.1 > open.1 { range.1 } else { open.1 }),
        _ => range,
    }
}

/// What held of some ranges holds of them and one more.
proof fn lemma_one_more(ranges: Seq<(u64, u64)>, range: (u64, u64))
    ensures
        forall|address: u64| begins(ranges, address) ==> begins(ranges.push(range), address),
        forall|address: u64| ends(ranges, address) ==> ends(ranges.push(range), address),
        forall|address: u64| touched(ranges, address) ==> touched(ranges.push(range), address),
        forall|region: (u64, u64)| bounded(ranges, region) ==> bounded(ranges.push(range), region),
        begins(ranges.push(range), range.0),
        ends(ranges.push(range), range.1),
        forall|address: u64| reaches(range, address) ==> touched(ranges.push(range), address),
{
    let more = ranges.push(range);
    let last = ranges.len() as int;
    assert(more[last] == range);
    assert forall|address: u64| begins(ranges, address) implies begins(more, address) by {
        let k = choose|k: int| 0 <= k < ranges.len() && (#[trigger] ranges[k]).0 == address;
        assert(more[k].0 == address);
    }
    assert forall|address: u64| ends(ranges, address) implies ends(more, address) by {
        let k = choose|k: int| 0 <= k < ranges.len() && (#[trigger] ranges[k]).1 == address;
        assert(more[k].1 == address);
    }
    assert forall|address: u64| touched(ranges, address) implies touched(more, address) by {
        let k = choose|k: int| 0 <= k < ranges.len() && reaches(#[trigger] ranges[k], address);
        assert(reaches(more[k], address));
    }
    assert forall|address: u64| reaches(range, address) implies touched(more, address) by {
        assert(reaches(more[last], address));
    }
}

/// The first range of all makes the first stretch.
proof fn lemma_take_in_first(range: (u64, u64))
    requires
        range.0 <= range.1,
    ensures
        coalesced(seq![range], seq![range]),
{
    let ranges = seq![range];
    assert(ranges[0] == range);
    assert(lies_in(range, ranges[0]));
    assert(held(ranges, ranges[0]));
    assert(begins(ranges, range.0) && ends(ranges, range.1));
    assert(bounded(ranges, ranges[0]));
    assert forall|i: int, address: u64|
        0 <= i < ranges.len() && #[trigger] reaches(ranges[i], address) implies touched(
        ranges,
        address,
    ) by {
        assert(reaches(ranges[0], address));
    }
}

/// A range that begins where the last stretch ends, or before, makes that
/// stretch reach as far as the one of the two that reaches farther.
proof fn lemma_take_in_same(
    ranges: Seq<(u64, u64)>,
    done: Seq<(u64, u64)>,
    open: (u64, u64),
    range: (u64, u64),
)
    requires
        coalesced(ranges, done.push(open)),
        range.0 <= range.1,
        range.0 <= open.1,
        forall|k: int| 0 <= k < ranges.len() ==> (#[trigger] ranges[k]).0 <= range.0,
    ensures
        coalesced(ranges.push(range), done.push(open_after(Some(open), range))),
{
    let more = ranges.push(range);
    let last = ranges.len() as int;
    let before = done.push(open);
    let wide = open_after(Some(open), range);
    let after = done.push(wide);
    let at = done.len() as int;
    lemma_one_more(ranges, range);
    assert(more[last] == range);
    assert(before[at] == open && after[at] == wide);
    assert(bounded(ranges, before[at]));
    let first = choose|k: int| 0 <= k < ranges.len() && (#[trigger] ranges[k]).0 == open.0;
    assert(ranges[first].0 <= range.0);
    assert(open.0 <= open.1);
    assert forall|i: int| 0 <= i < after.len() implies (#[trigger] after[i]).0 <= after[i].1 by {
        if i < at {
            assert(after[i] == before[i]);
        }
    }
    assert forall|i: int, j: int| 0 <= i < j < after.len() implies (#[trigger] after[i]).1 < (
    #[trigger] after[j]).0 by {
        assert(after[i] == before[i]);
        assert(before[i].1 < before[j].0);
    }
    assert forall|k: int| 0 <= k < more.len() implies #[trigger] held(after, more[k]) by {
        if k < last {
            assert(more[k] == ranges[k]);
            assert(held(before, ranges[k]));
            let i = choose|i: int| 0 <= i < before.len() && lies_in(ranges[k], #[trigger] before[i]);
            if i < at {
                assert(after[i] == before[i]);
            }
            assert(lies_in(more[k], after[i]));
        } else {
            assert(lies_in(more[k], after[at]));
        }
    }
    assert forall|i: int| 0 <= i < after.len() implies #[trigger] bounded(more, after[i]) by {
        assert(bounded(ranges, before[i]));
        if i < at {
            assert(after[i] == before[i]);
        }
    }
    assert forall|i: int, address: u64|
        0 <= i < after.len() && #[trigger] reaches(after[i], address) implies touched(
        more,
        address,
    ) by {
        if i < at {
            assert(after[i] == before[i]);
            assert(reaches(before[i], address));
        } else if address < open.1 {
            assert(reaches(before[at], address));
        } else {
            assert(reaches(range, address));
        }
    }
}

/// A range that begins behind the end of the last stretch opens a stretch
/// of its own.
proof fn lemma_take_in_next(ranges: Seq<(u64, u64)>, before: Seq<(u64, u64)>, range: (u64, u64))
    requires
        coalesced(ranges, before),
        before.len() > 0,
        range.0 <= range.1,
        range.0 > before.last().1,
    ensures
        coalesced(ranges.push(range), before.push(range)),
{
    let more = ranges.push(range);
    let last = ranges.len() as int;
    let after = before.push(range);
    let end = before.len() as int;
    lemma_one_more(ranges, range);
    assert(more[last] == range);
    assert(after[end] == range);
    assert forall|i: int| 0 <= i < before.len() implies (#[trigger] before[i]).1 <= before.last().1 by {
        if i < end - 1 {
            assert(before[i].1 < before[end - 1].0);
            assert(before[end - 1].0 <= before[end - 1].1);
        }
    }
    assert forall|i: int| 0 <= i < after.len() implies (#[trigger] after[i]).0 <= after[i].1 by {
        if i < end {
            assert(after[i] == before[i]);
        }
    }
    assert forall|i: int, j: int| 0 <= i < j < after.len() implies (#[trigger] after[i]).1 < (
    #[trigger] after[j]).0 by {
        assert(after[i] == before[i]);
        if j < end {
            assert(after[j] == before[j]);
        } else {
            assert(before[i].1 <= before.last().1);
        }
    }
    assert forall|k: int| 0 <= k < more.len() implies #[trigger] held(after, more[k]) by {
        if k < last {
            assert(more[k] == ranges[k]);
            assert(held(before, ranges[k]));
            let i = choose|i: int| 0 <= i < before.len() && lies_in(ranges[k], #[trigger] before[i]);
            assert(after[i] == before[i]);
            assert(lies_in(more[k], after[i]));
        } else {
            assert(lies_in(more[k], after[end]));
        }
    }
    assert forall|i: int| 0 <= i < after.len() implies #[trigger] bounded(more, after[i]) by {
        if i < end {
            assert(after[i] == before[i]);
            assert(bounded(ranges, before[i]));
        }
    }
    assert forall|i: int, address: u64|
        0 <= i < after.len() && #[trigger] reaches(after[i], address) implies touched(
        more,
        address,
    ) by {
        if i < end {
            assert(after[i] == before[i]);
            assert(reaches(before[i], address));
        }
    }
}

/// A range that begins no lower than all ranges before it is taken in.
proof fn lemma_take_in(
    ranges: Seq<(u64, u64)>,
    done: Seq<(u64, u64)>,
    open: Option<(u64, u64)>,
    range: (u64, u64),
)
    requires
        underway(ranges, done, open),
        range.0 <= range.1,
        forall|k: int| 0 <= k < ranges.len() ==> (#[trigger] ranges[k]).0 <= range.0,
    ensures
        underway(ranges.push(range), done_after(done, open, range), Some(open_after(open, range))),
{
    match open {
        None => {
            lemma_take_in_first(range);
            assert(ranges.push(range) =~= seq![range]);
            assert(done.push(range) =~= seq![range]);
        },
        Some(o) => {
            if range.0 <= o.1 {
                lemma_take_in_same(ranges, done, o, range);
            } else {
                lemma_take_in_next(ranges, done.push(o), range);
            }
        },
    }
}

fn main_heap_start(data: &Data) -> (r: u64)
    requires
        data.wf(),
    ensures
        r == main_heap_start_of(data, data.sorted_by_address@),
{
    let index = &data.sorted_by_address;
    let mut i: usize = 0;
    assert(index@.skip(0) =~= index@);
    while i < index.len()
        invariant
            data.wf(),
            index == &data.sorted_by_address,
            0 <= i <= index.len(),
            main_heap_start_of(data, index@) == main_heap_start_of(data, index@.skip(i as int)),
        decreases index.len() - i,
    {
        let allocation = data.get_allocation(index[i]);
        assert(index@.skip(i as int).drop_first() =~= index@.skip(i + 1));
        if !allocation.is_mmaped && allocation.in_main_arena {
            return allocation.range_start();
        }
        i += 1;
    }
    0
}

fn main_heap_end(data: &Data) -> (r: u64)
    requires
        data.wf(),
    ensures
        r == main_heap_end_of(data, data.sorted_by_address@),
{
    let index = &data.sorted_by_address;
    let mut i: usize = index.len();
    assert(index@.take(i as int) =~= index@);
    while i > 0
        invariant
            data.wf(),
            index == &data.sorted_by_address,
            0 <= i <= index.len(),
            main_heap_end_of(data, index@) == main_heap_end_of(data, index@.take(i as int)),
        decreases i,
    {
        let allocation = data.get_allocation(index[i - 1]);
        assert(data.allocation_wf(*allocation));
        assert(index@.take(i as int).drop_last() =~= index@.take(i - 1));
        if !allocation.is_mmaped && allocation.in_main_arena {
            return allocation.range_end();
        }
        i -= 1;
    }
    0
}

impl ResponseRegions {
    /// The record shows where the main heap of `data` lies, as numbers and
    /// written to the base ten, and the stretches that the allocations take
    /// up that `filter` accepts.
    pub open spec fn shows<F: Fn(DataId, AllocationId, &Allocation) -> bool>(
        &self,
        data: &Data,
        filter: &AllocationFilter<F>,
    ) -> bool {
        &&& self.main_heap_start == main_heap_start_of(data, data.sorted_by_address@)
        &&& self.main_heap_end == main_heap_end_of(data, data.sorted_by_address@)
        &&& self.main_heap_start_s@ == digits_of(
            self.main_heap_start,
            10,
            decimal_width(self.main_heap_start),
            false,
        )
        &&& self.main_heap_end_s@ == digits_of(
            self.main_heap_end,
            10,
            decimal_width(self.main_heap_end),
            false,
        )
        &&& coalesced(
            ranges_of(data, matching(data, filter, data.sorted_by_address@)),
            pairs(self.regions@),
        )
    }
}

/// Two answers to one request show the same stretches and the same main
/// heap: a capture and a filter decide what is shown.
pub proof fn lemma_regions_once<F: Fn(DataId, AllocationId, &Allocation) -> bool>(
    data: &Data,
    filter: &AllocationFilter<F>,
    one: &ResponseRegions,
    other: &ResponseRegions,
)
    requires
        data.wf(),
        one.shows(data, filter),
        other.shows(data, filter),
    ensures
        pairs(one.regions@) == pairs(other.regions@),
        one.main_heap_start == other.main_heap_start,
        one.main_heap_end == other.main_heap_end,
        one.main_heap_start_s@ == other.main_heap_start_s@,
        one.main_heap_end_s@ == other.main_heap_end_s@,
{
    let index = data.sorted_by_address@;
    let ids = matching(data, filter, index);
    let ranges = ranges_of(data, ids);
    assert forall|k: int| 0 <= k < ranges.len() implies (#[trigger] ranges[k]).0 <= ranges[k].1 by {
        index.lemma_filter_contains_rev(crate::allocations::acceptance(data, filter), ids[k]);
        let at = choose|at: int| 0 <= at < index.len() && index[at] == ids[k];
        assert(data.index_wf(index));
        assert(data.allocation_wf(data.allocations[index[at] as int]));
    }
    lemma_coalesced_once(ranges, pairs(one.regions@), pairs(other.regions@));
}

/// The stretches of the address space that the allocations take up that
/// `filter` accepts. Allocations that overlap, touch or lie within each
/// other make one stretch.
pub fn generate_regions<F: Fn(DataId, AllocationId, &Allocation) -> bool>(
    data: &Data,
    filter: &AllocationFilter<F>,
) -> (r: ResponseRegions)
    requires
        data.wf(),
        filter.wf(),
    ensures
        r.shows(data, filter),
{
    let main_heap_start: u64 = main_heap_start(data);
    let main_heap_end: u64 = main_heap_end(data);
    let index = &data.sorted_by_address;
    let ghost accepted = crate::allocations::acceptance(data, filter);

    let mut regions: Vec<[u64; 2]> = Vec::new();
    let mut open: Option<(u64, u64)> = None;
    let mut i: usize = 0;
    while i < index.len()
        invariant
            data.wf(),
            filter.wf(),
            index == &data.sorted_by_address,
            accepted == crate::allocations::acceptance(data, filter),
            0 <= i <= index.len(),
            underway(ranges_of(data, index@.take(i as int).filter(accepted)), pairs(regions@), open),
        decreases index.len() - i,
    {
        let id: AllocationId = index[i];
        let allocation = data.get_allocation(id);
        let ghost taken = index@.take(i as int).filter(accepted);
        let ghost ranges = ranges_of(data, taken);
        let ghost done = pairs(regions@);
        proof {
            reveal(Seq::filter);
            assert(index@.take(i + 1).drop_last() =~= index@.take(i as int));
            assert(data.allocation_wf(*allocation));
        }
        if filter.try_match(data, id, allocation) {
            let start: u64 = allocation.range_start();
            let end: u64 = allocation.range_end();
            proof {
                assert(index@.take(i + 1).filter(accepted) == taken.push(id));
                assert(ranges_of(data, taken.push(id)) =~= ranges.push((start, end)));
                assert forall|k: int| 0 <= k < ranges.len() implies (#[trigger] ranges[k]).0 <= start by {
                    index@.take(i as int).lemma_filter_contains_rev(accepted, taken[k]);
                    let at = choose|at: int| 0 <= at < i && index@.take(i as int)[at] == taken[k];
                    assert(index@[at] == taken[k]);
                    assert(data.index_sorted(index@, crate::protocol::AllocSortBy::Address));
                    assert(crate::capture::rank_of(
                        data.allocations[index@[at] as int],
                        crate::protocol::AllocSortBy::Address,
                    ) <= crate::capture::rank_of(
                        data.allocations[index@[i as int] as int],
                        crate::protocol::AllocSortBy::Address,
                    ));
                }
                lemma_take_in(ranges, done, open, (start, end));
            }
            match open {
                Some(range) => {
                    if start <= range.1 {
                        open = Some((range.0, if end > range.1 { end } else { range.1 }));
                    } else {
                        regions.push([range.0, range.1]);
                        assert(pairs(regions@) =~= done.push(range));
                        open = Some((start, end));
                    }
                },
                None => {
                    open = Some((start, end));
                },
            }
        }
        i += 1;
    }
    assert(index@.take(index.len() as int) =~= index@);
    let ghost ranges = ranges_of(data, index@.filter(accepted));
    let ghost done = pairs(regions@);
    match open {
        Some(range) => {
            regions.push([range.0, range.1]);
            assert(pairs(regions@) =~= done.push(range));
        },
        None => {},
    }
    assert(coalesced(ranges, pairs(regions@)));

    ResponseRegions {
        main_heap_start,
        main_heap_end,
        main_heap_start_s: to_decimal(main_heap_start),
        main_heap_end_s: to_decimal(main_heap_end),
        regions,
    }
}

} // verus!
