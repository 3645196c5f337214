//! Checking that a capture is what the query engine takes it to be.

use vstd::prelude::*;
use crate::capture::{
    rank_of, Allocation, AllocationId, Data, Frame, GroupStatistics, MmapOperation, Operation,
    OPERATION_LIMIT,
};
use crate::protocol::AllocSortBy;
use crate::timestamp::Timestamp;

verus! {

fn covers(data: &Data, timestamp: Timestamp) -> (r: bool)
    ensures
        r == data.covers(timestamp),
{
    data.initial_timestamp.usecs <= timestamp.usecs && timestamp.usecs <= data.last_timestamp.usecs
}

fn allocation_ok(data: &Data, allocation: &Allocation) -> (r: bool)
    ensures
        r == data.allocation_wf(*allocation),
{
    if allocation.size > u64::MAX - allocation.pointer {
        return false;
    }
    if allocation.backtrace as usize >= data.backtraces.len() {
        return false;
    }
    if !covers(data, allocation.timestamp) {
        return false;
    }
    match allocation.deallocation {
        Some(deallocation) => allocation.timestamp.usecs <= deallocation.timestamp.usecs && covers(
            data,
            deallocation.timestamp,
        ),
        None => true,
    }
}

fn allocations_ok(data: &Data) -> (r: bool)
    ensures
        r == (forall|i: int|
            0 <= i < data.allocations.len() ==> data.allocation_wf(#[trigger] data.allocations[i])),
{
    let mut i: usize = 0;
    while i < data.allocations.len()
        invariant
            0 <= i <= data.allocations.len(),
            forall|k: int| 0 <= k < i ==> data.allocation_wf(#[trigger] data.allocations[k]),
        decreases data.allocations.len() - i,
    {
        if !allocation_ok(data, &data.allocations[i]) {
            return false;
        }
        i += 1;
    }
    true
}

fn known(data: &Data, id: AllocationId) -> (r: bool)
    ensures
        r == (id < data.allocations.len()),
{
    id < data.allocations.len() as u64
}

fn operation_ok(data: &Data, operation: &Operation) -> (r: bool)
    ensures
        r == data.operation_wf(*operation),
{
    match operation {
        Operation::Allocation { allocation } => known(data, *allocation),
        Operation::Deallocation { allocation } => known(data, *allocation)
            && data.allocations[*allocation as usize].deallocation.is_some(),
        Operation::Reallocation { new_allocation, old_allocation } => known(data, *new_allocation)
            && known(data, *old_allocation),
    }
}

fn operation_time(data: &Data, operation: &Operation) -> (r: Timestamp)
    requires
        data.operation_wf(*operation),
    ensures
        r == data.operation_timestamp(*operation),
{
    match operation {
        Operation::Allocation { allocation } => data.allocations[*allocation as usize].timestamp,
        Operation::Deallocation { allocation } => match data.allocations[*allocation as usize].deallocation {
            Some(deallocation) => deallocation.timestamp,
            None => Timestamp::min(),
        },
        Operation::Reallocation { new_allocation, old_allocation } => data.allocations[*new_allocation as usize].timestamp,
    }
}

fn operations_ok(data: &Data) -> (r: bool)
    ensures
        r == data.operations_wf(),
{
    let mut latest: u64 = 0;
    let mut i: usize = 0;
    while i < data.operations.len()
        invariant
            0 <= i <= data.operations.len(),
            forall|k: int| 0 <= k < i ==> data.operation_wf(#[trigger] data.operations[k]),
            forall|k: int, j: int|
                0 <= k <= j < i ==> data.operation_timestamp(#[trigger] data.operations[k]).usecs
                    <= data.operation_timestamp(#[trigger] data.operations[j]).usecs,
            i > 0 ==> latest == data.operation_timestamp(data.operations[i - 1]).usecs,
        decreases data.operations.len() - i,
    {
        let operation = &data.operations[i];
        if !operation_ok(data, operation) {
            return false;
        }
        let time: u64 = operation_time(data, operation).usecs;
        if i > 0 && time < latest {
            assert(data.operation_timestamp(data.operations[i - 1]).usecs
                > data.operation_timestamp(data.operations[i as int]).usecs);
            return false;
        }
        proof {
            assert forall|k: int, j: int| 0 <= k <= j < i + 1 implies data.operation_timestamp(
                #[trigger] data.operations[k],
            ).usecs <= data.operation_timestamp(#[trigger] data.operations[j]).usecs by {
                if j == i && k < i {
                    assert(data.operation_timestamp(data.operations[k]).usecs
                        <= data.operation_timestamp(data.operations[i - 1]).usecs);
                }
            }
        }
        latest = time;
        i += 1;
    }
    true
}

fn backtraces_ok(data: &Data) -> (r: bool)
    ensures
        r == (forall|i: int, j: int|
            0 <= i < data.backtraces.len() && 0 <= j < data.backtraces[i].len() ==> (
            #[trigger] data.backtraces[i][j]) < data.frames.len()),
{
    let mut i: usize = 0;
    while i < data.backtraces.len()
        invariant
            0 <= i <= data.backtraces.len(),
            forall|k: int, j: int|
                0 <= k < i && 0 <= j < data.backtraces[k].len() ==> (#[trigger] data.backtraces[k][j])
                    < data.frames.len(),
        decreases data.backtraces.len() - i,
    {
        let backtrace = &data.backtraces[i];
        let mut j: usize = 0;
        while j < backtrace.len()
            invariant
                0 <= i < data.backtraces.len(),
                backtrace == &data.backtraces[i as int],
                0 <= j <= backtrace.len(),
                forall|k: int| 0 <= k < j ==> (#[trigger] data.backtraces[i as int][k]) < data.frames.len(),
            decreases backtrace.len() - j,
        {
            if backtrace[j] >= data.frames.len() {
                assert(!(data.backtraces[i as int][j as int] < data.frames.len()));
                return false;
            }
            j += 1;
        }
        i += 1;
    }
    true
}

fn string_ok(data: &Data, id: Option<usize>) -> (r: bool)
    ensures
        r == (id matches Some(id) ==> id < data.strings.len()),
{
    match id {
        Some(id) => id < data.strings.len(),
        None => true,
    }
}

fn frames_ok(data: &Data) -> (r: bool)
    ensures
        r == (forall|i: int|
            0 <= i < data.frames.len() ==> (#[trigger] data.frames[i]).wf(data.strings.len() as int)),
{
    let mut i: usize = 0;
    while i < data.frames.len()
        invariant
            0 <= i <= data.frames.len(),
            forall|k: int| 0 <= k < i ==> (#[trigger] data.frames[k]).wf(data.strings.len() as int),
        decreases data.frames.len() - i,
    {
        let frame: &Frame = &data.frames[i];
        if !(string_ok(data, frame.library) && string_ok(data, frame.function) && string_ok(
            data,
            frame.raw_function,
        ) && string_ok(data, frame.source)) {
            return false;
        }
        i += 1;
    }
    true
}

fn statistics_ok(data: &Data) -> (r: bool)
    ensures
        r == (forall|i: int|
            0 <= i < data.group_statistics.len() ==> data.statistics_wf(
                #[trigger] data.group_statistics[i],
            )),
{
    let mut i: usize = 0;
    while i < data.group_statistics.len()
        invariant
            0 <= i <= data.group_statistics.len(),
            forall|k: int| 0 <= k < i ==> data.statistics_wf(#[trigger] data.group_statistics[k]),
        decreases data.group_statistics.len() - i,
    {
        let statistics: &GroupStatistics = &data.group_statistics[i];
        if !(statistics.free_count <= statistics.alloc_count && statistics.first_allocation.usecs
            <= statistics.last_allocation.usecs && covers(data, statistics.first_allocation) && covers(
            data,
            statistics.last_allocation,
        ) && covers(data, statistics.max_total_usage_first_seen_at)) {
            return false;
        }
        i += 1;
    }
    true
}

fn mmaps_ok(data: &Data) -> (r: bool)
    ensures
        r == (forall|i: int|
            0 <= i < data.mmap_operations.len() ==> (#[trigger] data.mmap_operations[i]).backtrace()
                < data.backtraces.len()),
{
    let mut i: usize = 0;
    while i < data.mmap_operations.len()
        invariant
            0 <= i <= data.mmap_operations.len(),
            forall|k: int|
                0 <= k < i ==> (#[trigger] data.mmap_operations[k]).backtrace() < data.backtraces.len(),
        decreases data.mmap_operations.len() - i,
    {
        let backtrace: u32 = match data.mmap_operations[i] {
            MmapOperation::Mmap(map) => map.backtrace,
            MmapOperation::Munmap(unmap) => unmap.backtrace,
        };
        if backtrace as usize >= data.backtraces.len() {
            return false;
        }
        i += 1;
    }
    true
}

fn mallopts_ok(data: &Data) -> (r: bool)
    ensures
        r == (forall|i: int|
            0 <= i < data.mallopts.len() ==> (#[trigger] data.mallopts[i]).backtrace
                < data.backtraces.len()),
{
    let mut i: usize = 0;
    while i < data.mallopts.len()
        invariant
            0 <= i <= data.mallopts.len(),
            forall|k: int| 0 <= k < i ==> (#[trigger] data.mallopts[k]).backtrace < data.backtraces.len(),
        decreases data.mallopts.len() - i,
    {
        if data.mallopts[i].backtrace as usize >= data.backtraces.len() {
            return false;
        }
        i += 1;
    }
    true
}

fn rank(allocation: &Allocation, sort_by: AllocSortBy) -> (r: u64)
    ensures
        r == rank_of(*allocation, sort_by),
{
    match sort_by {
        AllocSortBy::Timestamp => allocation.timestamp.usecs,
        AllocSortBy::Address => allocation.pointer,
        AllocSortBy::Size => allocation.size,
    }
}

fn index_ok(data: &Data, index: &Vec<AllocationId>, sort_by: AllocSortBy) -> (r: bool)
    ensures
        r == (data.index_wf(index@) && data.index_sorted(index@, sort_by)),
{
    let count: usize = data.allocations.len();
    if index.len() != count {
        return false;
    }
    let mut seen: Vec<bool> = Vec::new();
    let mut k: usize = 0;
    while k < count
        invariant
            0 <= k <= count,
            seen.len() == k,
            forall|v: int| 0 <= v < k ==> !seen[v],
        decreases count - k,
    {
        seen.push(false);
        k += 1;
    }
    let mut latest: u64 = 0;
    let mut i: usize = 0;
    while i < count
        invariant
            count == data.allocations.len(),
            index.len() == count,
            seen.len() == count,
            0 <= i <= count,
            forall|k: int| 0 <= k < i ==> (#[trigger] index[k]) < count,
            forall|k: int| 0 <= k < i ==> seen[(#[trigger] index[k]) as int],
            forall|v: int|
                0 <= v < count && #[trigger] seen[v] ==> exists|k: int| 0 <= k < i && index[k] == v,
            forall|k: int, j: int| 0 <= k < j < i ==> index[k] != index[j],
            forall|k: int, j: int|
                0 <= k <= j < i ==> rank_of(data.allocations[(#[trigger] index[k]) as int], sort_by)
                    <= rank_of(data.allocations[(#[trigger] index[j]) as int], sort_by),
            i > 0 ==> latest == rank_of(data.allocations[index[i - 1] as int], sort_by),
        decreases count - i,
    {
        let id: AllocationId = index[i];
        if id >= count as u64 {
            assert(!(index[i as int] < data.allocations.len()));
            return false;
        }
        if seen[id as usize] {
            proof {
                let before = choose|before: int| 0 <= before < i && index[before] == id;
                assert(index[before] == index[i as int]);
            }
            return false;
        }
        let this: u64 = rank(&data.allocations[id as usize], sort_by);
        if i > 0 && this < latest {
            assert(rank_of(data.allocations[index[i - 1] as int], sort_by) > rank_of(
                data.allocations[index[i as int] as int],
                sort_by,
            ));
            return false;
        }
        let ghost marked = seen@;
        seen.set(id as usize, true);
        proof {
            assert forall|v: int| 0 <= v < count && #[trigger] seen[v] implies exists|k: int|
                0 <= k < i + 1 && index[k] == v by {
                if v == id {
                    assert(index[i as int] == v);
                } else {
                    assert(marked[v]);
                    let before = choose|before: int| 0 <= before < i && index[before] == v;
                    assert(index[before] == v);
                }
            }
            assert forall|k: int, j: int| 0 <= k < j < i + 1 implies index[k] != index[j] by {
                if j == i {
                    assert(marked[index[k] as int]);
                }
            }
            assert forall|k: int, j: int| 0 <= k <= j < i + 1 implies rank_of(
                data.allocations[(#[trigger] index[k]) as int],
                sort_by,
            ) <= rank_of(data.allocations[(#[trigger] index[j]) as int], sort_by) by {
                if j == i && k < i {
                    assert(rank_of(data.allocations[index[k] as int], sort_by) <= rank_of(
                        data.allocations[index[i - 1] as int],
                        sort_by,
                    ));
                }
            }
        }
        latest = this;
        i += 1;
    }
    true
}

impl Data {
    /// Whether the capture is well formed.
    pub fn validate(&self) -> (r: bool)
        ensures
            r == self.wf(),
    {
        if self.initial_timestamp.usecs > self.last_timestamp.usecs {
            return false;
        }
        if self.total_freed > self.total_allocated || self.total_freed_count
            > self.total_allocated_count {
            return false;
        }
        if self.operations.len() as u64 > OPERATION_LIMIT {
            return false;
        }
        if self.backtraces.len() as u64 > u32::MAX as u64 {
            return false;
        }
        if self.group_statistics.len() != self.backtraces.len() {
            return false;
        }
        if !allocations_ok(self) {
            return false;
        }
        if !operations_ok(self) {
            return false;
        }
        if !backtraces_ok(self) {
            return false;
        }
        if !frames_ok(self) {
            return false;
        }
        if !statistics_ok(self) {
            return false;
        }
        if !mmaps_ok(self) {
            return false;
        }
        if !mallopts_ok(self) {
            return false;
        }
        if !index_ok(self, &self.sorted_by_timestamp, AllocSortBy::Timestamp) {
            return false;
        }
        if !index_ok(self, &self.sorted_by_address, AllocSortBy::Address) {
            return false;
        }
        if !index_ok(self, &self.sorted_by_size, AllocSortBy::Size) {
            return false;
        }
        true
    }
}

} // verus!
