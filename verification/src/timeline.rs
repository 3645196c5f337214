//! How much memory was in use over the time of a capture.

use vstd::prelude::*;
use crate::capture::{Data, Operation};

verus! {

/// What was in use at one moment.
#[derive(Clone, Copy, Debug, PartialEq, Eq, Structural)]
pub struct TimelinePoint {
    /// The moment, in milliseconds.
    pub timestamp: u64,
    /// The bytes in use.
    pub memory_usage: u64,
    /// The allocations in use.
    pub allocations: u64,
    /// The allocations made since the point before.
    pub allocations_per_time: u64,
    /// The allocations given back since the point before.
    pub deallocations_per_time: u64,
}

/// The timeline of a capture, column by column.
#[derive(Debug)]
pub struct ResponseTimeline {
    pub xs: Vec<u64>,
    pub size_delta: Vec<i64>,
    pub count_delta: Vec<i64>,
    pub allocated_size: Vec<u64>,
    pub allocated_count: Vec<u64>,
    pub allocations: Vec<u32>,
    pub deallocations: Vec<u32>,
}

/// What was in use at the point before `at`: nothing before the first.
pub open spec fn size_before(points: Seq<TimelinePoint>, at: int) -> int {
    if at == 0 {
        0
    } else {
        points[at - 1].memory_usage as int
    }
}

pub open spec fn count_before(points: Seq<TimelinePoint>, at: int) -> int {
    if at == 0 {
        0
    } else {
        points[at - 1].allocations as int
    }
}

impl ResponseTimeline {
    /// Each column has one entry for each point: the moment in seconds, what
    /// was in use, by how much that differs from the point before, and how
    /// many allocations were made and given back, counted modulo 2^32.
    pub open spec fn shows(&self, points: Seq<TimelinePoint>) -> bool {
        &&& self.xs.len() == points.len()
        &&& self.size_delta.len() == points.len()
        &&& self.count_delta.len() == points.len()
        &&& self.allocated_size.len() == points.len()
        &&& self.allocated_count.len() == points.len()
        &&& self.allocations.len() == points.len()
        &&& self.deallocations.len() == points.len()
        &&& forall|i: int|
            0 <= i < points.len() ==> {
                &&& #[trigger] self.xs[i] == points[i].timestamp / 1000
                &&& self.size_delta[i] == points[i].memory_usage - size_before(points, i)
                &&& self.count_delta[i] == points[i].allocations - count_before(points, i)
                &&& self.allocated_size[i] == points[i].memory_usage
                &&& self.allocated_count[i] == points[i].allocations
                &&& self.allocations[i] == points[i].allocations_per_time % 0x1_0000_0000
                &&& self.deallocations[i] == points[i].deallocations_per_time % 0x1_0000_0000
            }
    }
}

/// Lays the points of a timeline out in columns.
pub fn build_timeline(points: &Vec<TimelinePoint>) -> (r: ResponseTimeline)
    requires
        forall|i: int|
            0 <= i < points.len() ==> (#[trigger] points[i]).memory_usage <= i64::MAX
                && points[i].allocations <= i64::MAX,
    ensures
        r.shows(points@),
{
    let mut xs: Vec<u64> = Vec::new();
    let mut size_delta: Vec<i64> = Vec::new();
    let mut count_delta: Vec<i64> = Vec::new();
    let mut allocated_size: Vec<u64> = Vec::new();
    let mut allocated_count: Vec<u64> = Vec::new();
    let mut allocations: Vec<u32> = Vec::new();
    let mut deallocations: Vec<u32> = Vec::new();

    let mut last_size: i64 = 0;
    let mut last_count: i64 = 0;
    let mut i: usize = 0;
    while i < points.len()
        invariant
            0 <= i <= points.len(),
            forall|i: int|
                0 <= i < points.len() ==> (#[trigger] points[i]).memory_usage <= i64::MAX
                    && points[i].allocations <= i64::MAX,
            last_size == size_before(points@, i as int),
            last_count == count_before(points@, i as int),
            (ResponseTimeline {
                xs,
                size_delta,
                count_delta,
                allocated_size,
                allocated_count,
                allocations,
                deallocations,
            }).shows(points@.take(i as int)),
        decreases points.len() - i,
    {
        let point = points[i];
        xs.push(point.timestamp / 1000);
        size_delta.push(point.memory_usage as i64 - last_size);
        count_delta.push(point.allocations as i64 - last_count);
        allocated_size.push(point.memory_usage);
        allocated_count.push(point.allocations);
        allocations.push((point.allocations_per_time % 0x1_0000_0000) as u32);
        deallocations.push((point.deallocations_per_time % 0x1_0000_0000) as u32);

        last_size = point.memory_usage as i64;
        last_count = point.allocations as i64;
        i += 1;
    }
    assert(points@.take(points.len() as int) =~= points@);
    ResponseTimeline {
        xs,
        size_delta,
        count_delta,
        allocated_size,
        allocated_count,
        allocations,
        deallocations,
    }
}

/// The allocation that an operation is about: the new one, where it is a
/// reallocation.
pub open spec fn subject_of(operation: Operation) -> u64 {
    match operation {
        Operation::Allocation { allocation } => allocation,
        Operation::Deallocation { allocation } => allocation,
        Operation::Reallocation { new_allocation, old_allocation } => new_allocation,
    }
}

/// Whether the allocation that an operation is about was never given back.
pub open spec fn about_leaked(data: &Data) -> spec_fn(Operation) -> bool {
    |operation: Operation| data.allocations[subject_of(operation) as int].deallocation is None
}

/// The operations from which the timeline of the leaked allocations is
/// made: for each operation about an allocation that was never given back,
/// the making of that allocation.
pub open spec fn leaked_operations_of(data: &Data) -> Seq<Operation> {
    data.operations@.filter(about_leaked(data)).map_values(
        |operation: Operation| Operation::Allocation { allocation: subject_of(operation) },
    )
}

/// The operations from which the timeline of the leaked allocations is
/// made.
pub fn leaked_operations(data: &Data) -> (r: Vec<Operation>)
    requires
        data.wf(),
    ensures
        r@ == leaked_operations_of(data),
{
    let mut leaked: Vec<Operation> = Vec::new();
    let mut i: usize = 0;
    while i < data.operations.len()
        invariant
            data.wf(),
            0 <= i <= data.operations.len(),
            leaked@ == data.operations@.take(i as int).filter(about_leaked(data)).map_values(
                |operation: Operation| Operation::Allocation { allocation: subject_of(operation) },
            ),
        decreases data.operations.len() - i,
    {
        let operation = data.operations[i];
        proof {
            reveal(Seq::filter);
            assert(data.operations@.take(i + 1).drop_last() =~= data.operations@.take(i as int));
            assert(data.operation_wf(data.operations[i as int]));
        }
        let id: u64 = match operation {
            Operation::Allocation { allocation } => allocation,
            Operation::Deallocation { allocation } => allocation,
            Operation::Reallocation { new_allocation, old_allocation } => new_allocation,
        };
        if data.get_allocation(id).deallocation.is_none() {
            leaked.push(Operation::Allocation { allocation: id });
            assert(leaked@ =~= data.operations@.take(i + 1).filter(about_leaked(data)).map_values(
                |operation: Operation| Operation::Allocation { allocation: subject_of(operation) },
            ));
        }
        i += 1;
    }
    assert(data.operations@.take(data.operations.len() as int) =~= data.operations@);
    leaked
}

} // verus!
