//! The in-memory form of one capture: what the query engine reads of it.

use vstd::prelude::*;
use crate::protocol::AllocSortBy;
use crate::timestamp::Timestamp;

verus! {

/// Identifies a capture among those that were loaded.
pub type DataId = u64;

/// Index of an allocation in its capture.
pub type AllocationId = u64;

/// Index of a backtrace in its capture.
pub type BacktraceId = u32;

/// Index of a frame in its capture.
pub type FrameId = usize;

/// Index of an interned string in its capture.
pub type StringId = usize;

/// The number by which an index orders an allocation.
pub open spec fn rank_of(allocation: Allocation, sort_by: AllocSortBy) -> u64 {
    match sort_by {
        AllocSortBy::Timestamp => allocation.timestamp.usecs,
        AllocSortBy::Address => allocation.pointer,
        AllocSortBy::Size => allocation.size,
    }
}

/// No capture holds more operations than this: more do not fit in memory.
pub const OPERATION_LIMIT: u64 = 0x1000_0000_0000_0000;

/// When and where an allocation was given back.
#[derive(Clone, Copy, Debug, PartialEq, Eq, Structural)]
pub struct Deallocation {
    pub timestamp: Timestamp,
    pub thread: u32,
}

/// One allocation of the traced process.
#[derive(Clone, Copy, Debug, PartialEq, Eq, Structural)]
pub struct Allocation {
    pub pointer: u64,
    pub size: u64,
    pub timestamp: Timestamp,
    pub thread: u32,
    pub backtrace: BacktraceId,
    pub deallocation: Option<Deallocation>,
    pub in_main_arena: bool,
    pub is_mmaped: bool,
    pub is_jemalloc: bool,
    pub extra_usable_space: u32,
    pub position_in_chain: u32,
    pub chain_length: u32,
    /// How long the chain of reallocations lived that the allocation is a
    /// link of, if its last link was given back.
    pub chain_lifetime: Option<Timestamp>,
}

impl Allocation {
    /// The allocation does not wrap around the end of the address space.
    pub open spec fn wf(&self) -> bool {
        self.pointer + self.size <= u64::MAX
    }

    /// First address of the allocation.
    pub open spec fn start(&self) -> u64 {
        self.pointer
    }

    /// First address behind the allocation.
    pub open spec fn end(&self) -> u64 {
        (self.pointer + self.size) as u64
    }

    /// First address of the allocation.
    pub fn range_start(&self) -> (r: u64)
        ensures
            r == self.start(),
    {
        self.pointer
    }

    /// First address behind the allocation.
    pub fn range_end(&self) -> (r: u64)
        requires
            self.wf(),
        ensures
            r == self.end(),
            r == self.pointer + self.size,
    {
        self.pointer + self.size
    }

    /// Whether the allocation was never given back.
    pub fn is_leaked(&self) -> (r: bool)
        ensures
            r == (self.deallocation is None),
    {
        self.deallocation.is_none()
    }
}

/// One event of the operation stream of a capture.
#[derive(Clone, Copy, Debug, PartialEq, Eq, Structural)]
pub enum Operation {
    Allocation { allocation: AllocationId },
    Deallocation { allocation: AllocationId },
    Reallocation { new_allocation: AllocationId, old_allocation: AllocationId },
}

/// One resolved location of a backtrace.
#[derive(Clone, Copy, Debug, PartialEq, Eq, Structural)]
pub struct Frame {
    pub address: u64,
    pub count: u64,
    pub library: Option<StringId>,
    pub function: Option<StringId>,
    pub raw_function: Option<StringId>,
    pub source: Option<StringId>,
    pub line: Option<u32>,
    pub column: Option<u32>,
    pub is_inline: bool,
}

impl Frame {
    /// Every string the frame names exists among `strings` strings.
    pub open spec fn wf(&self, strings: int) -> bool {
        &&& self.library matches Some(id) ==> id < strings
        &&& self.function matches Some(id) ==> id < strings
        &&& self.raw_function matches Some(id) ==> id < strings
        &&& self.source matches Some(id) ==> id < strings
    }
}

/// A mapping of memory into the address space of the traced process.
#[derive(Clone, Copy, Debug, PartialEq, Eq, Structural)]
pub struct MemoryMap {
    pub timestamp: Timestamp,
    pub pointer: u64,
    pub length: u64,
    pub backtrace: BacktraceId,
    pub requested_address: u64,
    pub is_readable: bool,
    pub is_writable: bool,
    pub is_executable: bool,
    pub is_semaphore: bool,
    pub grows_down: bool,
    pub grows_up: bool,
    pub is_shared: bool,
    pub is_private: bool,
    pub is_fixed: bool,
    pub is_anonymous: bool,
    pub is_uninitialized: bool,
    pub offset: u64,
    pub file_descriptor: u32,
    pub thread: u32,
}

/// The end of a mapping of memory.
#[derive(Clone, Copy, Debug, PartialEq, Eq, Structural)]
pub struct MemoryUnmap {
    pub timestamp: Timestamp,
    pub pointer: u64,
    pub length: u64,
    pub backtrace: BacktraceId,
    pub thread: u32,
}

#[derive(Clone, Copy, Debug, PartialEq, Eq, Structural)]
pub enum MmapOperation {
    Mmap(MemoryMap),
    Munmap(MemoryUnmap),
}

impl MmapOperation {
    pub open spec fn backtrace(self) -> BacktraceId {
        match self {
            MmapOperation::Mmap(map) => map.backtrace,
            MmapOperation::Munmap(unmap) => unmap.backtrace,
        }
    }

    pub open spec fn length(self) -> u64 {
        match self {
            MmapOperation::Mmap(map) => map.length,
            MmapOperation::Munmap(unmap) => unmap.length,
        }
    }
}

/// Which setting of the allocator a call tuned.
#[derive(Clone, Copy, Debug, PartialEq, Eq, Structural)]
pub enum MalloptKind {
    TrimThreshold,
    TopPad,
    MmapThreshold,
    MmapMax,
    CheckAction,
    Perturb,
    ArenaTest,
    ArenaMax,
    Other(i32),
}

/// A call by which the traced process tuned its allocator.
#[derive(Clone, Copy, Debug, PartialEq, Eq, Structural)]
pub struct Mallopt {
    pub timestamp: Timestamp,
    pub thread: u32,
    pub backtrace: BacktraceId,
    pub kind: MalloptKind,
    pub raw_param: i32,
    pub value: i32,
    pub result: i32,
}

/// What a capture knows of all the allocations that share one backtrace.
#[derive(Clone, Copy, Debug, PartialEq, Eq, Structural)]
pub struct GroupStatistics {
    pub first_allocation: Timestamp,
    pub last_allocation: Timestamp,
    pub min_size: u64,
    pub max_size: u64,
    pub alloc_count: u64,
    pub alloc_size: u64,
    pub free_count: u64,
    pub free_size: u64,
    pub max_total_usage_first_seen_at: Timestamp,
}

/// One capture, fully loaded. Nothing changes it once it is built.
pub struct Data {
    pub id: DataId,
    pub executable: String,
    pub architecture: String,
    pub initial_timestamp: Timestamp,
    pub last_timestamp: Timestamp,
    pub total_allocated: u64,
    pub total_freed: u64,
    pub total_allocated_count: u64,
    pub total_freed_count: u64,
    pub maximum_backtrace_depth: u32,
    pub allocations: Vec<Allocation>,
    pub operations: Vec<Operation>,
    pub sorted_by_timestamp: Vec<AllocationId>,
    pub sorted_by_address: Vec<AllocationId>,
    pub sorted_by_size: Vec<AllocationId>,
    pub backtraces: Vec<Vec<FrameId>>,
    pub frames: Vec<Frame>,
    pub strings: Vec<String>,
    pub group_statistics: Vec<GroupStatistics>,
    pub mmap_operations: Vec<MmapOperation>,
    pub mallopts: Vec<Mallopt>,
}

impl Data {
    /// Whether `timestamp` lies inside the time that the capture covers.
    pub open spec fn covers(&self, timestamp: Timestamp) -> bool {
        self.initial_timestamp.usecs <= timestamp.usecs <= self.last_timestamp.usecs
    }

    /// What holds of one allocation of a capture.
    pub open spec fn allocation_wf(&self, allocation: Allocation) -> bool {
        &&& allocation.wf()
        &&& allocation.backtrace < self.backtraces.len()
        &&& self.covers(allocation.timestamp)
        &&& allocation.deallocation matches Some(deallocation) ==> {
            &&& allocation.timestamp.usecs <= deallocation.timestamp.usecs
            &&& self.covers(deallocation.timestamp)
        }
    }

    /// What holds of one operation of a capture.
    pub open spec fn operation_wf(&self, operation: Operation) -> bool {
        match operation {
            Operation::Allocation { allocation } => allocation < self.allocations.len(),
            Operation::Deallocation { allocation } => {
                &&& allocation < self.allocations.len()
                &&& self.allocations[allocation as int].deallocation is Some
            },
            Operation::Reallocation { new_allocation, old_allocation } => {
                &&& new_allocation < self.allocations.len()
                &&& old_allocation < self.allocations.len()
            },
        }
    }

    /// The moment at which an operation took place.
    pub open spec fn operation_timestamp(&self, operation: Operation) -> Timestamp {
        match operation {
            Operation::Allocation { allocation } => self.allocations[allocation as int].timestamp,
            Operation::Deallocation { allocation } => self.allocations[allocation as int].deallocation.unwrap().timestamp,
            Operation::Reallocation { new_allocation, old_allocation } => self.allocations[new_allocation as int].timestamp,
        }
    }

    /// What holds of one group-statistics record of a capture.
    pub open spec fn statistics_wf(&self, statistics: GroupStatistics) -> bool {
        &&& statistics.free_count <= statistics.alloc_count
        &&& statistics.first_allocation.usecs <= statistics.last_allocation.usecs
        &&& self.covers(statistics.first_allocation)
        &&& self.covers(statistics.last_allocation)
        &&& self.covers(statistics.max_total_usage_first_seen_at)
    }

    /// An index lists every allocation of the capture, each once.
    pub open spec fn index_wf(&self, index: Seq<AllocationId>) -> bool {
        &&& index.len() == self.allocations.len()
        &&& forall|i: int| 0 <= i < index.len() ==> #[trigger] index[i] < self.allocations.len()
        &&& forall|i: int, j: int| 0 <= i < j < index.len() ==> index[i] != index[j]
    }

    /// The allocations that an index lists do not fall in rank from one to
    /// the next.
    pub open spec fn index_sorted(&self, index: Seq<AllocationId>, sort_by: AllocSortBy) -> bool {
        forall|i: int, j: int|
            0 <= i <= j < index.len() ==> rank_of(self.allocations[(#[trigger] index[i]) as int], sort_by)
                <= rank_of(self.allocations[(#[trigger] index[j]) as int], sort_by)
    }

    /// The operations are well formed and stand in the order in which they
    /// took place.
    pub open spec fn operations_wf(&self) -> bool {
        &&& forall|i: int|
            0 <= i < self.operations.len() ==> self.operation_wf(#[trigger] self.operations[i])
        &&& forall|i: int, j: int|
            0 <= i <= j < self.operations.len() ==> self.operation_timestamp(
                #[trigger] self.operations[i],
            ).usecs <= self.operation_timestamp(#[trigger] self.operations[j]).usecs
    }

    /// The invariant of a capture: every id it holds names something that
    /// exists, its timestamps lie within the time it covers, its operations
    /// stand in the order in which they took place, and its three indexes
    /// are sorted and list each allocation once.
    pub open spec fn wf(&self) -> bool {
        &&& self.initial_timestamp.usecs <= self.last_timestamp.usecs
        &&& self.total_freed <= self.total_allocated
        &&& self.total_freed_count <= self.total_allocated_count
        &&& self.allocations.len() <= u64::MAX
        &&& self.operations.len() <= OPERATION_LIMIT
        &&& self.backtraces.len() <= u32::MAX
        &&& self.group_statistics.len() == self.backtraces.len()
        &&& forall|i: int|
            0 <= i < self.allocations.len() ==> self.allocation_wf(#[trigger] self.allocations[i])
        &&& self.operations_wf()
        &&& forall|i: int, j: int|
            0 <= i < self.backtraces.len() && 0 <= j < self.backtraces[i].len() ==> (
            #[trigger] self.backtraces[i][j]) < self.frames.len()
        &&& forall|i: int|
            0 <= i < self.frames.len() ==> (#[trigger] self.frames[i]).wf(self.strings.len() as int)
        &&& forall|i: int|
            0 <= i < self.group_statistics.len() ==> self.statistics_wf(
                #[trigger] self.group_statistics[i],
            )
        &&& forall|i: int|
            0 <= i < self.mmap_operations.len() ==> (#[trigger] self.mmap_operations[i]).backtrace()
                < self.backtraces.len()
        &&& forall|i: int|
            0 <= i < self.mallopts.len() ==> (#[trigger] self.mallopts[i]).backtrace
                < self.backtraces.len()
        &&& self.index_wf(self.sorted_by_timestamp@)
        &&& self.index_wf(self.sorted_by_address@)
        &&& self.index_wf(self.sorted_by_size@)
        &&& self.index_sorted(self.sorted_by_timestamp@, AllocSortBy::Timestamp)
        &&& self.index_sorted(self.sorted_by_address@, AllocSortBy::Address)
        &&& self.index_sorted(self.sorted_by_size@, AllocSortBy::Size)
    }

    pub fn id(&self) -> (r: DataId)
        ensures
            r == self.id,
    {
        self.id
    }

    pub fn initial_timestamp(&self) -> (r: Timestamp)
        ensures
            r == self.initial_timestamp,
    {
        self.initial_timestamp
    }

    pub fn last_timestamp(&self) -> (r: Timestamp)
        ensures
            r == self.last_timestamp,
    {
        self.last_timestamp
    }

    /// The allocation that `id` names.
    pub fn get_allocation(&self, id: AllocationId) -> (r: &Allocation)
        requires
            id < self.allocations.len(),
        ensures
            *r == self.allocations[id as int],
    {
        &self.allocations[id as usize]
    }

    /// The text of an interned string.
    pub fn resolve(&self, id: StringId) -> (r: &str)
        requires
            id < self.strings.len(),
        ensures
            r@ == self.strings[id as int]@,
    {
        self.strings[id].as_str()
    }
}

} // verus!
