//! What is told of a group of allocations: how many there are and how many
//! leaked, how large they are, and when they were made.

use vstd::prelude::*;
use crate::capture::{Allocation, AllocationId, BacktraceId, Data, GroupStatistics};
use crate::timestamp::Timestamp;

verus! {

/// What is known of some allocations once each has been looked at.
#[derive(Clone, Copy, Debug, PartialEq, Eq, Structural)]
pub struct Summary {
    pub size_sum: u64,
    pub min_size: u64,
    pub max_size: u64,
    pub min_timestamp: Timestamp,
    pub max_timestamp: Timestamp,
    pub leaked_count: u64,
    pub allocated_count: u64,
}

impl Summary {
    /// What is known of no allocations at all.
    pub open spec fn identity() -> Summary {
        Summary {
            size_sum: 0,
            min_size: u64::MAX,
            max_size: 0,
            min_timestamp: Timestamp { usecs: u64::MAX },
            max_timestamp: Timestamp { usecs: 0 },
            leaked_count: 0,
            allocated_count: 0,
        }
    }

    /// What is known once one more allocation has been looked at. A sum or a
    /// count that does not fit in `u64` stays at the largest `u64`.
    pub open spec fn absorb(self, allocation: Allocation) -> Summary {
        Summary {
            size_sum: self.size_sum.saturating_add(allocation.size),
            min_size: if allocation.size < self.min_size { allocation.size } else { self.min_size },
            max_size: if allocation.size > self.max_size { allocation.size } else { self.max_size },
            min_timestamp: if allocation.timestamp.usecs < self.min_timestamp.usecs {
                allocation.timestamp
            } else {
                self.min_timestamp
            },
            max_timestamp: if allocation.timestamp.usecs > self.max_timestamp.usecs {
                allocation.timestamp
            } else {
                self.max_timestamp
            },
            leaked_count: if allocation.deallocation is None {
                self.leaked_count.saturating_add(1)
            } else {
                self.leaked_count
            },
            allocated_count: self.allocated_count.saturating_add(1),
        }
    }

    /// What is known of two lots of allocations together.
    pub open spec fn merge(self, other: Summary) -> Summary {
        Summary {
            size_sum: self.size_sum.saturating_add(other.size_sum),
            min_size: if other.min_size < self.min_size { other.min_size } else { self.min_size },
            max_size: if other.max_size > self.max_size { other.max_size } else { self.max_size },
            min_timestamp: if other.min_timestamp.usecs < self.min_timestamp.usecs {
                other.min_timestamp
            } else {
                self.min_timestamp
            },
            max_timestamp: if other.max_timestamp.usecs > self.max_timestamp.usecs {
                other.max_timestamp
            } else {
                self.max_timestamp
            },
            leaked_count: self.leaked_count.saturating_add(other.leaked_count),
            allocated_count: self.allocated_count.saturating_add(other.allocated_count),
        }
    }

    /// What is known of the allocations `ids` of `data`.
    pub open spec fn of(data: &Data, ids: Seq<AllocationId>) -> Summary
        decreases ids.len(),
    {
        if ids.len() == 0 {
            Summary::identity()
        } else {
            Summary::of(data, ids.drop_last()).absorb(data.allocations[ids.last() as int])
        }
    }

    /// The time between the first and the last of the allocations.
    pub open spec fn interval(self) -> u64 {
        if self.max_timestamp.usecs >= self.min_timestamp.usecs {
            (self.max_timestamp.usecs - self.min_timestamp.usecs) as u64
        } else {
            0
        }
    }

    pub fn new() -> (r: Summary)
        ensures
            r == Summary::identity(),
    {
        Summary {
            size_sum: 0,
            min_size: u64::MAX,
            max_size: 0,
            min_timestamp: Timestamp::max(),
            max_timestamp: Timestamp::min(),
            leaked_count: 0,
            allocated_count: 0,
        }
    }

    pub fn add(&mut self, allocation: &Allocation)
        ensures
            *final(self) == old(self).absorb(*allocation),
    {
        self.size_sum = self.size_sum.saturating_add(allocation.size);
        if allocation.size < self.min_size {
            self.min_size = allocation.size;
        }
        if allocation.size > self.max_size {
            self.max_size = allocation.size;
        }
        if allocation.timestamp.usecs < self.min_timestamp.usecs {
            self.min_timestamp = allocation.timestamp;
        }
        if allocation.timestamp.usecs > self.max_timestamp.usecs {
            self.max_timestamp = allocation.timestamp;
        }
        self.allocated_count = self.allocated_count.saturating_add(1);
        if allocation.deallocation.is_none() {
            self.leaked_count = self.leaked_count.saturating_add(1);
        }
    }

    /// Puts together what is known of two lots of allocations.
    pub fn combine(self, other: Summary) -> (r: Summary)
        ensures
            r == self.merge(other),
    {
        Summary {
            size_sum: self.size_sum.saturating_add(other.size_sum),
            min_size: if other.min_size < self.min_size { other.min_size } else { self.min_size },
            max_size: if other.max_size > self.max_size { other.max_size } else { self.max_size },
            min_timestamp: if other.min_timestamp.usecs < self.min_timestamp.usecs {
                other.min_timestamp
            } else {
                self.min_timestamp
            },
            max_timestamp: if other.max_timestamp.usecs > self.max_timestamp.usecs {
                other.max_timestamp
            } else {
                self.max_timestamp
            },
            leaked_count: self.leaked_count.saturating_add(other.leaked_count),
            allocated_count: self.allocated_count.saturating_add(other.allocated_count),
        }
    }
}

/// What is known of allocations can be put together in any grouping and
/// in any order, and what is known of none adds nothing: so the allocations
/// may be looked at in parts, by as many workers as there are, and what
/// comes of it is the same.
pub proof fn lemma_merge_laws(a: Summary, b: Summary, c: Summary)
    ensures
        a.merge(b).merge(c) == a.merge(b.merge(c)),
        a.merge(b) == b.merge(a),
        a.merge(Summary::identity()) == a,
        Summary::identity().merge(a) == a,
{
}

/// Looking at one more allocation is putting together with what is known
/// of that allocation alone.
pub proof fn lemma_absorb_is_merge(a: Summary, allocation: Allocation)
    ensures
        a.absorb(allocation) == a.merge(Summary::identity().absorb(allocation)),
{
}

/// What is known of two lots of allocations, put together, is what is
/// known of all of them.
pub proof fn lemma_summary_of_parts(data: &Data, front: Seq<AllocationId>, back: Seq<AllocationId>)
    ensures
        Summary::of(data, front + back) == Summary::of(data, front).merge(Summary::of(data, back)),
    decreases back.len(),
{
    if back.len() == 0 {
        assert(front + back =~= front);
        lemma_merge_laws(Summary::of(data, front), Summary::identity(), Summary::identity());
    } else {
        let last = data.allocations[back.last() as int];
        lemma_summary_of_parts(data, front, back.drop_last());
        assert((front + back).drop_last() =~= front + back.drop_last());
        assert((front + back).last() == back.last());
        let known = Summary::of(data, front);
        let rest = Summary::of(data, back.drop_last());
        let one = Summary::identity().absorb(last);
        lemma_absorb_is_merge(known.merge(rest), last);
        lemma_absorb_is_merge(rest, last);
        lemma_merge_laws(known, rest, one);
    }
}

/// Looks at each of the allocations `ids` of `data` once.
pub fn summarize(data: &Data, ids: &[AllocationId]) -> (r: Summary)
    requires
        data.wf(),
        forall|i: int| 0 <= i < ids@.len() ==> ids@[i] < data.allocations.len(),
    ensures
        r == Summary::of(data, ids@),
        ids@.len() > 0 ==> data.covers(r.min_timestamp) && data.covers(r.max_timestamp)
            && r.min_timestamp.usecs <= r.max_timestamp.usecs,
{
    let mut summary = Summary::new();
    let mut i: usize = 0;
    while i < ids.len()
        invariant
            data.wf(),
            0 <= i <= ids@.len(),
            forall|i: int| 0 <= i < ids@.len() ==> ids@[i] < data.allocations.len(),
            summary == Summary::of(data, ids@.take(i as int)),
            i > 0 ==> data.covers(summary.min_timestamp) && data.covers(summary.max_timestamp)
                && summary.min_timestamp.usecs <= summary.max_timestamp.usecs,
        decreases ids@.len() - i,
    {
        let allocation = data.get_allocation(ids[i]);
        assert(data.allocation_wf(*allocation));
        assert(ids@.take(i + 1).drop_last() =~= ids@.take(i as int));
        summary.add(allocation);
        i += 1;
    }
    assert(ids@.take(ids@.len() as int) =~= ids@);
    summary
}

/// What an answer tells of a group of allocations.
#[derive(Debug)]
pub struct AllocationGroupData {
    pub leaked_count: u64,
    pub allocated_count: u64,
    pub size: u64,
    pub min_size: u64,
    pub max_size: u64,
    pub min_timestamp: Timestamp,
    pub min_timestamp_relative: Timestamp,
    pub max_timestamp: Timestamp,
    pub max_timestamp_relative: Timestamp,
    pub interval: Timestamp,
    pub graph_url: Option<String>,
    pub graph_preview_url: Option<String>,
    pub max_total_usage_first_seen_at: Option<Timestamp>,
    pub max_total_usage_first_seen_at_relative: Option<Timestamp>,
}

impl AllocationGroupData {
    /// The record tells what `summary` knows; moments are told as they are
    /// and as the time since the capture began. Of no allocations at all the
    /// first moment is the latest there is and the last one the earliest,
    /// and no time lies between them.
    pub open spec fn tells(&self, data: &Data, summary: Summary) -> bool {
        &&& self.leaked_count == summary.leaked_count
        &&& self.allocated_count == summary.allocated_count
        &&& self.size == summary.size_sum
        &&& self.min_size == summary.min_size
        &&& self.max_size == summary.max_size
        &&& self.min_timestamp == summary.min_timestamp
        &&& self.min_timestamp_relative.usecs == summary.min_timestamp.span_since(
            data.initial_timestamp,
        )
        &&& self.max_timestamp == summary.max_timestamp
        &&& self.max_timestamp_relative.usecs == summary.max_timestamp.span_since(
            data.initial_timestamp,
        )
        &&& self.interval.usecs == summary.interval()
        &&& self.graph_url is None
        &&& self.graph_preview_url is None
        &&& self.max_total_usage_first_seen_at is None
        &&& self.max_total_usage_first_seen_at_relative is None
    }

    /// The record tells what the capture knows of all allocations of a
    /// backtrace.
    pub open spec fn tells_all(&self, data: &Data, statistics: GroupStatistics) -> bool {
        &&& self.leaked_count == statistics.alloc_count - statistics.free_count
        &&& self.allocated_count == statistics.alloc_count
        &&& self.size == statistics.alloc_size
        &&& self.min_size == statistics.min_size
        &&& self.max_size == statistics.max_size
        &&& self.min_timestamp == statistics.first_allocation
        &&& self.min_timestamp_relative.usecs == statistics.first_allocation.usecs
            - data.initial_timestamp.usecs
        &&& self.max_timestamp == statistics.last_allocation
        &&& self.max_timestamp_relative.usecs == statistics.last_allocation.usecs
            - data.initial_timestamp.usecs
        &&& self.interval.usecs == statistics.last_allocation.usecs
            - statistics.first_allocation.usecs
        &&& self.graph_url is None
        &&& self.graph_preview_url is None
        &&& self.max_total_usage_first_seen_at == Some(statistics.max_total_usage_first_seen_at)
        &&& self.max_total_usage_first_seen_at_relative matches Some(relative) && relative.usecs
            == statistics.max_total_usage_first_seen_at.usecs - data.initial_timestamp.usecs
    }
}

/// What is told of the allocations `ids` of `data`.
pub fn get_allocation_group_data(data: &Data, ids: &[AllocationId]) -> (r: AllocationGroupData)
    requires
        data.wf(),
        forall|i: int| 0 <= i < ids@.len() ==> ids@[i] < data.allocations.len(),
    ensures
        r.tells(data, Summary::of(data, ids@)),
{
    let group = summarize(data, ids);
    AllocationGroupData {
        leaked_count: group.leaked_count,
        allocated_count: group.allocated_count,
        size: group.size_sum,
        min_size: group.min_size,
        max_size: group.max_size,
        min_timestamp: group.min_timestamp,
        min_timestamp_relative: group.min_timestamp.since_or_zero(data.initial_timestamp),
        max_timestamp: group.max_timestamp,
        max_timestamp_relative: group.max_timestamp.since_or_zero(data.initial_timestamp),
        interval: group.max_timestamp.since_or_zero(group.min_timestamp),
        graph_url: None,
        graph_preview_url: None,
        max_total_usage_first_seen_at: None,
        max_total_usage_first_seen_at_relative: None,
    }
}

/// What the capture knows of all allocations of a backtrace.
pub fn get_global_group_data(data: &Data, backtrace_id: BacktraceId) -> (r: AllocationGroupData)
    requires
        data.wf(),
        backtrace_id < data.backtraces.len(),
    ensures
        r.tells_all(data, data.group_statistics[backtrace_id as int]),
{
    let stats = &data.group_statistics[backtrace_id as usize];
    assert(data.statistics_wf(*stats));

    let leaked_count: u64 = stats.alloc_count - stats.free_count;
    let allocated_count: u64 = stats.alloc_count;
    let size_sum: u64 = stats.alloc_size;
    let min_size: u64 = stats.min_size;
    let max_size: u64 = stats.max_size;
    let min_timestamp = stats.first_allocation;
    let max_timestamp = stats.last_allocation;

    AllocationGroupData {
        leaked_count,
        allocated_count,
        size: size_sum,
        min_size,
        max_size,
        min_timestamp,
        min_timestamp_relative: min_timestamp.since(data.initial_timestamp),
        max_timestamp,
        max_timestamp_relative: max_timestamp.since(data.initial_timestamp),
        interval: max_timestamp.since(min_timestamp),
        graph_url: None,
        graph_preview_url: None,
        max_total_usage_first_seen_at: Some(stats.max_total_usage_first_seen_at),
        max_total_usage_first_seen_at_relative: Some(
            stats.max_total_usage_first_seen_at.since(data.initial_timestamp),
        ),
    }
}

} // verus!
