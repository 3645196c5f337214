//! The records that travel between the server and its clients: what a
//! request asks for, and what an answer holds.

use vstd::prelude::*;
use crate::timestamp::Timestamp;

verus! {

/// A bound on a moment of the capture: the moment itself, or a share of
/// the time that the capture covers, in percent.
#[derive(Clone, Copy, Debug, PartialEq, Eq, Structural, Hash)]
pub enum TimestampFilter {
    Timestamp(Timestamp),
    Percent(u32),
}

impl TimestampFilter {
    /// The moment that the bound stands for in a capture that began at
    /// `start_at` and ended at `end_at`: a share of `p` percent lies `p`
    /// hundredths of the capture's length after its start. No moment lies
    /// beyond the latest timestamp.
    pub open spec fn moment(self, start_at: Timestamp, end_at: Timestamp) -> Timestamp {
        match self {
            TimestampFilter::Timestamp(timestamp) => timestamp,
            TimestampFilter::Percent(percent) => {
                let shifted = start_at.usecs + ((end_at.usecs - start_at.usecs) * percent) / 100;
                if shifted > u64::MAX {
                    Timestamp { usecs: u64::MAX }
                } else {
                    Timestamp { usecs: shifted as u64 }
                }
            },
        }
    }

    pub fn to_timestamp(&self, start_at: Timestamp, end_at: Timestamp) -> (r: Timestamp)
        requires
            start_at.usecs <= end_at.usecs,
        ensures
            r == self.moment(start_at, end_at),
    {
        match *self {
            TimestampFilter::Timestamp(timestamp) => timestamp,
            TimestampFilter::Percent(percent) => {
                let range: u128 = (end_at.usecs - start_at.usecs) as u128;
                assert(range * percent <= 0xffff_ffff_ffff_ffff * 0xffff_ffff) by (nonlinear_arith)
                    requires
                        0 <= range <= 0xffff_ffff_ffff_ffff,
                        0 <= percent <= 0xffff_ffff,
                ;
                let shifted: u128 = start_at.usecs as u128 + (range * percent as u128) / 100;
                if shifted > u64::MAX as u128 {
                    Timestamp::max()
                } else {
                    Timestamp::from_usecs(shifted as u64)
                }
            },
        }
    }
}

/// A count, or a share of a total in percent.
#[derive(Clone, Copy, Debug, PartialEq, Eq, Structural, Hash)]
pub enum NumberOrPercentage {
    Absolute(u32),
    Percent(u32),
}

#[derive(Clone, Copy, Debug, PartialEq, Eq, Structural, Hash)]
pub enum MmapedFilter {
    Yes,
    No,
}

#[derive(Clone, Copy, Debug, PartialEq, Eq, Structural, Hash)]
pub enum JemallocFilter {
    Yes,
    No,
}

#[derive(Clone, Copy, Debug, PartialEq, Eq, Structural, Hash)]
pub enum ArenaFilter {
    Main,
    NonMain,
}

/// Which allocations to keep by what became of them.
#[derive(Clone, Copy, Debug, PartialEq, Eq, Structural, Hash)]
pub enum LifetimeFilter {
    All,
    OnlyLeaked,
    OnlyNotDeallocatedInCurrentRange,
    OnlyDeallocatedInCurrentRange,
    OnlyTemporary,
    OnlyWholeGroupLeaked,
}

/// What a request says of the allocations it wants.
#[derive(Clone, Debug, PartialEq, Eq, Hash)]
pub struct AllocFilter {
    pub from: Option<TimestampFilter>,
    pub to: Option<TimestampFilter>,
    pub lifetime: Option<LifetimeFilter>,
    pub address_min: Option<u64>,
    pub address_max: Option<u64>,
    pub size_min: Option<u64>,
    pub size_max: Option<u64>,
    pub first_size_min: Option<u64>,
    pub first_size_max: Option<u64>,
    pub last_size_min: Option<u64>,
    pub last_size_max: Option<u64>,
    pub lifetime_min: Option<Timestamp>,
    pub lifetime_max: Option<Timestamp>,
    pub function_regex: Option<String>,
    pub source_regex: Option<String>,
    pub negative_function_regex: Option<String>,
    pub negative_source_regex: Option<String>,
    pub backtrace_depth_min: Option<u32>,
    pub backtrace_depth_max: Option<u32>,
    pub backtraces: Option<u32>,
    pub mmaped: Option<MmapedFilter>,
    pub jemalloc: Option<JemallocFilter>,
    pub arena: Option<ArenaFilter>,
    pub marker: Option<u32>,
    pub group_interval_min: Option<TimestampFilter>,
    pub group_interval_max: Option<TimestampFilter>,
    pub group_max_total_usage_first_seen_min: Option<TimestampFilter>,
    pub group_max_total_usage_first_seen_max: Option<TimestampFilter>,
    pub group_allocations_min: Option<u32>,
    pub group_allocations_max: Option<u32>,
    pub group_leaked_allocations_min: Option<NumberOrPercentage>,
    pub group_leaked_allocations_max: Option<NumberOrPercentage>,
    pub chain_length_min: Option<u32>,
    pub chain_length_max: Option<u32>,
    pub chain_lifetime_min: Option<Timestamp>,
    pub chain_lifetime_max: Option<Timestamp>,
}

/// Two optional texts are the same text, or both are missing.
pub open spec fn same_text(one: Option<String>, other: Option<String>) -> bool {
    match (one, other) {
        (Some(one), Some(other)) => one@ == other@,
        (None, None) => true,
        _ => false,
    }
}

impl AllocFilter {
    /// The request in the plainest words that say the same: a request that
    /// names no kind of life asks for allocations of any kind, and a request
    /// for groups that leaked as a whole asks that all hundred hundredths of
    /// a group leaked.
    pub open spec fn plain(self) -> AllocFilter {
        match self.lifetime {
            None => AllocFilter { lifetime: Some(LifetimeFilter::All), ..self },
            Some(LifetimeFilter::OnlyWholeGroupLeaked) => AllocFilter {
                lifetime: Some(LifetimeFilter::All),
                group_leaked_allocations_min: Some(NumberOrPercentage::Percent(100)),
                ..self
            },
            _ => self,
        }
    }

    /// Says the same in the plainest words.
    pub fn normalize(self) -> (r: AllocFilter)
        ensures
            r == self.plain(),
    {
        let mut filter = self;
        match filter.lifetime {
            None => {
                filter.lifetime = Some(LifetimeFilter::All);
            },
            Some(LifetimeFilter::OnlyWholeGroupLeaked) => {
                filter.lifetime = Some(LifetimeFilter::All);
                filter.group_leaked_allocations_min = Some(NumberOrPercentage::Percent(100));
            },
            _ => {},
        }
        filter
    }

    /// Two requests say the same of allocations: field by field they hold
    /// the same values, and the same texts where a field is a text.
    pub open spec fn same(&self, other: &AllocFilter) -> bool {
        &&& self.from == other.from
        &&& self.to == other.to
        &&& self.lifetime == other.lifetime
        &&& self.address_min == other.address_min
        &&& self.address_max == other.address_max
        &&& self.size_min == other.size_min
        &&& self.size_max == other.size_max
        &&& self.first_size_min == other.first_size_min
        &&& self.first_size_max == other.first_size_max
        &&& self.last_size_min == other.last_size_min
        &&& self.last_size_max == other.last_size_max
        &&& self.lifetime_min == other.lifetime_min
        &&& self.lifetime_max == other.lifetime_max
        &&& same_text(self.function_regex, other.function_regex)
        &&& same_text(self.source_regex, other.source_regex)
        &&& same_text(self.negative_function_regex, other.negative_function_regex)
        &&& same_text(self.negative_source_regex, other.negative_source_regex)
        &&& self.backtrace_depth_min == other.backtrace_depth_min
        &&& self.backtrace_depth_max == other.backtrace_depth_max
        &&& self.backtraces == other.backtraces
        &&& self.mmaped == other.mmaped
        &&& self.jemalloc == other.jemalloc
        &&& self.arena == other.arena
        &&& self.marker == other.marker
        &&& self.group_interval_min == other.group_interval_min
        &&& self.group_interval_max == other.group_interval_max
        &&& self.group_max_total_usage_first_seen_min == other.group_max_total_usage_first_seen_min
        &&& self.group_max_total_usage_first_seen_max == other.group_max_total_usage_first_seen_max
        &&& self.group_allocations_min == other.group_allocations_min
        &&& self.group_allocations_max == other.group_allocations_max
        &&& self.group_leaked_allocations_min == other.group_leaked_allocations_min
        &&& self.group_leaked_allocations_max == other.group_leaked_allocations_max
        &&& self.chain_length_min == other.chain_length_min
        &&& self.chain_length_max == other.chain_length_max
        &&& self.chain_lifetime_min == other.chain_lifetime_min
        &&& self.chain_lifetime_max == other.chain_lifetime_max
    }
}

/// A script of the user that picks allocations, if the request holds one.
#[derive(Clone, Debug, PartialEq, Eq, Hash)]
pub struct CustomFilter {
    pub custom_filter: Option<String>,
}

/// What a request says of the backtraces it wants.
#[derive(Clone, Debug, PartialEq, Eq, Hash)]
pub struct BacktraceFilter {
    pub backtrace_depth_min: Option<u32>,
    pub backtrace_depth_max: Option<u32>,
    pub function_regex: Option<String>,
    pub source_regex: Option<String>,
    pub negative_function_regex: Option<String>,
    pub negative_source_regex: Option<String>,
}

/// The order in which the allocations of an answer stand.
#[derive(Clone, Copy, Debug, PartialEq, Eq, Structural, Hash)]
pub enum AllocSortBy {
    Timestamp,
    Address,
    Size,
}

/// The order in which the groups of an answer stand: by a statistic of
/// the allocations that matched, or by one of all allocations of the group.
#[derive(Clone, Copy, Debug, PartialEq, Eq, Structural, Hash)]
pub enum AllocGroupsSortBy {
    MinTimestamp,
    MaxTimestamp,
    Interval,
    AllocatedCount,
    LeakedCount,
    Size,
    GlobalMinTimestamp,
    GlobalMaxTimestamp,
    GlobalInterval,
    GlobalAllocatedCount,
    GlobalLeakedCount,
    GlobalSize,
    GlobalMaxTotalUsageFirstSeenAt,
}

#[derive(Clone, Copy, Debug, PartialEq, Eq, Structural, Hash)]
pub enum Order {
    Asc,
    Dsc,
}

} // verus!
