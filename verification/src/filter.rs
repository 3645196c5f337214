//! From what a request asks for to a filter that can be applied.

use std::sync::Arc;
use ahash::AHashSet;
use vstd::prelude::*;
use crate::capture::{Allocation, AllocationId, BacktraceId, Data, DataId, Frame, FrameId};
use crate::id_set::{contains, id_set_from, members};
use crate::frame_cache::FrameCache;
use crate::pattern::{compiled_from, pattern_is_valid, pattern_matches, Pattern};
use crate::protocol;
use crate::timestamp::Timestamp;

verus! {

/// Bounds on a whole group of allocations.
#[derive(Clone, Debug)]
pub struct GroupFilter {
    pub interval_min: Option<Timestamp>,
    pub interval_max: Option<Timestamp>,
    pub leaked_allocations_min: Option<protocol::NumberOrPercentage>,
    pub leaked_allocations_max: Option<protocol::NumberOrPercentage>,
    pub allocations_min: usize,
    pub allocations_max: usize,
}

/// A count, or a share of a total in hundredths.
#[derive(Clone, Copy, Debug, PartialEq, Eq, Structural)]
pub enum NumberOrFractionOfTotal {
    Number(u64),
    Fraction(u32),
}

impl From<protocol::NumberOrPercentage> for NumberOrFractionOfTotal {
    fn from(value: protocol::NumberOrPercentage) -> (r: Self) {
        match value {
            protocol::NumberOrPercentage::Absolute(value) => NumberOrFractionOfTotal::Number(value as u64),
            protocol::NumberOrPercentage::Percent(value) => NumberOrFractionOfTotal::Fraction(value),
        }
    }
}

impl vstd::std_specs::convert::FromSpecImpl<protocol::NumberOrPercentage> for NumberOrFractionOfTotal {
    open spec fn obeys_from_spec() -> bool {
        true
    }

    open spec fn from_spec(value: protocol::NumberOrPercentage) -> Self {
        match value {
            protocol::NumberOrPercentage::Absolute(value) => NumberOrFractionOfTotal::Number(value as u64),
            protocol::NumberOrPercentage::Percent(value) => NumberOrFractionOfTotal::Fraction(value),
        }
    }
}

/// Why a filter could not be prepared.
pub enum PrepareFilterError {
    /// The named field of the request holds a pattern that the regex engine
    /// refused.
    InvalidRegex(&'static str, regex::Error),
    /// The script of the request failed; the message says how.
    InvalidCustomFilter(String),
}

/// What a request says of backtraces, with its patterns compiled.
#[derive(Debug)]
pub struct BacktraceFilter {
    pub backtrace_depth_min: usize,
    pub backtrace_depth_max: usize,
    pub function_regex: Option<Pattern>,
    pub source_regex: Option<Pattern>,
    pub negative_function_regex: Option<Pattern>,
    pub negative_source_regex: Option<Pattern>,
}

/// What a request says of allocations, in the terms of the engine that
/// applies it: every bound is a plain value, every moment is a moment of
/// the capture, and every pattern is compiled.
#[derive(Debug)]
pub struct Filter {
    pub only_allocated_after_at_least: Option<Timestamp>,
    pub only_allocated_until_at_most: Option<Timestamp>,
    pub only_deallocated_after_at_least: Option<Timestamp>,
    pub only_deallocated_until_at_most: Option<Timestamp>,
    pub only_not_deallocated_after_at_least: Option<Timestamp>,
    pub only_not_deallocated_until_at_most: Option<Timestamp>,
    pub only_address_at_least: Option<u64>,
    pub only_address_at_most: Option<u64>,
    pub only_larger_or_equal: Option<u64>,
    pub only_smaller_or_equal: Option<u64>,
    pub only_first_size_larger_or_equal: Option<u64>,
    pub only_first_size_smaller_or_equal: Option<u64>,
    pub only_last_size_larger_or_equal: Option<u64>,
    pub only_last_size_smaller_or_equal: Option<u64>,
    pub only_alive_for_at_least: Option<Timestamp>,
    pub only_alive_for_at_most: Option<Timestamp>,
    pub only_backtrace_length_at_least: Option<usize>,
    pub only_backtrace_length_at_most: Option<usize>,
    pub only_matching_backtraces: Option<BacktraceId>,
    pub only_ptmalloc_mmaped: bool,
    pub only_ptmalloc_not_mmaped: bool,
    pub only_jemalloc: bool,
    pub only_not_jemalloc: bool,
    pub only_ptmalloc_from_main_arena: bool,
    pub only_ptmalloc_not_from_main_arena: bool,
    pub only_passing_through_function: Option<Pattern>,
    pub only_not_passing_through_function: Option<Pattern>,
    pub only_passing_through_source: Option<Pattern>,
    pub only_not_passing_through_source: Option<Pattern>,
    pub only_with_marker: Option<u32>,
    pub only_group_interval_at_least: Option<Timestamp>,
    pub only_group_interval_at_most: Option<Timestamp>,
    pub only_group_max_total_usage_first_seen_at_least: Option<Timestamp>,
    pub only_group_max_total_usage_first_seen_at_most: Option<Timestamp>,
    pub only_group_allocations_at_least: Option<usize>,
    pub only_group_allocations_at_most: Option<usize>,
    pub only_group_leaked_allocations_at_least: Option<NumberOrFractionOfTotal>,
    pub only_group_leaked_allocations_at_most: Option<NumberOrFractionOfTotal>,
    pub only_chain_length_at_least: Option<u32>,
    pub only_chain_length_at_most: Option<u32>,
    pub only_chain_alive_for_at_least: Option<Timestamp>,
    pub only_chain_alive_for_at_most: Option<Timestamp>,
    pub only_leaked: bool,
    pub only_temporary: bool,
}

/// Whether the regex engine accepts the pattern of a field, if it has one.
pub open spec fn field_is_valid(source: Option<String>) -> bool {
    source matches Some(source) ==> pattern_is_valid(source@)
}

/// The moment that an optional bound stands for in a capture.
pub open spec fn moment_of(bound: Option<protocol::TimestampFilter>, data: &Data) -> Option<Timestamp> {
    match bound {
        Some(bound) => Some(bound.moment(data.initial_timestamp, data.last_timestamp)),
        None => None,
    }
}

pub open spec fn widened(value: Option<u32>) -> Option<usize> {
    match value {
        Some(value) => Some(value as usize),
        None => None,
    }
}

pub open spec fn share_of(value: Option<protocol::NumberOrPercentage>) -> Option<NumberOrFractionOfTotal> {
    match value {
        Some(protocol::NumberOrPercentage::Absolute(value)) => Some(NumberOrFractionOfTotal::Number(value as u64)),
        Some(protocol::NumberOrPercentage::Percent(value)) => Some(NumberOrFractionOfTotal::Fraction(value)),
        None => None,
    }
}

/// The kind of life that a request asks for; where it names none, any.
pub open spec fn lifetime_of(filter: &protocol::AllocFilter) -> protocol::LifetimeFilter {
    match filter.lifetime {
        Some(lifetime) => lifetime,
        None => protocol::LifetimeFilter::All,
    }
}

impl Filter {
    /// The bounds that are taken over as the request gives them.
    pub open spec fn keeps_bounds_of(&self, filter: &protocol::AllocFilter) -> bool {
        &&& self.only_address_at_least == filter.address_min
        &&& self.only_address_at_most == filter.address_max
        &&& self.only_larger_or_equal == filter.size_min
        &&& self.only_smaller_or_equal == filter.size_max
        &&& self.only_first_size_larger_or_equal == filter.first_size_min
        &&& self.only_first_size_smaller_or_equal == filter.first_size_max
        &&& self.only_last_size_larger_or_equal == filter.last_size_min
        &&& self.only_last_size_smaller_or_equal == filter.last_size_max
        &&& self.only_alive_for_at_least == filter.lifetime_min
        &&& self.only_alive_for_at_most == filter.lifetime_max
        &&& self.only_backtrace_length_at_least == widened(filter.backtrace_depth_min)
        &&& self.only_backtrace_length_at_most == widened(filter.backtrace_depth_max)
        &&& self.only_matching_backtraces == filter.backtraces
        &&& self.only_with_marker == filter.marker
        &&& self.only_group_allocations_at_least == widened(filter.group_allocations_min)
        &&& self.only_group_allocations_at_most == widened(filter.group_allocations_max)
        &&& self.only_group_leaked_allocations_at_most == share_of(
            filter.group_leaked_allocations_max,
        )
        &&& self.only_chain_length_at_least == filter.chain_length_min
        &&& self.only_chain_length_at_most == filter.chain_length_max
        &&& self.only_chain_alive_for_at_least == filter.chain_lifetime_min
        &&& self.only_chain_alive_for_at_most == filter.chain_lifetime_max
    }

    /// Each selector of the request raises the flag that stands for it.
    pub open spec fn keeps_selectors_of(&self, filter: &protocol::AllocFilter) -> bool {
        &&& self.only_ptmalloc_mmaped == (filter.mmaped == Some(protocol::MmapedFilter::Yes))
        &&& self.only_ptmalloc_not_mmaped == (filter.mmaped == Some(protocol::MmapedFilter::No))
        &&& self.only_jemalloc == (filter.jemalloc == Some(protocol::JemallocFilter::Yes))
        &&& self.only_not_jemalloc == (filter.jemalloc == Some(protocol::JemallocFilter::No))
        &&& self.only_ptmalloc_from_main_arena == (filter.arena == Some(protocol::ArenaFilter::Main))
        &&& self.only_ptmalloc_not_from_main_arena == (filter.arena == Some(
            protocol::ArenaFilter::NonMain,
        ))
    }

    /// Each pattern is the compiled form of the text that the request gives.
    pub open spec fn keeps_patterns_of(&self, filter: &protocol::AllocFilter) -> bool {
        &&& compiled_from(self.only_passing_through_function, filter.function_regex)
        &&& compiled_from(self.only_not_passing_through_function, filter.negative_function_regex)
        &&& compiled_from(self.only_passing_through_source, filter.source_regex)
        &&& compiled_from(self.only_not_passing_through_source, filter.negative_source_regex)
    }

    /// Each bound on a moment is the moment that it stands for in `data`.
    pub open spec fn keeps_moments_of(&self, filter: &protocol::AllocFilter, data: &Data) -> bool {
        &&& self.only_allocated_after_at_least == moment_of(filter.from, data)
        &&& self.only_allocated_until_at_most == moment_of(filter.to, data)
        &&& self.only_group_interval_at_least == moment_of(filter.group_interval_min, data)
        &&& self.only_group_interval_at_most == moment_of(filter.group_interval_max, data)
        &&& self.only_group_max_total_usage_first_seen_at_least == moment_of(
            filter.group_max_total_usage_first_seen_min,
            data,
        )
        &&& self.only_group_max_total_usage_first_seen_at_most == moment_of(
            filter.group_max_total_usage_first_seen_max,
            data,
        )
    }

    /// The kind of life that the request asks for is spelled out in bounds:
    /// leaked allocations have no deallocation; those not deallocated in the
    /// range are bounded by the range in which they were allocated; those
    /// deallocated in the range have a deallocation inside it; a group that
    /// leaked as a whole leaked all hundred hundredths of its allocations.
    pub open spec fn keeps_lifetime_of(&self, filter: &protocol::AllocFilter, data: &Data) -> bool {
        let lifetime = lifetime_of(filter);
        let from = moment_of(filter.from, data);
        let to = moment_of(filter.to, data);
        &&& self.only_leaked == (lifetime == protocol::LifetimeFilter::OnlyLeaked)
        &&& self.only_temporary == (lifetime == protocol::LifetimeFilter::OnlyTemporary)
        &&& self.only_not_deallocated_after_at_least == if lifetime
            == protocol::LifetimeFilter::OnlyNotDeallocatedInCurrentRange {
            from
        } else {
            None
        }
        &&& self.only_not_deallocated_until_at_most == if lifetime
            == protocol::LifetimeFilter::OnlyNotDeallocatedInCurrentRange {
            to
        } else {
            None
        }
        &&& self.only_deallocated_after_at_least == if lifetime
            == protocol::LifetimeFilter::OnlyDeallocatedInCurrentRange {
            Some(
                match from {
                    Some(from) => from,
                    None => Timestamp { usecs: 0 },
                },
            )
        } else {
            None
        }
        &&& self.only_deallocated_until_at_most == if lifetime
            == protocol::LifetimeFilter::OnlyDeallocatedInCurrentRange {
            Some(
                match to {
                    Some(to) if to.usecs <= data.last_timestamp.usecs => to,
                    _ => data.last_timestamp,
                },
            )
        } else {
            None
        }
        &&& self.only_group_leaked_allocations_at_least == if lifetime
            == protocol::LifetimeFilter::OnlyWholeGroupLeaked {
            Some(NumberOrFractionOfTotal::Fraction(100))
        } else {
            share_of(filter.group_leaked_allocations_min)
        }
    }

    /// `self` says of the allocations of `data` what `filter` asks for.
    pub open spec fn lowers(&self, filter: &protocol::AllocFilter, data: &Data) -> bool {
        &&& self.keeps_bounds_of(filter)
        &&& self.keeps_selectors_of(filter)
        &&& self.keeps_patterns_of(filter)
        &&& self.keeps_moments_of(filter, data)
        &&& self.keeps_lifetime_of(filter, data)
    }
}

/// Compiles the pattern of the field `name`, if the field has one.
fn compile_field(name: &'static str, source: &Option<String>) -> (r: Result<
    Option<Pattern>,
    PrepareFilterError,
>)
    ensures
        r is Ok <==> field_is_valid(*source),
        r matches Ok(pattern) ==> compiled_from(pattern, *source),
        r matches Err(error) ==> error matches PrepareFilterError::InvalidRegex(field, _) && field
            == name,
{
    match source {
        Some(source) => match Pattern::new(source.as_str()) {
            Ok(pattern) => Ok(Some(pattern)),
            Err(error) => Err(PrepareFilterError::InvalidRegex(name, error)),
        },
        None => Ok(None),
    }
}

fn moment(bound: &Option<protocol::TimestampFilter>, data: &Data) -> (r: Option<Timestamp>)
    requires
        data.initial_timestamp.usecs <= data.last_timestamp.usecs,
    ensures
        r == moment_of(*bound, data),
{
    match bound {
        Some(bound) => Some(bound.to_timestamp(data.initial_timestamp, data.last_timestamp)),
        None => None,
    }
}

fn widen(value: Option<u32>) -> (r: Option<usize>)
    ensures
        r == widened(value),
{
    match value {
        Some(value) => Some(value as usize),
        None => None,
    }
}

fn share(value: Option<protocol::NumberOrPercentage>) -> (r: Option<NumberOrFractionOfTotal>)
    ensures
        r == share_of(value),
{
    match value {
        Some(value) => Some(NumberOrFractionOfTotal::from(value)),
        None => None,
    }
}

/// The name of the first field, in the order in which the patterns of an
/// allocation filter are compiled, whose pattern the regex engine refuses.
pub open spec fn first_invalid_field(filter: &protocol::AllocFilter) -> Option<&'static str> {
    if !field_is_valid(filter.function_regex) {
        Some("function_regex")
    } else if !field_is_valid(filter.negative_function_regex) {
        Some("negative_function_regex")
    } else if !field_is_valid(filter.source_regex) {
        Some("source_regex")
    } else if !field_is_valid(filter.negative_source_regex) {
        Some("negative_source_regex")
    } else {
        None
    }
}

/// Translates what a request says of allocations into the terms of the
/// engine that applies it.
///
/// Fails if and only if one of the four patterns is refused by the regex
/// engine, and then names the first field that holds such a pattern.
pub fn prepare_raw_filter(data: &Data, filter: &protocol::AllocFilter) -> (r: Result<
    Filter,
    PrepareFilterError,
>)
    requires
        data.initial_timestamp.usecs <= data.last_timestamp.usecs,
    ensures
        r is Ok <==> first_invalid_field(filter) is None,
        r matches Ok(output) ==> output.lowers(filter, data),
        r matches Err(error) ==> error matches PrepareFilterError::InvalidRegex(field, _) && Some(
            field,
        ) == first_invalid_field(filter),
{
    let from = moment(&filter.from, data);
    let to = moment(&filter.to, data);
    let mut output = Filter {
        only_allocated_after_at_least: from,
        only_allocated_until_at_most: to,
        only_deallocated_after_at_least: None,
        only_deallocated_until_at_most: None,
        only_not_deallocated_after_at_least: None,
        only_not_deallocated_until_at_most: None,
        only_address_at_least: filter.address_min,
        only_address_at_most: filter.address_max,
        only_larger_or_equal: filter.size_min,
        only_smaller_or_equal: filter.size_max,
        only_first_size_larger_or_equal: filter.first_size_min,
        only_first_size_smaller_or_equal: filter.first_size_max,
        only_last_size_larger_or_equal: filter.last_size_min,
        only_last_size_smaller_or_equal: filter.last_size_max,
        only_alive_for_at_least: filter.lifetime_min,
        only_alive_for_at_most: filter.lifetime_max,
        only_backtrace_length_at_least: widen(filter.backtrace_depth_min),
        only_backtrace_length_at_most: widen(filter.backtrace_depth_max),
        only_matching_backtraces: filter.backtraces,
        only_ptmalloc_mmaped: false,
        only_ptmalloc_not_mmaped: false,
        only_jemalloc: false,
        only_not_jemalloc: false,
        only_ptmalloc_from_main_arena: false,
        only_ptmalloc_not_from_main_arena: false,
        only_passing_through_function: None,
        only_not_passing_through_function: None,
        only_passing_through_source: None,
        only_not_passing_through_source: None,
        only_with_marker: filter.marker,
        only_group_interval_at_least: moment(&filter.group_interval_min, data),
        only_group_interval_at_most: moment(&filter.group_interval_max, data),
        only_group_max_total_usage_first_seen_at_least: moment(
            &filter.group_max_total_usage_first_seen_min,
            data,
        ),
        only_group_max_total_usage_first_seen_at_most: moment(
            &filter.group_max_total_usage_first_seen_max,
            data,
        ),
        only_group_allocations_at_least: widen(filter.group_allocations_min),
        only_group_allocations_at_most: widen(filter.group_allocations_max),
        only_group_leaked_allocations_at_least: share(filter.group_leaked_allocations_min),
        only_group_leaked_allocations_at_most: share(filter.group_leaked_allocations_max),
        only_chain_length_at_least: filter.chain_length_min,
        only_chain_length_at_most: filter.chain_length_max,
        only_chain_alive_for_at_least: filter.chain_lifetime_min,
        only_chain_alive_for_at_most: filter.chain_lifetime_max,
        only_leaked: false,
        only_temporary: false,
    };

    match filter.mmaped {
        None => {},
        Some(protocol::MmapedFilter::Yes) => output.only_ptmalloc_mmaped = true,
        Some(protocol::MmapedFilter::No) => output.only_ptmalloc_not_mmaped = true,
    }

    match filter.jemalloc {
        None => {},
        Some(protocol::JemallocFilter::Yes) => output.only_jemalloc = true,
        Some(protocol::JemallocFilter::No) => output.only_not_jemalloc = true,
    }

    match filter.arena {
        None => {},
        Some(protocol::ArenaFilter::Main) => output.only_ptmalloc_from_main_arena = true,
        Some(protocol::ArenaFilter::NonMain) => output.only_ptmalloc_not_from_main_arena = true,
    }

    output.only_passing_through_function = compile_field("function_regex", &filter.function_regex)?;
    output.only_not_passing_through_function =
    compile_field("negative_function_regex", &filter.negative_function_regex)?;
    output.only_passing_through_source = compile_field("source_regex", &filter.source_regex)?;
    output.only_not_passing_through_source =
    compile_field("negative_source_regex", &filter.negative_source_regex)?;

    let lifetime = match filter.lifetime {
        Some(lifetime) => lifetime,
        None => protocol::LifetimeFilter::All,
    };
    match lifetime {
        protocol::LifetimeFilter::All => {},
        protocol::LifetimeFilter::OnlyLeaked => {
            output.only_leaked = true;
        },
        protocol::LifetimeFilter::OnlyNotDeallocatedInCurrentRange => {
            output.only_not_deallocated_after_at_least = output.only_allocated_after_at_least;
            output.only_not_deallocated_until_at_most = output.only_allocated_until_at_most;
        },
        protocol::LifetimeFilter::OnlyDeallocatedInCurrentRange => {
            let min_1 = match output.only_allocated_after_at_least {
                Some(bound) => bound,
                None => Timestamp::from_secs(0),
            };
            let max_1 = match output.only_allocated_until_at_most {
                Some(bound) => bound,
                None => data.last_timestamp,
            };
            let min_2 = match output.only_deallocated_after_at_least {
                Some(bound) => bound,
                None => Timestamp::from_secs(0),
            };
            let max_2 = match output.only_deallocated_until_at_most {
                Some(bound) => bound,
                None => data.last_timestamp,
            };
            output.only_deallocated_after_at_least = Some(Timestamp::later_of(min_1, min_2));
            output.only_deallocated_until_at_most = Some(Timestamp::earlier_of(max_1, max_2));
        },
        protocol::LifetimeFilter::OnlyTemporary => {
            output.only_temporary = true;
        },
        protocol::LifetimeFilter::OnlyWholeGroupLeaked => {
            output.only_group_leaked_allocations_at_least = Some(
                NumberOrFractionOfTotal::Fraction(100),
            );
        },
    }

    Ok(output)
}

/// The name of the first field, in the order in which the patterns of a
/// backtrace filter are compiled, whose pattern the regex engine refuses.
pub open spec fn first_invalid_backtrace_field(filter: &protocol::BacktraceFilter) -> Option<
    &'static str,
> {
    if !field_is_valid(filter.function_regex) {
        Some("function_regex")
    } else if !field_is_valid(filter.source_regex) {
        Some("source_regex")
    } else if !field_is_valid(filter.negative_function_regex) {
        Some("negative_function_regex")
    } else if !field_is_valid(filter.negative_source_regex) {
        Some("negative_source_regex")
    } else {
        None
    }
}

impl BacktraceFilter {
    /// `self` says of backtraces what `filter` asks for: a depth that the
    /// request leaves open is bounded by zero and by the largest `u32`.
    pub open spec fn lowers(&self, filter: &protocol::BacktraceFilter) -> bool {
        &&& self.backtrace_depth_min == match filter.backtrace_depth_min {
            Some(depth) => depth as usize,
            None => 0,
        }
        &&& self.backtrace_depth_max == match filter.backtrace_depth_max {
            Some(depth) => depth as usize,
            None => u32::MAX as usize,
        }
        &&& compiled_from(self.function_regex, filter.function_regex)
        &&& compiled_from(self.source_regex, filter.source_regex)
        &&& compiled_from(self.negative_function_regex, filter.negative_function_regex)
        &&& compiled_from(self.negative_source_regex, filter.negative_source_regex)
    }
}

/// Translates what a request says of backtraces, and compiles its patterns.
///
/// Fails if and only if one of the four patterns is refused by the regex
/// engine, and then names the first field that holds such a pattern.
pub fn prepare_backtrace_filter(filter: &protocol::BacktraceFilter) -> (r: Result<
    BacktraceFilter,
    PrepareFilterError,
>)
    ensures
        r is Ok <==> first_invalid_backtrace_field(filter) is None,
        r matches Ok(output) ==> output.lowers(filter),
        r matches Err(error) ==> error matches PrepareFilterError::InvalidRegex(field, _) && Some(
            field,
        ) == first_invalid_backtrace_field(filter),
{
    let function_regex = compile_field("function_regex", &filter.function_regex)?;
    let source_regex = compile_field("source_regex", &filter.source_regex)?;
    let negative_function_regex = compile_field(
        "negative_function_regex",
        &filter.negative_function_regex,
    )?;
    let negative_source_regex = compile_field(
        "negative_source_regex",
        &filter.negative_source_regex,
    )?;

    let filter = BacktraceFilter {
        backtrace_depth_min: match filter.backtrace_depth_min {
            Some(depth) => depth as usize,
            None => 0,
        },
        backtrace_depth_max: match filter.backtrace_depth_max {
            Some(depth) => depth as usize,
            None => u32::MAX as usize,
        },
        function_regex,
        source_regex,
        negative_function_regex,
        negative_source_regex,
    };

    Ok(filter)
}

/// The name of the function of a frame: the demangled one, or else the raw
/// one.
pub open spec fn function_of(data: &Data, frame: Frame) -> Option<Seq<char>> {
    match frame.function {
        Some(id) => Some(data.strings[id as int]@),
        None => match frame.raw_function {
            Some(id) => Some(data.strings[id as int]@),
            None => None,
        },
    }
}

/// The path of the source file of a frame.
pub open spec fn source_of(data: &Data, frame: Frame) -> Option<Seq<char>> {
    match frame.source {
        Some(id) => Some(data.strings[id as int]@),
        None => None,
    }
}

/// There is a pattern, there is a text, and the pattern matches the text.
pub open spec fn hits(pattern: Option<Pattern>, text: Option<Seq<char>>) -> bool {
    match (pattern, text) {
        (Some(pattern), Some(text)) => pattern_matches(pattern@, text),
        _ => false,
    }
}

impl BacktraceFilter {
    pub open spec fn has_positive(&self) -> bool {
        self.function_regex is Some || self.source_regex is Some
    }

    pub open spec fn has_negative(&self) -> bool {
        self.negative_function_regex is Some || self.negative_source_regex is Some
    }

    /// The frame satisfies each positive pattern that there is.
    pub open spec fn wanted(&self, data: &Data, frame: Frame) -> bool {
        &&& self.function_regex is Some ==> hits(self.function_regex, function_of(data, frame))
        &&& self.source_regex is Some ==> hits(self.source_regex, source_of(data, frame))
    }

    /// The frame matches a negative pattern.
    pub open spec fn unwanted(&self, data: &Data, frame: Frame) -> bool {
        ||| hits(self.negative_function_regex, function_of(data, frame))
        ||| hits(self.negative_source_regex, source_of(data, frame))
    }

    /// The depth of the backtrace is within the bounds.
    pub open spec fn deep_enough(&self, backtrace: Seq<FrameId>) -> bool {
        self.backtrace_depth_min <= backtrace.len() <= self.backtrace_depth_max
    }

    /// A backtrace is accepted if its depth is within the bounds, one of its
    /// frames satisfies the positive patterns (where there are any), and none
    /// of its frames matches a negative pattern.
    pub open spec fn accepts(&self, data: &Data, backtrace: Seq<FrameId>) -> bool {
        &&& self.deep_enough(backtrace)
        &&& self.has_positive() ==> exists|i: int|
            0 <= i < backtrace.len() && self.wanted(data, #[trigger] data.frames[backtrace[i] as int])
        &&& forall|i: int|
            0 <= i < backtrace.len() ==> !self.unwanted(
                data,
                #[trigger] data.frames[backtrace[i] as int],
            )
    }

    /// Every verdict of the cache is whether its frame satisfies the
    /// positive patterns.
    pub open spec fn positive_verdicts(&self, data: &Data, cache: &FrameCache) -> bool {
        &&& cache.wf(data.frames.len() as nat)
        &&& forall|frame: FrameId| #[trigger]
            cache@.contains_key(frame) ==> cache@[frame] == self.wanted(
                data,
                data.frames[frame as int],
            )
    }

    /// Every verdict of the cache is whether its frame matches a negative
    /// pattern.
    pub open spec fn negative_verdicts(&self, data: &Data, cache: &FrameCache) -> bool {
        &&& cache.wf(data.frames.len() as nat)
        &&& forall|frame: FrameId| #[trigger]
            cache@.contains_key(frame) ==> cache@[frame] == self.unwanted(
                data,
                data.frames[frame as int],
            )
    }
}

/// What `after` knows, `before` knew or was learned of a frame of
/// `backtrace`; and nothing that `before` knew was lost.
pub open spec fn learned_from(before: &FrameCache, after: &FrameCache, backtrace: Seq<FrameId>) -> bool {
    &&& forall|frame: FrameId| #[trigger]
        before@.contains_key(frame) ==> after@.contains_key(frame) && after@[frame] == before@[frame]
    &&& forall|frame: FrameId| #[trigger]
        after@.contains_key(frame) ==> before@.contains_key(frame) || backtrace.contains(frame)
}

fn function_name<'a>(data: &'a Data, frame: &Frame) -> (r: Option<&'a str>)
    requires
        frame.wf(data.strings.len() as int),
    ensures
        match r {
            Some(name) => function_of(data, *frame) == Some(name@),
            None => function_of(data, *frame) is None,
        },
{
    match frame.function {
        Some(id) => Some(data.resolve(id)),
        None => match frame.raw_function {
            Some(id) => Some(data.resolve(id)),
            None => None,
        },
    }
}

fn source_path<'a>(data: &'a Data, frame: &Frame) -> (r: Option<&'a str>)
    requires
        frame.wf(data.strings.len() as int),
    ensures
        match r {
            Some(path) => source_of(data, *frame) == Some(path@),
            None => source_of(data, *frame) is None,
        },
{
    match frame.source {
        Some(id) => Some(data.resolve(id)),
        None => None,
    }
}

/// Whether there is a pattern and a text, and the one matches the other.
fn hit(pattern: &Option<Pattern>, text: Option<&str>) -> (r: bool)
    ensures
        r == hits(
            *pattern,
            match text {
                Some(text) => Some(text@),
                None => None,
            },
        ),
{
    match pattern {
        Some(pattern) => match text {
            Some(text) => pattern.is_match(text),
            None => false,
        },
        None => false,
    }
}

/// Whether a filter accepts a backtrace.
///
/// What is learned of a frame on the way is noted in the two caches, and
/// what they know already is not worked out again: each frame is tried
/// against the positive patterns at most once, and against the negative
/// patterns at most once, however many backtraces share it. A backtrace
/// whose depth is out of bounds is refused before any frame is looked at,
/// and a cache whose patterns the filter does not have is left alone.
pub fn match_backtrace(
    data: &Data,
    positive_cache: &mut FrameCache,
    negative_cache: &mut FrameCache,
    filter: &BacktraceFilter,
    backtrace: &Vec<FrameId>,
) -> (r: bool)
    requires
        data.wf(),
        forall|i: int| 0 <= i < backtrace.len() ==> backtrace[i] < data.frames.len(),
        filter.positive_verdicts(data, old(positive_cache)),
        filter.negative_verdicts(data, old(negative_cache)),
    ensures
        r == filter.accepts(data, backtrace@),
        filter.positive_verdicts(data, final(positive_cache)),
        filter.negative_verdicts(data, final(negative_cache)),
        learned_from(old(positive_cache), final(positive_cache), backtrace@),
        learned_from(old(negative_cache), final(negative_cache), backtrace@),
        !filter.deep_enough(backtrace@) ==> *final(positive_cache) == *old(positive_cache),
        !filter.deep_enough(backtrace@) ==> *final(negative_cache) == *old(negative_cache),
        !filter.has_positive() ==> *final(positive_cache) == *old(positive_cache),
        !filter.has_negative() ==> *final(negative_cache) == *old(negative_cache),
{
    if backtrace.len() < filter.backtrace_depth_min || backtrace.len() > filter.backtrace_depth_max {
        return false;
    }
    let mut positive_matched = filter.function_regex.is_none() && filter.source_regex.is_none();
    let check_negative = filter.negative_function_regex.is_some()
        || filter.negative_source_regex.is_some();

    let mut i: usize = 0;
    while i < backtrace.len()
        invariant
            data.wf(),
            0 <= i <= backtrace.len(),
            forall|i: int| 0 <= i < backtrace.len() ==> backtrace[i] < data.frames.len(),
            filter.backtrace_depth_min <= backtrace.len() <= filter.backtrace_depth_max,
            check_negative == filter.has_negative(),
            positive_matched == (!filter.has_positive() || exists|j: int|
                0 <= j < i && filter.wanted(data, #[trigger] data.frames[backtrace[j] as int])),
            forall|j: int| 0 <= j < i ==> !filter.unwanted(data, #[trigger] data.frames[backtrace[j] as int]),
            filter.positive_verdicts(data, positive_cache),
            filter.negative_verdicts(data, negative_cache),
            learned_from(old(positive_cache), positive_cache, backtrace@),
            learned_from(old(negative_cache), negative_cache, backtrace@),
            !filter.has_positive() ==> *positive_cache == *old(positive_cache),
            !filter.has_negative() ==> *negative_cache == *old(negative_cache),
        decreases backtrace.len() - i,
    {
        let frame_id: FrameId = backtrace[i];
        let frame = &data.frames[frame_id];
        assert(backtrace@.contains(frame_id));
        let ghost frames = data.frames.len() as nat;

        let check_positive = if positive_matched {
            false
        } else {
            match positive_cache.get(frame_id) {
                Some(cached_result) => {
                    positive_matched = cached_result;
                    false
                },
                None => true,
            }
        };

        if positive_matched && !check_negative {
            proof {
                assert(backtrace[i as int] == frame_id);
                if filter.has_positive() && !(exists|j: int|
                    0 <= j < i && filter.wanted(data, #[trigger] data.frames[backtrace[j] as int])) {
                    assert(positive_cache@.contains_key(frame_id));
                    assert(filter.wanted(data, data.frames[backtrace[i as int] as int]));
                }
                assert forall|k: int| 0 <= k < backtrace.len() implies !filter.unwanted(
                    data,
                    #[trigger] data.frames[backtrace[k] as int],
                ) by {}
            }
            return true;
        }

        let mut function: Option<&str> = None;
        let function_wanted = (check_positive && filter.function_regex.is_some())
            || filter.negative_function_regex.is_some();
        if function_wanted {
            function = function_name(data, frame);
        }

        let mut source: Option<&str> = None;
        let source_wanted = (check_positive && filter.source_regex.is_some())
            || filter.negative_source_regex.is_some();
        if source_wanted {
            source = source_path(data, frame);
        }

        if check_positive {
            let matched_function = if filter.function_regex.is_some() {
                hit(&filter.function_regex, function)
            } else {
                true
            };
            let matched_source = if filter.source_regex.is_some() {
                hit(&filter.source_regex, source)
            } else {
                true
            };
            positive_matched = matched_function && matched_source;
            positive_cache.insert(frame_id, positive_matched, Ghost(frames));
        }

        if check_negative {
            match negative_cache.get(frame_id) {
                Some(true) => {
                    return false;
                },
                Some(false) => {},
                None => {
                    if hit(&filter.negative_function_regex, function) {
                        negative_cache.insert(frame_id, true, Ghost(frames));
                        return false;
                    }
                    if hit(&filter.negative_source_regex, source) {
                        negative_cache.insert(frame_id, true, Ghost(frames));
                        return false;
                    }
                    negative_cache.insert(frame_id, false, Ghost(frames));
                },
            }
        }
        i += 1;
    }

    positive_matched
}

/// How a script of the user failed.
#[derive(Debug)]
pub struct EvalError {
    pub message: String,
    pub line: Option<usize>,
    pub column: Option<usize>,
}

/// The script that a request asks to run: none where it names none, and
/// none where the one it names is empty.
pub open spec fn script_of(custom_filter: &protocol::CustomFilter) -> Option<Seq<char>> {
    match custom_filter.custom_filter {
        Some(script) if script@.len() > 0 => Some(script@),
        _ => None,
    }
}

/// The script that a request asks to run, if it asks for one.
pub fn custom_filter_script(custom_filter: &protocol::CustomFilter) -> (r: Option<&str>)
    ensures
        match r {
            Some(script) => script_of(custom_filter) == Some(script@),
            None => script_of(custom_filter) is None,
        },
{
    match &custom_filter.custom_filter {
        Some(script) => {
            if script.as_str().unicode_len() == 0 {
                None
            } else {
                Some(script.as_str())
            }
        },
        None => None,
    }
}

/// The ids that a script picked: those of the list that it returned, and
/// none where it returned no list.
pub open spec fn picked_by(list: Option<Vec<AllocationId>>) -> Set<AllocationId> {
    match list {
        Some(list) => list@.to_set(),
        None => Set::empty(),
    }
}

/// Gathers the ids that a script picked into a set.
pub fn custom_set_from(list: Option<Vec<AllocationId>>) -> (r: AHashSet<AllocationId>)
    ensures
        members(r) == picked_by(list),
{
    match list {
        Some(list) => id_set_from(&list),
        None => {
            let none: Vec<AllocationId> = Vec::new();
            let set = id_set_from(&none);
            assert(none@.to_set() =~= Set::<AllocationId>::empty());
            set
        },
    }
}

/// Runs the script of a request, if it has one, and gathers the ids that
/// the script picked.
///
/// `engine` evaluates the script against the capture. It is not called where
/// the request names no script or an empty one; then the answer is `None`,
/// and no allocation is left out on the script's account.
pub fn run_custom_filter<E>(custom_filter: &protocol::CustomFilter, engine: E) -> (r: Result<
    Option<Arc<AHashSet<AllocationId>>>,
    EvalError,
>) where E: FnOnce(&str) -> Result<Option<Vec<AllocationId>>, EvalError>
    requires
        forall|script: &str| call_requires(engine, (script,)),
    ensures
        script_of(custom_filter) is None ==> r matches Ok(None),
        script_of(custom_filter) matches Some(script) ==> exists|source: &str, outcome|
            source@ == script && #[trigger] call_ensures(engine, (source,), outcome) && match outcome {
                Ok(list) => r matches Ok(Some(set)) && members(*set) == picked_by(list),
                Err(error) => r == Err::<Option<Arc<AHashSet<AllocationId>>>, EvalError>(error),
            },
{
    match custom_filter_script(custom_filter) {
        None => Ok(None),
        Some(source) => {
            match engine(source) {
                Ok(list) => Ok(Some(Arc::new(custom_set_from(list)))),
                Err(error) => Err(error),
            }
        },
    }
}

/// A filter that is ready to be applied to the allocations of a capture.
///
/// It has two parts. The first is the predicate that was compiled from what
/// the request says of allocations. The second is the set of the ids that the
/// request's script picked, where the request has a script.
pub struct AllocationFilter<F> {
    filter: F,
    custom_filter: Option<Arc<AHashSet<AllocationId>>>,
}

impl<F: Fn(DataId, AllocationId, &Allocation) -> bool> AllocationFilter<F> {
    /// The compiled predicate can be asked of every allocation, and it gives
    /// one answer only for each.
    pub closed spec fn wf(&self) -> bool {
        &&& forall|data: DataId, id: AllocationId, allocation: Allocation|
            call_requires(self.filter, (data, id, &allocation))
        &&& forall|data: DataId, id: AllocationId, allocation: Allocation, one: bool, other: bool|
            call_ensures(self.filter, (data, id, &allocation), one) && call_ensures(
                self.filter,
                (data, id, &allocation),
                other,
            ) ==> one == other
    }

    /// Whether `answer` is an answer that the compiled predicate may give
    /// when it is asked of an allocation.
    pub closed spec fn may_answer(
        &self,
        data: DataId,
        id: AllocationId,
        allocation: Allocation,
        answer: bool,
    ) -> bool {
        call_ensures(self.filter, (data, id, &allocation), answer)
    }

    /// Asked of the same allocation twice, a filter gives the same answer
    /// twice: the compiled predicate has one answer only for each allocation,
    /// and the set of the ids that a script picked does not change.
    pub proof fn lemma_one_answer(
        &self,
        data: DataId,
        id: AllocationId,
        allocation: Allocation,
        once: bool,
        again: bool,
    )
        requires
            self.wf(),
            self.may_answer(data, id, allocation, once),
            self.may_answer(data, id, allocation, again),
        ensures
            once == again,
            once == self.structural(data, id, allocation),
    {
    }

    /// Whether the compiled predicate accepts an allocation.
    pub closed spec fn structural(&self, data: DataId, id: AllocationId, allocation: Allocation) -> bool {
        call_ensures(self.filter, (data, id, &allocation), true)
    }

    /// The ids that the script picked, where there was a script.
    pub closed spec fn custom_ids(&self) -> Option<Set<AllocationId>> {
        match self.custom_filter {
            Some(set) => Some(members(*set)),
            None => None,
        }
    }

    /// An allocation matches if the compiled predicate accepts it and, where
    /// there was a script, the script picked it.
    pub open spec fn accepts(&self, data: DataId, id: AllocationId, allocation: Allocation) -> bool {
        &&& self.custom_ids() matches Some(ids) ==> ids.contains(id)
        &&& self.structural(data, id, allocation)
    }

    /// Puts the two parts of a filter together.
    pub fn new(filter: F, custom_filter: Option<Arc<AHashSet<AllocationId>>>) -> (r: Self)
        requires
            forall|data: DataId, id: AllocationId, allocation: Allocation|
                call_requires(filter, (data, id, &allocation)),
            forall|data: DataId, id: AllocationId, allocation: Allocation, one: bool, other: bool|
                call_ensures(filter, (data, id, &allocation), one) && call_ensures(
                    filter,
                    (data, id, &allocation),
                    other,
                ) ==> one == other,
        ensures
            r.wf(),
            r.custom_ids() == match custom_filter {
                Some(set) => Some(members(*set)),
                None => None,
            },
            forall|data: DataId, id: AllocationId, allocation: Allocation|
                r.structural(data, id, allocation) == call_ensures(filter, (data, id, &allocation), true),
    {
        AllocationFilter { filter, custom_filter }
    }

    /// Whether the filter accepts the allocation `id` of `data`.
    pub fn try_match(&self, data: &Data, id: AllocationId, allocation: &Allocation) -> (r: bool)
        requires
            self.wf(),
        ensures
            r == self.accepts(data.id, id, *allocation),
    {
        if let Some(custom_filter) = &self.custom_filter {
            if !contains(custom_filter, id) {
                return false;
            }
        }

        if !(self.filter)(data.id, id, allocation) {
            return false;
        }

        true
    }
}

/// Whether `compiled` can be asked of every allocation and gives one
/// answer only for each.
pub open spec fn is_predicate<F: Fn(DataId, AllocationId, &Allocation) -> bool>(compiled: F) -> bool {
    &&& forall|data: DataId, id: AllocationId, allocation: Allocation|
        call_requires(compiled, (data, id, &allocation))
    &&& forall|data: DataId, id: AllocationId, allocation: Allocation, one: bool, other: bool|
        call_ensures(compiled, (data, id, &allocation), one) && call_ensures(
            compiled,
            (data, id, &allocation),
            other,
        ) ==> one == other
}

/// Prepares the filter of a request.
///
/// What the request says of allocations is translated and handed to
/// `compile`, which makes a predicate of it; the script of the request, if
/// it has one, is handed to `engine`, which evaluates it. A pattern that the
/// regex engine refuses fails the request before either is called, and a
/// script that fails fails the request with the script's message.
pub fn prepare_filter<C, F, E>(
    data: &Data,
    filter: &protocol::AllocFilter,
    custom_filter: &protocol::CustomFilter,
    compile: C,
    engine: E,
) -> (r: Result<AllocationFilter<F>, PrepareFilterError>) where
    C: FnOnce(Filter) -> F,
    F: Fn(DataId, AllocationId, &Allocation) -> bool,
    E: FnOnce(&str) -> Result<Option<Vec<AllocationId>>, EvalError>,

    requires
        data.initial_timestamp.usecs <= data.last_timestamp.usecs,
        forall|lowered: Filter| call_requires(compile, (lowered,)),
        forall|lowered: Filter, compiled: F|
            call_ensures(compile, (lowered,), compiled) ==> is_predicate(compiled),
        forall|script: &str| call_requires(engine, (script,)),
    ensures
        first_invalid_field(filter) matches Some(name) ==> r matches Err(
            PrepareFilterError::InvalidRegex(field, _),
        ) && field == name,
        r matches Err(PrepareFilterError::InvalidRegex(_, _)) ==> first_invalid_field(filter) is Some,
        r matches Err(PrepareFilterError::InvalidCustomFilter(message)) ==> exists|
            source: &str,
            error: EvalError,
        |
            script_of(custom_filter) == Some(source@) && #[trigger] call_ensures(
                engine,
                (source,),
                Err::<Option<Vec<AllocationId>>, EvalError>(error),
            ) && error.message == message,
        r matches Ok(prepared) ==> {
            &&& prepared.wf()
            &&& exists|lowered: Filter, compiled: F|
                lowered.lowers(filter, data) && #[trigger] call_ensures(compile, (lowered,), compiled)
                    && forall|data: DataId, id: AllocationId, allocation: Allocation|
                    prepared.structural(data, id, allocation) == call_ensures(
                        compiled,
                        (data, id, &allocation),
                        true,
                    )
            &&& script_of(custom_filter) is None ==> prepared.custom_ids() is None
            &&& script_of(custom_filter) matches Some(script) ==> exists|
                source: &str,
                list: Option<Vec<AllocationId>>,
            |
                source@ == script && #[trigger] call_ensures(
                    engine,
                    (source,),
                    Ok::<Option<Vec<AllocationId>>, EvalError>(list),
                ) && prepared.custom_ids() == Some(picked_by(list))
        },
{
    let lowered = match prepare_raw_filter(data, filter) {
        Ok(lowered) => lowered,
        Err(error) => {
            return Err(error);
        },
    };
    let compiled = compile(lowered);
    let custom_filter = match run_custom_filter(custom_filter, engine) {
        Ok(custom_filter) => custom_filter,
        Err(error) => {
            return Err(PrepareFilterError::InvalidCustomFilter(error.message));
        },
    };

    Ok(AllocationFilter::new(compiled, custom_filter))
}

/// A request in its plainest words is translated as the request itself
/// is: the two ask for the same allocations.
pub proof fn lemma_plain_lowers_alike(output: &Filter, filter: &protocol::AllocFilter, data: &Data)
    ensures
        output.lowers(filter, data) <==> output.lowers(&filter.plain(), data),
        first_invalid_field(filter) == first_invalid_field(&filter.plain()),
{
}

} // verus!
