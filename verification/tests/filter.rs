use std::cell::Cell;

use server_core::allocations::{matching_ids, page, prefiltered_allocation_ids};
use server_core::capture::{Allocation, Data, Deallocation, Frame, GroupStatistics, Operation};
use server_core::error::{error_text, ServerError};
use server_core::filter::{
    custom_filter_script, custom_set_from, match_backtrace, prepare_backtrace_filter, prepare_filter,
    prepare_raw_filter, run_custom_filter, AllocationFilter, EvalError, Filter, NumberOrFractionOfTotal,
    PrepareFilterError,
};
use server_core::frame_cache::FrameCache;
use server_core::id_set::{contains, id_set_from};
use server_core::pattern::Pattern;
use server_core::protocol::{
    AllocFilter, AllocSortBy, ArenaFilter, BacktraceFilter, CustomFilter, JemallocFilter, LifetimeFilter,
    MmapedFilter, NumberOrPercentage, Order, TimestampFilter,
};
use server_core::timestamp::Timestamp;

fn allocation(pointer: u64, size: u64, usecs: u64, backtrace: u32, freed_at: Option<u64>) -> Allocation {
    Allocation {
        pointer,
        size,
        timestamp: Timestamp { usecs },
        thread: 1,
        backtrace,
        deallocation: freed_at.map(|usecs| Deallocation { timestamp: Timestamp { usecs }, thread: 1 }),
        in_main_arena: true,
        is_mmaped: false,
        is_jemalloc: false,
        extra_usable_space: 0,
        position_in_chain: 0,
        chain_length: 1,
        chain_lifetime: None,
    }
}

fn frame(function: Option<usize>, source: Option<usize>, address: u64) -> Frame {
    Frame {
        address,
        count: 1,
        library: None,
        function,
        raw_function: None,
        source,
        line: None,
        column: None,
        is_inline: false,
    }
}

fn sorted_ids(allocations: &[Allocation], key: fn(&Allocation) -> u64) -> Vec<u64> {
    let mut ids: Vec<u64> = (0..allocations.len() as u64).collect();
    ids.sort_by_key(|&id| key(&allocations[id as usize]));
    ids
}

fn capture(
    allocations: Vec<Allocation>,
    operations: Vec<Operation>,
    backtraces: Vec<Vec<usize>>,
    frames: Vec<Frame>,
    strings: Vec<&str>,
    last_usecs: u64,
) -> Data {
    let mut group_statistics = Vec::new();
    for backtrace in 0..backtraces.len() as u32 {
        let mut statistics = GroupStatistics {
            first_allocation: Timestamp { usecs: last_usecs },
            last_allocation: Timestamp { usecs: last_usecs },
            min_size: u64::MAX,
            max_size: 0,
            alloc_count: 0,
            alloc_size: 0,
            free_count: 0,
            free_size: 0,
            max_total_usage_first_seen_at: Timestamp { usecs: 0 },
        };
        let mut first = true;
        for allocation in allocations.iter().filter(|allocation| allocation.backtrace == backtrace) {
            if first {
                statistics.first_allocation = allocation.timestamp;
                statistics.last_allocation = allocation.timestamp;
                first = false;
            }
            if allocation.timestamp.usecs < statistics.first_allocation.usecs {
                statistics.first_allocation = allocation.timestamp;
            }
            if allocation.timestamp.usecs > statistics.last_allocation.usecs {
                statistics.last_allocation = allocation.timestamp;
            }
            statistics.min_size = statistics.min_size.min(allocation.size);
            statistics.max_size = statistics.max_size.max(allocation.size);
            statistics.alloc_count += 1;
            statistics.alloc_size += allocation.size;
            if allocation.deallocation.is_some() {
                statistics.free_count += 1;
                statistics.free_size += allocation.size;
            }
        }
        group_statistics.push(statistics);
    }
    Data {
        id: 1,
        executable: String::from("/usr/bin/traced"),
        architecture: String::from("x86_64"),
        initial_timestamp: Timestamp { usecs: 0 },
        last_timestamp: Timestamp { usecs: last_usecs },
        total_allocated: allocations.iter().map(|allocation| allocation.size).sum(),
        total_freed: allocations
            .iter()
            .filter(|allocation| allocation.deallocation.is_some())
            .map(|allocation| allocation.size)
            .sum(),
        total_allocated_count: allocations.len() as u64,
        total_freed_count: allocations.iter().filter(|allocation| allocation.deallocation.is_some()).count()
            as u64,
        maximum_backtrace_depth: backtraces.iter().map(|backtrace| backtrace.len()).max().unwrap_or(0) as u32,
        sorted_by_timestamp: sorted_ids(&allocations, |allocation| allocation.timestamp.usecs),
        sorted_by_address: sorted_ids(&allocations, |allocation| allocation.pointer),
        sorted_by_size: sorted_ids(&allocations, |allocation| allocation.size),
        allocations,
        operations,
        backtraces,
        frames,
        strings: strings.into_iter().map(String::from).collect(),
        group_statistics,
        mmap_operations: Vec::new(),
        mallopts: Vec::new(),
    }
}

fn no_filter() -> AllocFilter {
    AllocFilter {
        from: None,
        to: None,
        lifetime: None,
        address_min: None,
        address_max: None,
        size_min: None,
        size_max: None,
        first_size_min: None,
        first_size_max: None,
        last_size_min: None,
        last_size_max: None,
        lifetime_min: None,
        lifetime_max: None,
        function_regex: None,
        source_regex: None,
        negative_function_regex: None,
        negative_source_regex: None,
        backtrace_depth_min: None,
        backtrace_depth_max: None,
        backtraces: None,
        mmaped: None,
        jemalloc: None,
        arena: None,
        marker: None,
        group_interval_min: None,
        group_interval_max: None,
        group_max_total_usage_first_seen_min: None,
        group_max_total_usage_first_seen_max: None,
        group_allocations_min: None,
        group_allocations_max: None,
        group_leaked_allocations_min: None,
        group_leaked_allocations_max: None,
        chain_length_min: None,
        chain_length_max: None,
        chain_lifetime_min: None,
        chain_lifetime_max: None,
    }
}

const SECOND: u64 = 1_000_000;

fn between(initial: u64, last: u64) -> Data {
    let mut data = capture(vec![], vec![], vec![], vec![], vec![], last);
    data.initial_timestamp = Timestamp { usecs: initial };
    data
}

fn lowered(data: &Data, filter: &AllocFilter) -> Filter {
    prepare_raw_filter(data, filter).ok().unwrap()
}

#[test]
fn a_share_of_the_capture_is_a_moment_of_the_capture() {
    let start = Timestamp { usecs: 1000 };
    let end = Timestamp { usecs: 3000 };
    assert_eq!(TimestampFilter::Percent(0).to_timestamp(start, end), Timestamp { usecs: 1000 });
    assert_eq!(TimestampFilter::Percent(50).to_timestamp(start, end), Timestamp { usecs: 2000 });
    assert_eq!(TimestampFilter::Percent(100).to_timestamp(start, end), Timestamp { usecs: 3000 });
    assert_eq!(TimestampFilter::Percent(150).to_timestamp(start, end), Timestamp { usecs: 4000 });
    assert_eq!(TimestampFilter::Percent(33).to_timestamp(start, end), Timestamp { usecs: 1660 });
    assert_eq!(
        TimestampFilter::Timestamp(Timestamp { usecs: 7 }).to_timestamp(start, end),
        Timestamp { usecs: 7 }
    );
}

#[test]
fn no_moment_lies_beyond_the_latest_timestamp() {
    let start = Timestamp { usecs: 10 };
    let end = Timestamp { usecs: u64::MAX };
    assert_eq!(TimestampFilter::Percent(u32::MAX).to_timestamp(start, end), Timestamp::max());
    assert_eq!(TimestampFilter::Percent(200).to_timestamp(start, end), Timestamp::max());
}

#[test]
fn a_request_that_asks_for_nothing_bounds_nothing() {
    let data = between(0, 10 * SECOND);
    let output = lowered(&data, &no_filter());
    assert_eq!(output.only_allocated_after_at_least, None);
    assert_eq!(output.only_allocated_until_at_most, None);
    assert_eq!(output.only_deallocated_after_at_least, None);
    assert_eq!(output.only_deallocated_until_at_most, None);
    assert_eq!(output.only_not_deallocated_after_at_least, None);
    assert_eq!(output.only_address_at_least, None);
    assert_eq!(output.only_larger_or_equal, None);
    assert_eq!(output.only_backtrace_length_at_least, None);
    assert_eq!(output.only_matching_backtraces, None);
    assert!(!output.only_ptmalloc_mmaped && !output.only_ptmalloc_not_mmaped);
    assert!(!output.only_jemalloc && !output.only_not_jemalloc);
    assert!(!output.only_ptmalloc_from_main_arena && !output.only_ptmalloc_not_from_main_arena);
    assert!(output.only_passing_through_function.is_none());
    assert!(output.only_not_passing_through_source.is_none());
    assert_eq!(output.only_group_leaked_allocations_at_least, None);
    assert!(!output.only_leaked && !output.only_temporary);
}

#[test]
fn bounds_are_taken_over_as_the_request_gives_them() {
    let data = between(SECOND, 11 * SECOND);
    let filter = AllocFilter {
        from: Some(TimestampFilter::Percent(10)),
        to: Some(TimestampFilter::Timestamp(Timestamp { usecs: 5 * SECOND })),
        address_min: Some(0x1000),
        address_max: Some(0x2000),
        size_min: Some(1),
        size_max: Some(2),
        first_size_min: Some(3),
        first_size_max: Some(4),
        last_size_min: Some(5),
        last_size_max: Some(6),
        lifetime_min: Some(Timestamp { usecs: 7 }),
        lifetime_max: Some(Timestamp { usecs: 8 }),
        backtrace_depth_min: Some(9),
        backtrace_depth_max: Some(10),
        backtraces: Some(11),
        marker: Some(12),
        group_interval_min: Some(TimestampFilter::Percent(50)),
        group_interval_max: Some(TimestampFilter::Percent(100)),
        group_max_total_usage_first_seen_min: Some(TimestampFilter::Percent(0)),
        group_max_total_usage_first_seen_max: Some(TimestampFilter::Timestamp(Timestamp { usecs: 13 })),
        group_allocations_min: Some(14),
        group_allocations_max: Some(15),
        group_leaked_allocations_min: Some(NumberOrPercentage::Absolute(16)),
        group_leaked_allocations_max: Some(NumberOrPercentage::Percent(17)),
        chain_length_min: Some(18),
        chain_length_max: Some(19),
        chain_lifetime_min: Some(Timestamp { usecs: 20 }),
        chain_lifetime_max: Some(Timestamp { usecs: 21 }),
        ..no_filter()
    };
    let output = lowered(&data, &filter);
    assert_eq!(output.only_allocated_after_at_least, Some(Timestamp { usecs: 2 * SECOND }));
    assert_eq!(output.only_allocated_until_at_most, Some(Timestamp { usecs: 5 * SECOND }));
    assert_eq!(output.only_address_at_least, Some(0x1000));
    assert_eq!(output.only_address_at_most, Some(0x2000));
    assert_eq!(output.only_larger_or_equal, Some(1));
    assert_eq!(output.only_smaller_or_equal, Some(2));
    assert_eq!(output.only_first_size_larger_or_equal, Some(3));
    assert_eq!(output.only_first_size_smaller_or_equal, Some(4));
    assert_eq!(output.only_last_size_larger_or_equal, Some(5));
    assert_eq!(output.only_last_size_smaller_or_equal, Some(6));
    assert_eq!(output.only_alive_for_at_least, Some(Timestamp { usecs: 7 }));
    assert_eq!(output.only_alive_for_at_most, Some(Timestamp { usecs: 8 }));
    assert_eq!(output.only_backtrace_length_at_least, Some(9));
    assert_eq!(output.only_backtrace_length_at_most, Some(10));
    assert_eq!(output.only_matching_backtraces, Some(11));
    assert_eq!(output.only_with_marker, Some(12));
    assert_eq!(output.only_group_interval_at_least, Some(Timestamp { usecs: 6 * SECOND }));
    assert_eq!(output.only_group_interval_at_most, Some(Timestamp { usecs: 11 * SECOND }));
    assert_eq!(output.only_group_max_total_usage_first_seen_at_least, Some(Timestamp { usecs: SECOND }));
    assert_eq!(output.only_group_max_total_usage_first_seen_at_most, Some(Timestamp { usecs: 13 }));
    assert_eq!(output.only_group_allocations_at_least, Some(14));
    assert_eq!(output.only_group_allocations_at_most, Some(15));
    assert_eq!(output.only_group_leaked_allocations_at_least, Some(NumberOrFractionOfTotal::Number(16)));
    assert_eq!(output.only_group_leaked_allocations_at_most, Some(NumberOrFractionOfTotal::Fraction(17)));
    assert_eq!(output.only_chain_length_at_least, Some(18));
    assert_eq!(output.only_chain_length_at_most, Some(19));
    assert_eq!(output.only_chain_alive_for_at_least, Some(Timestamp { usecs: 20 }));
    assert_eq!(output.only_chain_alive_for_at_most, Some(Timestamp { usecs: 21 }));
}

#[test]
fn each_selector_raises_the_flag_that_stands_for_it() {
    let data = between(0, SECOND);
    let yes = lowered(
        &data,
        &AllocFilter {
            mmaped: Some(MmapedFilter::Yes),
            jemalloc: Some(JemallocFilter::Yes),
            arena: Some(ArenaFilter::Main),
            ..no_filter()
        },
    );
    assert!(yes.only_ptmalloc_mmaped && !yes.only_ptmalloc_not_mmaped);
    assert!(yes.only_jemalloc && !yes.only_not_jemalloc);
    assert!(yes.only_ptmalloc_from_main_arena && !yes.only_ptmalloc_not_from_main_arena);
    let no = lowered(
        &data,
        &AllocFilter {
            mmaped: Some(MmapedFilter::No),
            jemalloc: Some(JemallocFilter::No),
            arena: Some(ArenaFilter::NonMain),
            ..no_filter()
        },
    );
    assert!(!no.only_ptmalloc_mmaped && no.only_ptmalloc_not_mmaped);
    assert!(!no.only_jemalloc && no.only_not_jemalloc);
    assert!(!no.only_ptmalloc_from_main_arena && no.only_ptmalloc_not_from_main_arena);
}

#[test]
fn each_kind_of_life_is_spelled_out_in_bounds() {
    let data = between(SECOND, 11 * SECOND);
    let from = Some(TimestampFilter::Timestamp(Timestamp { usecs: 3 * SECOND }));
    let to = Some(TimestampFilter::Timestamp(Timestamp { usecs: 7 * SECOND }));
    let with = |lifetime| AllocFilter { from, to, lifetime: Some(lifetime), ..no_filter() };

    let all = lowered(&data, &with(LifetimeFilter::All));
    assert!(!all.only_leaked && !all.only_temporary);
    assert_eq!(all.only_deallocated_after_at_least, None);
    assert_eq!(all.only_not_deallocated_after_at_least, None);

    let leaked = lowered(&data, &with(LifetimeFilter::OnlyLeaked));
    assert!(leaked.only_leaked && !leaked.only_temporary);

    let temporary = lowered(&data, &with(LifetimeFilter::OnlyTemporary));
    assert!(temporary.only_temporary && !temporary.only_leaked);

    let kept = lowered(&data, &with(LifetimeFilter::OnlyNotDeallocatedInCurrentRange));
    assert_eq!(kept.only_not_deallocated_after_at_least, Some(Timestamp { usecs: 3 * SECOND }));
    assert_eq!(kept.only_not_deallocated_until_at_most, Some(Timestamp { usecs: 7 * SECOND }));
    assert_eq!(kept.only_deallocated_after_at_least, None);

    let freed = lowered(&data, &with(LifetimeFilter::OnlyDeallocatedInCurrentRange));
    assert_eq!(freed.only_deallocated_after_at_least, Some(Timestamp { usecs: 3 * SECOND }));
    assert_eq!(freed.only_deallocated_until_at_most, Some(Timestamp { usecs: 7 * SECOND }));
    assert_eq!(freed.only_not_deallocated_after_at_least, None);

    let whole = lowered(&data, &with(LifetimeFilter::OnlyWholeGroupLeaked));
    assert_eq!(whole.only_group_leaked_allocations_at_least, Some(NumberOrFractionOfTotal::Fraction(100)));
}

#[test]
fn a_range_that_the_request_leaves_open_is_the_whole_capture() {
    let data = between(SECOND, 11 * SECOND);
    let open = lowered(
        &data,
        &AllocFilter { lifetime: Some(LifetimeFilter::OnlyDeallocatedInCurrentRange), ..no_filter() },
    );
    assert_eq!(open.only_deallocated_after_at_least, Some(Timestamp { usecs: 0 }));
    assert_eq!(open.only_deallocated_until_at_most, Some(Timestamp { usecs: 11 * SECOND }));
    let late = lowered(
        &data,
        &AllocFilter {
            to: Some(TimestampFilter::Percent(200)),
            lifetime: Some(LifetimeFilter::OnlyDeallocatedInCurrentRange),
            ..no_filter()
        },
    );
    assert_eq!(late.only_deallocated_until_at_most, Some(Timestamp { usecs: 11 * SECOND }));
    let unset = lowered(
        &data,
        &AllocFilter { lifetime: Some(LifetimeFilter::OnlyNotDeallocatedInCurrentRange), ..no_filter() },
    );
    assert_eq!(unset.only_not_deallocated_after_at_least, None);
    assert_eq!(unset.only_not_deallocated_until_at_most, None);
}

#[test]
fn a_count_stays_a_count_and_a_percentage_becomes_a_share() {
    assert_eq!(
        NumberOrFractionOfTotal::from(NumberOrPercentage::Absolute(7)),
        NumberOrFractionOfTotal::Number(7)
    );
    assert_eq!(
        NumberOrFractionOfTotal::from(NumberOrPercentage::Percent(42)),
        NumberOrFractionOfTotal::Fraction(42)
    );
}

#[test]
fn patterns_are_compiled() {
    let data = between(0, SECOND);
    let output = lowered(
        &data,
        &AllocFilter {
            function_regex: Some(String::from("^main$")),
            negative_function_regex: Some(String::from("alloc")),
            source_regex: Some(String::from("\\.rs$")),
            negative_source_regex: Some(String::from("vendor/")),
            ..no_filter()
        },
    );
    let function = output.only_passing_through_function.unwrap();
    assert_eq!(function.as_str(), "^main$");
    assert!(function.is_match("main"));
    assert!(!function.is_match("domain"));
    assert_eq!(output.only_not_passing_through_function.unwrap().as_str(), "alloc");
    let source = output.only_passing_through_source.unwrap();
    assert!(source.is_match("src/lib.rs"));
    assert!(!source.is_match("src/lib.rst"));
    assert_eq!(output.only_not_passing_through_source.unwrap().as_str(), "vendor/");
}

fn refused_field(result: Result<Filter, PrepareFilterError>) -> &'static str {
    match result {
        Err(PrepareFilterError::InvalidRegex(field, _)) => field,
        _ => panic!("the pattern was not refused"),
    }
}

#[test]
fn the_first_pattern_that_is_refused_fails_the_request() {
    let data = between(0, SECOND);
    let broken = Some(String::from("("));
    let fine = Some(String::from("fine"));
    let one = AllocFilter { function_regex: broken.clone(), ..no_filter() };
    assert_eq!(refused_field(prepare_raw_filter(&data, &one)), "function_regex");
    let two = AllocFilter { negative_function_regex: broken.clone(), function_regex: fine.clone(), ..no_filter() };
    assert_eq!(refused_field(prepare_raw_filter(&data, &two)), "negative_function_regex");
    let three = AllocFilter { source_regex: broken.clone(), ..no_filter() };
    assert_eq!(refused_field(prepare_raw_filter(&data, &three)), "source_regex");
    let four = AllocFilter { negative_source_regex: broken.clone(), source_regex: fine, ..no_filter() };
    assert_eq!(refused_field(prepare_raw_filter(&data, &four)), "negative_source_regex");
    let both = AllocFilter {
        negative_function_regex: broken.clone(),
        source_regex: broken.clone(),
        negative_source_regex: broken,
        ..no_filter()
    };
    assert_eq!(refused_field(prepare_raw_filter(&data, &both)), "negative_function_regex");
}

#[test]
fn the_client_is_told_which_field_holds_the_refused_pattern() {
    let data = between(0, SECOND);
    let filter = AllocFilter { function_regex: Some(String::from("(")), ..no_filter() };
    let error = prepare_raw_filter(&data, &filter).err().unwrap();
    let message = error.message();
    assert!(message.starts_with("invalid 'function_regex': "));
    assert!(message.len() > "invalid 'function_regex': ".len());
    let failed = PrepareFilterError::InvalidCustomFilter(String::from("no such function"));
    assert_eq!(failed.message(), "failed to evaluate custom filter: no such function");
}

#[test]
fn a_pattern_is_what_the_regex_engine_makes_of_its_text() {
    assert!(Pattern::new("a+b").is_ok());
    assert!(Pattern::new("a+b").ok().unwrap().is_match("xaab"));
    assert!(!Pattern::new("^a+b$").ok().unwrap().is_match("xaab"));
    assert!(Pattern::new("[").is_err());
    assert!(Pattern::new("").ok().unwrap().is_match("anything"));
}

fn wire(
    function: Option<&str>,
    source: Option<&str>,
    negative_function: Option<&str>,
    negative_source: Option<&str>,
) -> BacktraceFilter {
    BacktraceFilter {
        backtrace_depth_min: None,
        backtrace_depth_max: None,
        function_regex: function.map(String::from),
        source_regex: source.map(String::from),
        negative_function_regex: negative_function.map(String::from),
        negative_source_regex: negative_source.map(String::from),
    }
}

#[test]
fn a_backtrace_filter_has_its_depths_and_its_patterns() {
    let open = prepare_backtrace_filter(&wire(None, None, None, None)).ok().unwrap();
    assert_eq!(open.backtrace_depth_min, 0);
    assert_eq!(open.backtrace_depth_max, u32::MAX as usize);
    assert!(open.function_regex.is_none() && open.source_regex.is_none());
    assert!(open.negative_function_regex.is_none() && open.negative_source_regex.is_none());
    let bounded = prepare_backtrace_filter(&BacktraceFilter {
        backtrace_depth_min: Some(2),
        backtrace_depth_max: Some(5),
        ..wire(Some("f"), Some("s"), Some("nf"), Some("ns"))
    })
    .ok()
    .unwrap();
    assert_eq!(bounded.backtrace_depth_min, 2);
    assert_eq!(bounded.backtrace_depth_max, 5);
    assert_eq!(bounded.function_regex.unwrap().as_str(), "f");
    assert_eq!(bounded.source_regex.unwrap().as_str(), "s");
    assert_eq!(bounded.negative_function_regex.unwrap().as_str(), "nf");
    assert_eq!(bounded.negative_source_regex.unwrap().as_str(), "ns");
}

#[test]
fn the_patterns_of_a_backtrace_filter_are_compiled_in_their_order() {
    let field = |filter: BacktraceFilter| match prepare_backtrace_filter(&filter) {
        Err(PrepareFilterError::InvalidRegex(field, _)) => field,
        _ => panic!("the pattern was not refused"),
    };
    assert_eq!(field(wire(Some("("), Some("("), Some("("), Some("("))), "function_regex");
    assert_eq!(field(wire(None, Some("("), Some("("), Some("("))), "source_regex");
    assert_eq!(field(wire(None, None, Some("("), Some("("))), "negative_function_regex");
    assert_eq!(field(wire(None, None, None, Some("("))), "negative_source_regex");
}

/// Frames: 0 `alpha` in a.rs, 1 `beta` in b.rs, 2 raw name `gamma` without a
/// source, 3 without a name in c.rs.
fn frames() -> Data {
    let mut raw = frame(None, None, 3);
    raw.raw_function = Some(4);
    let data = capture(
        vec![],
        vec![],
        vec![vec![0, 1], vec![1, 2], vec![2, 3], vec![], vec![0, 0, 0]],
        vec![frame(Some(0), Some(1), 1), frame(Some(2), Some(3), 2), raw, frame(None, Some(5), 4)],
        vec!["alpha", "a.rs", "beta", "b.rs", "gamma", "c.rs"],
        SECOND,
    );
    assert!(data.validate());
    data
}

fn accepted(data: &Data, filter: &BacktraceFilter) -> Vec<usize> {
    let filter = prepare_backtrace_filter(filter).ok().unwrap();
    let mut positive = FrameCache::new();
    let mut negative = FrameCache::new();
    (0..data.backtraces.len())
        .filter(|&id| match_backtrace(data, &mut positive, &mut negative, &filter, &data.backtraces[id]))
        .collect()
}

#[test]
fn a_filter_without_patterns_accepts_every_backtrace() {
    let data = frames();
    assert_eq!(accepted(&data, &wire(None, None, None, None)), vec![0, 1, 2, 3, 4]);
}

#[test]
fn the_depth_of_a_backtrace_must_be_within_the_bounds() {
    let data = frames();
    let deep = BacktraceFilter { backtrace_depth_min: Some(2), ..wire(None, None, None, None) };
    assert_eq!(accepted(&data, &deep), vec![0, 1, 2, 4]);
    let shallow = BacktraceFilter { backtrace_depth_max: Some(2), ..wire(None, None, None, None) };
    assert_eq!(accepted(&data, &shallow), vec![0, 1, 2, 3]);
    let exact = BacktraceFilter {
        backtrace_depth_min: Some(3),
        backtrace_depth_max: Some(3),
        ..wire(None, None, None, None)
    };
    assert_eq!(accepted(&data, &exact), vec![4]);
}

#[test]
fn one_frame_must_satisfy_the_positive_patterns() {
    let data = frames();
    assert_eq!(accepted(&data, &wire(Some("^beta$"), None, None, None)), vec![0, 1]);
    assert_eq!(accepted(&data, &wire(None, Some("c\\.rs"), None, None)), vec![2]);
    assert_eq!(accepted(&data, &wire(Some("alpha"), Some("a\\.rs"), None, None)), vec![0, 4]);
    assert_eq!(accepted(&data, &wire(Some("alpha"), Some("b\\.rs"), None, None)), Vec::<usize>::new());
}

#[test]
fn the_raw_name_of_a_function_stands_in_for_a_missing_name() {
    let data = frames();
    assert_eq!(accepted(&data, &wire(Some("gamma"), None, None, None)), vec![1, 2]);
    assert_eq!(accepted(&data, &wire(None, None, Some("gamma"), None)), vec![0, 3, 4]);
}

#[test]
fn a_frame_without_a_text_satisfies_no_pattern_for_it() {
    let data = frames();
    assert_eq!(accepted(&data, &wire(Some(""), None, None, None)), vec![0, 1, 2, 4]);
    assert_eq!(accepted(&data, &wire(None, Some(""), None, None)), vec![0, 1, 2, 4]);
}

#[test]
fn no_frame_may_match_a_negative_pattern() {
    let data = frames();
    assert_eq!(accepted(&data, &wire(None, None, Some("beta"), None)), vec![2, 3, 4]);
    assert_eq!(accepted(&data, &wire(None, None, None, Some("c\\.rs"))), vec![0, 1, 3, 4]);
    assert_eq!(accepted(&data, &wire(Some("alpha"), None, Some("beta"), None)), vec![4]);
    assert_eq!(accepted(&data, &wire(Some("beta"), None, None, Some("a\\.rs"))), vec![1]);
}

#[test]
fn no_frame_is_tried_against_the_patterns_more_than_once() {
    let data = frames();
    let filter = prepare_backtrace_filter(&wire(Some("nothing"), None, Some("nothing"), None)).ok().unwrap();
    let mut positive = FrameCache::new();
    let mut negative = FrameCache::new();
    assert_eq!(positive.evaluations(), 0);
    for _ in 0..3 {
        for backtrace in data.backtraces.iter() {
            assert!(!match_backtrace(&data, &mut positive, &mut negative, &filter, backtrace));
        }
    }
    assert_eq!(positive.evaluations(), 4);
    assert_eq!(negative.evaluations(), 4);
    assert_eq!(positive.get(0), Some(false));
    assert_eq!(negative.get(3), Some(false));
    assert!(positive.evaluations() <= data.frames.len());
}

#[test]
fn what_the_caches_know_decides_as_the_patterns_would() {
    let data = frames();
    let filter = prepare_backtrace_filter(&wire(Some("alpha"), None, Some("gamma"), None)).ok().unwrap();
    let mut positive = FrameCache::new();
    let mut negative = FrameCache::new();
    let first: Vec<bool> = data
        .backtraces
        .iter()
        .map(|backtrace| match_backtrace(&data, &mut positive, &mut negative, &filter, backtrace))
        .collect();
    let second: Vec<bool> = data
        .backtraces
        .iter()
        .map(|backtrace| match_backtrace(&data, &mut positive, &mut negative, &filter, backtrace))
        .collect();
    assert_eq!(first, vec![true, false, false, false, true]);
    assert_eq!(first, second);
    assert_eq!(positive.get(0), Some(true));
    assert_eq!(negative.get(2), Some(true));
}

#[test]
fn the_script_of_a_request_is_run_unless_it_is_missing_or_empty() {
    assert_eq!(custom_filter_script(&CustomFilter { custom_filter: None }), None);
    assert_eq!(custom_filter_script(&CustomFilter { custom_filter: Some(String::new()) }), None);
    assert_eq!(
        custom_filter_script(&CustomFilter { custom_filter: Some(String::from("allocations()")) }),
        Some("allocations()")
    );
}

#[test]
fn the_ids_that_a_script_picked_are_gathered_in_a_set() {
    let set = id_set_from(&vec![3, 1, 3, 7]);
    assert!(contains(&set, 1) && contains(&set, 3) && contains(&set, 7));
    assert!(!contains(&set, 0) && !contains(&set, 2));
    assert_eq!(set.len(), 3);
    assert!(custom_set_from(None).is_empty());
    assert!(contains(&custom_set_from(Some(vec![5])), 5));
}

fn failed() -> EvalError {
    EvalError { message: String::from("unknown function"), line: Some(1), column: Some(2) }
}

#[test]
fn a_script_is_handed_to_the_engine_once() {
    let calls = Cell::new(0);
    let request = CustomFilter { custom_filter: Some(String::from("pick()")) };
    let picked = run_custom_filter(&request, |script| {
        calls.set(calls.get() + 1);
        assert_eq!(script, "pick()");
        Ok(Some(vec![2, 4]))
    })
    .ok()
    .unwrap()
    .unwrap();
    assert_eq!(calls.get(), 1);
    assert!(contains(&picked, 2) && contains(&picked, 4) && !contains(&picked, 3));

    let nothing = run_custom_filter(&request, |_| Ok(None)).ok().unwrap().unwrap();
    assert!(nothing.is_empty());

    let error = run_custom_filter(&request, |_| Err(failed())).err().unwrap();
    assert_eq!(error.message, "unknown function");
}

#[test]
fn the_engine_is_not_called_without_a_script() {
    let called = Cell::new(false);
    let missing = run_custom_filter(&CustomFilter { custom_filter: None }, |_| {
        called.set(true);
        Ok(None)
    });
    assert!(missing.ok().unwrap().is_none());
    let empty = run_custom_filter(&CustomFilter { custom_filter: Some(String::new()) }, |_| {
        called.set(true);
        Ok(None)
    });
    assert!(empty.ok().unwrap().is_none());
    assert!(!called.get());
}

fn sized() -> Data {
    let allocations = vec![
        allocation(0x3000, 10, 0, 0, None),
        allocation(0x1000, 40, SECOND, 0, None),
        allocation(0x2000, 20, 2 * SECOND, 0, None),
        allocation(0x4000, 30, 3 * SECOND, 0, None),
    ];
    let data = capture(allocations, vec![], vec![vec![]], vec![], vec![], 4 * SECOND);
    assert!(data.validate());
    data
}

#[test]
fn a_filter_is_prepared_from_what_is_compiled_and_what_the_script_picked() {
    let data = sized();
    let request = AllocFilter { size_min: Some(20), ..no_filter() };
    let script = CustomFilter { custom_filter: Some(String::from("pick()")) };
    let filter = prepare_filter(
        &data,
        &request,
        &script,
        |lowered: Filter| {
            let least = lowered.only_larger_or_equal.unwrap();
            move |_: u64, _: u64, allocation: &Allocation| allocation.size >= least
        },
        |_| Ok(Some(vec![0, 1, 3])),
    )
    .ok()
    .unwrap();
    assert!(!filter.try_match(&data, 0, &data.allocations[0]));
    assert!(filter.try_match(&data, 1, &data.allocations[1]));
    assert!(!filter.try_match(&data, 2, &data.allocations[2]));
    assert!(filter.try_match(&data, 3, &data.allocations[3]));
}

#[test]
fn a_refused_pattern_fails_the_request_before_anything_is_compiled_or_run() {
    let data = sized();
    let touched = Cell::new(false);
    let request = AllocFilter { source_regex: Some(String::from("(")), ..no_filter() };
    let script = CustomFilter { custom_filter: Some(String::from("pick()")) };
    let result = prepare_filter(
        &data,
        &request,
        &script,
        |_| {
            touched.set(true);
            |_: u64, _: u64, _: &Allocation| true
        },
        |_| {
            touched.set(true);
            Ok(None)
        },
    );
    assert!(matches!(result, Err(PrepareFilterError::InvalidRegex("source_regex", _))));
    assert!(!touched.get());
}

#[test]
fn a_script_that_fails_fails_the_request_with_its_message() {
    let data = sized();
    let script = CustomFilter { custom_filter: Some(String::from("pick()")) };
    let result = prepare_filter(
        &data,
        &no_filter(),
        &script,
        |_| |_: u64, _: u64, _: &Allocation| true,
        |_| Err(failed()),
    );
    match result {
        Err(PrepareFilterError::InvalidCustomFilter(message)) => assert_eq!(message, "unknown function"),
        _ => panic!("the script did not fail the request"),
    }
}

#[test]
fn a_request_without_a_script_leaves_no_allocation_out_on_its_account() {
    let data = sized();
    let filter = prepare_filter(
        &data,
        &no_filter(),
        &CustomFilter { custom_filter: Some(String::new()) },
        |_| |_: u64, _: u64, _: &Allocation| true,
        |_| Ok(Some(vec![])),
    )
    .ok()
    .unwrap();
    let ids = prefiltered_allocation_ids(&data, AllocSortBy::Timestamp, &filter);
    assert_eq!(matching_ids(&data, &filter, ids), vec![0, 1, 2, 3]);
}

#[test]
fn applying_a_filter_twice_gives_the_same_allocations() {
    let data = sized();
    let filter = AllocationFilter::new(|_, id, _: &Allocation| id % 2 == 1, None);
    let ids = prefiltered_allocation_ids(&data, AllocSortBy::Size, &filter);
    let once = matching_ids(&data, &filter, ids);
    let again = matching_ids(&data, &filter, ids);
    assert_eq!(once, vec![3, 1]);
    assert_eq!(once, again);
}

#[test]
fn an_allocation_matches_if_the_script_picked_it_and_the_predicate_accepts_it() {
    let data = sized();
    let picked = std::sync::Arc::new(id_set_from(&vec![0, 2, 3]));
    let filter = AllocationFilter::new(|_, _, allocation: &Allocation| allocation.size >= 20, Some(picked));
    let ids = prefiltered_allocation_ids(&data, AllocSortBy::Address, &filter);
    assert_eq!(ids, &vec![1, 2, 0, 3]);
    assert_eq!(matching_ids(&data, &filter, ids), vec![2, 3]);
    for id in 0..4u64 {
        let expected = [0, 2, 3].contains(&id) && data.allocations[id as usize].size >= 20;
        assert_eq!(filter.try_match(&data, id, &data.allocations[id as usize]), expected);
    }
}

#[test]
fn the_predicate_is_asked_with_the_id_of_the_capture() {
    let mut data = sized();
    data.id = 77;
    let filter = AllocationFilter::new(|capture, _, _: &Allocation| capture == 77, None);
    assert!(filter.try_match(&data, 0, &data.allocations[0]));
}

#[test]
fn the_indexes_of_a_capture_order_its_allocations() {
    let data = sized();
    let filter = AllocationFilter::new(|_, _, _: &Allocation| true, None);
    assert_eq!(prefiltered_allocation_ids(&data, AllocSortBy::Timestamp, &filter), &vec![0, 1, 2, 3]);
    assert_eq!(prefiltered_allocation_ids(&data, AllocSortBy::Address, &filter), &vec![1, 2, 0, 3]);
    assert_eq!(prefiltered_allocation_ids(&data, AllocSortBy::Size, &filter), &vec![0, 2, 3, 1]);
}

#[test]
fn a_page_is_cut_out_of_a_list_as_it_stands_or_read_backwards() {
    let ids = vec![10, 20, 30, 40, 50];
    assert_eq!(page(&ids, Order::Asc, 0, 2), vec![10, 20]);
    assert_eq!(page(&ids, Order::Asc, 1, 3), vec![20, 30, 40]);
    assert_eq!(page(&ids, Order::Asc, 4, 3), vec![50]);
    assert_eq!(page(&ids, Order::Asc, 5, 3), Vec::<u64>::new());
    assert_eq!(page(&ids, Order::Asc, 9, usize::MAX), Vec::<u64>::new());
    assert_eq!(page(&ids, Order::Asc, 0, usize::MAX), ids);
    assert_eq!(page(&ids, Order::Asc, 2, 0), Vec::<u64>::new());
    assert_eq!(page(&ids, Order::Dsc, 0, 2), vec![50, 40]);
    assert_eq!(page(&ids, Order::Dsc, 3, 5), vec![20, 10]);
}

#[test]
fn a_server_that_cannot_bind_its_address_says_so() {
    let in_use = ServerError::BindFailed(std::io::Error::from(std::io::ErrorKind::AddrInUse));
    assert_eq!(
        in_use.message(),
        "cannot server the server: address is already in use; you probably want to pick a different port with `--port`"
    );
    let denied = ServerError::BindFailed(std::io::Error::new(std::io::ErrorKind::PermissionDenied, "no"));
    assert_eq!(denied.message(), "failed to start the server: no");
    let other = ServerError::from(std::io::Error::new(std::io::ErrorKind::Other, "broken pipe"));
    assert!(matches!(other, ServerError::Other(_)));
    assert_eq!(other.message(), "broken pipe");
}

#[test]
fn the_client_is_told_what_the_regex_engine_says_of_the_pattern() {
    let data = between(0, SECOND);
    for pattern in ["(", "a{2,1}", "[z-a]", "\\w{1000}"] {
        let engine = regex::Regex::new(pattern).err().unwrap();
        let filter = AllocFilter { source_regex: Some(String::from(pattern)), ..no_filter() };
        let error = prepare_raw_filter(&data, &filter).err().unwrap();
        assert_eq!(error.message(), format!("invalid 'source_regex': {}", engine));
    }
}

#[test]
fn what_is_told_of_a_failure_depends_on_where_and_why_it_failed() {
    let in_use = "cannot server the server: address is already in use; you probably want to pick a different port with `--port`";
    assert_eq!(error_text(true, true, String::from("address in use")), in_use);
    assert_eq!(error_text(true, true, String::new()), in_use);
    assert_eq!(error_text(true, false, String::from("denied")), "failed to start the server: denied");
    assert_eq!(error_text(true, false, String::new()), "failed to start the server: ");
    assert_eq!(error_text(false, false, String::from("broken pipe")), "broken pipe");
    assert_eq!(error_text(false, true, String::from("address in use")), "address in use");
}

#[test]
fn an_address_in_use_is_told_apart_only_where_the_server_could_not_bind() {
    let other = ServerError::Other(std::io::Error::new(std::io::ErrorKind::AddrInUse, "taken"));
    assert_eq!(other.message(), "taken");
    let refused = ServerError::BindFailed(std::io::Error::new(std::io::ErrorKind::AddrInUse, "taken"));
    assert!(refused.message().starts_with("cannot server the server: address is already in use"));
}

#[test]
fn a_backtrace_of_the_wrong_depth_leaves_the_caches_as_they_are() {
    let data = frames();
    let deep = BacktraceFilter {
        backtrace_depth_min: Some(3),
        ..wire(Some("alpha"), None, Some("gamma"), None)
    };
    let filter = prepare_backtrace_filter(&deep).ok().unwrap();
    let mut positive = FrameCache::new();
    let mut negative = FrameCache::new();
    for backtrace in data.backtraces.iter().filter(|backtrace| backtrace.len() < 3) {
        assert!(!match_backtrace(&data, &mut positive, &mut negative, &filter, backtrace));
    }
    assert_eq!(positive.evaluations(), 0);
    assert_eq!(negative.evaluations(), 0);
    for frame in 0..data.frames.len() {
        assert_eq!(positive.get(frame), None);
        assert_eq!(negative.get(frame), None);
    }
}

#[test]
fn a_cache_without_patterns_is_never_filled() {
    let data = frames();
    let only_positive = prepare_backtrace_filter(&wire(Some("alpha"), None, None, None)).ok().unwrap();
    let mut positive = FrameCache::new();
    let mut negative = FrameCache::new();
    for backtrace in data.backtraces.iter() {
        match_backtrace(&data, &mut positive, &mut negative, &only_positive, backtrace);
    }
    assert!(positive.evaluations() > 0);
    assert_eq!(negative.evaluations(), 0);

    let only_negative = prepare_backtrace_filter(&wire(None, None, None, Some("a\\.rs"))).ok().unwrap();
    let mut positive = FrameCache::new();
    let mut negative = FrameCache::new();
    for backtrace in data.backtraces.iter() {
        match_backtrace(&data, &mut positive, &mut negative, &only_negative, backtrace);
    }
    assert_eq!(positive.evaluations(), 0);
    assert!(negative.evaluations() > 0);
}
