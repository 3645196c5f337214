use std::cell::{Cell, RefCell};
use std::sync::Arc;

use server_core::answers::{get_allocation_groups, RequestAllocationGroups};
use server_core::capture::{Allocation, Data, Deallocation, Frame, GroupStatistics, Operation};
use server_core::filter::{match_backtrace, prepare_backtrace_filter, AllocationFilter};
use server_core::frame_cache::FrameCache;
use server_core::frames::BacktraceFormat;
use server_core::group_cache::{build_groups, AllocationGroupsKey, GroupCache};
use server_core::group_data::{get_allocation_group_data, get_global_group_data, summarize, Summary};
use server_core::groups::AllocationGroups;
use server_core::protocol::{
    AllocFilter, AllocGroupsSortBy, BacktraceFilter, CustomFilter, LifetimeFilter, NumberOrPercentage, Order,
};
use server_core::sorting::sort_pairs;
use server_core::timestamp::Timestamp;

fn allocation(pointer: u64, size: u64, usecs: u64, backtrace: u32, freed_at: Option<u64>) -> Allocation {
    Allocation {
        pointer,
        size,
        timestamp: Timestamp { usecs },
        thread: 1,
        backtrace,
        deallocation: freed_at.map(|usecs| Deallocation { timestamp: Timestamp { usecs }, thread: 1 }),
        in_main_arena: true,
        is_mmaped: false,
        is_jemalloc: false,
        extra_usable_space: 0,
        position_in_chain: 0,
        chain_length: 1,
        chain_lifetime: None,
    }
}

fn frame(function: Option<usize>, source: Option<usize>, address: u64) -> Frame {
    Frame {
        address,
        count: 1,
        library: None,
        function,
        raw_function: None,
        source,
        line: None,
        column: None,
        is_inline: false,
    }
}

fn sorted_ids(allocations: &[Allocation], key: fn(&Allocation) -> u64) -> Vec<u64> {
    let mut ids: Vec<u64> = (0..allocations.len() as u64).collect();
    ids.sort_by_key(|&id| key(&allocations[id as usize]));
    ids
}

fn capture(
    allocations: Vec<Allocation>,
    operations: Vec<Operation>,
    backtraces: Vec<Vec<usize>>,
    frames: Vec<Frame>,
    strings: Vec<&str>,
    last_usecs: u64,
) -> Data {
    let mut group_statistics = Vec::new();
    for backtrace in 0..backtraces.len() as u32 {
        let mut statistics = GroupStatistics {
            first_allocation: Timestamp { usecs: last_usecs },
            last_allocation: Timestamp { usecs: last_usecs },
            min_size: u64::MAX,
            max_size: 0,
            alloc_count: 0,
            alloc_size: 0,
            free_count: 0,
            free_size: 0,
            max_total_usage_first_seen_at: Timestamp { usecs: 0 },
        };
        let mut first = true;
        for allocation in allocations.iter().filter(|allocation| allocation.backtrace == backtrace) {
            if first {
                statistics.first_allocation = allocation.timestamp;
                statistics.last_allocation = allocation.timestamp;
                first = false;
            }
            if allocation.timestamp.usecs < statistics.first_allocation.usecs {
                statistics.first_allocation = allocation.timestamp;
            }
            if allocation.timestamp.usecs > statistics.last_allocation.usecs {
                statistics.last_allocation = allocation.timestamp;
            }
            statistics.min_size = statistics.min_size.min(allocation.size);
            statistics.max_size = statistics.max_size.max(allocation.size);
            statistics.alloc_count += 1;
            statistics.alloc_size += allocation.size;
            if allocation.deallocation.is_some() {
                statistics.free_count += 1;
                statistics.free_size += allocation.size;
            }
        }
        group_statistics.push(statistics);
    }
    Data {
        id: 1,
        executable: String::from("/usr/bin/traced"),
        architecture: String::from("x86_64"),
        initial_timestamp: Timestamp { usecs: 0 },
        last_timestamp: Timestamp { usecs: last_usecs },
        total_allocated: allocations.iter().map(|allocation| allocation.size).sum(),
        total_freed: allocations
            .iter()
            .filter(|allocation| allocation.deallocation.is_some())
            .map(|allocation| allocation.size)
            .sum(),
        total_allocated_count: allocations.len() as u64,
        total_freed_count: allocations.iter().filter(|allocation| allocation.deallocation.is_some()).count()
            as u64,
        maximum_backtrace_depth: backtraces.iter().map(|backtrace| backtrace.len()).max().unwrap_or(0) as u32,
        sorted_by_timestamp: sorted_ids(&allocations, |allocation| allocation.timestamp.usecs),
        sorted_by_address: sorted_ids(&allocations, |allocation| allocation.pointer),
        sorted_by_size: sorted_ids(&allocations, |allocation| allocation.size),
        allocations,
        operations,
        backtraces,
        frames,
        strings: strings.into_iter().map(String::from).collect(),
        group_statistics,
        mmap_operations: Vec::new(),
        mallopts: Vec::new(),
    }
}

fn no_filter() -> AllocFilter {
    AllocFilter {
        from: None,
        to: None,
        lifetime: None,
        address_min: None,
        address_max: None,
        size_min: None,
        size_max: None,
        first_size_min: None,
        first_size_max: None,
        last_size_min: None,
        last_size_max: None,
        lifetime_min: None,
        lifetime_max: None,
        function_regex: None,
        source_regex: None,
        negative_function_regex: None,
        negative_source_regex: None,
        backtrace_depth_min: None,
        backtrace_depth_max: None,
        backtraces: None,
        mmaped: None,
        jemalloc: None,
        arena: None,
        marker: None,
        group_interval_min: None,
        group_interval_max: None,
        group_max_total_usage_first_seen_min: None,
        group_max_total_usage_first_seen_max: None,
        group_allocations_min: None,
        group_allocations_max: None,
        group_leaked_allocations_min: None,
        group_leaked_allocations_max: None,
        chain_length_min: None,
        chain_length_max: None,
        chain_lifetime_min: None,
        chain_lifetime_max: None,
    }
}

const SECOND: u64 = 1_000_000;

/// Four backtraces; the allocations of each are listed with their ids.
///   backtrace 0: ids 0, 4      sizes 10, 50    made at 0s, 4s   (4 was given back)
///   backtrace 1: ids 1, 2, 5   sizes 20, 30, 60 made at 1s, 2s, 5s
///   backtrace 2: id 3          size 40         made at 3s
///   backtrace 3: none
fn sample() -> Data {
    let allocations = vec![
        allocation(0x1000, 10, 0, 0, None),
        allocation(0x2000, 20, SECOND, 1, None),
        allocation(0x3000, 30, 2 * SECOND, 1, None),
        allocation(0x4000, 40, 3 * SECOND, 2, None),
        allocation(0x5000, 50, 4 * SECOND, 0, Some(6 * SECOND)),
        allocation(0x6000, 60, 5 * SECOND, 1, None),
    ];
    let operations = vec![
        Operation::Allocation { allocation: 0 },
        Operation::Allocation { allocation: 1 },
        Operation::Allocation { allocation: 2 },
        Operation::Allocation { allocation: 3 },
        Operation::Allocation { allocation: 4 },
        Operation::Allocation { allocation: 5 },
        Operation::Deallocation { allocation: 4 },
    ];
    let data = capture(
        allocations,
        operations,
        vec![vec![0], vec![1], vec![0, 1], vec![]],
        vec![frame(Some(0), None, 0xaa), frame(Some(1), None, 0xbb)],
        vec!["first", "second"],
        10 * SECOND,
    );
    assert!(data.validate());
    data
}

fn everything() -> AllocationFilter<impl Fn(u64, u64, &Allocation) -> bool> {
    AllocationFilter::new(|_, _, _| true, None)
}

fn listed(groups: &AllocationGroups) -> Vec<(u32, Vec<u64>)> {
    (0..groups.len()).map(|g| (groups.backtrace_at(g), groups.ids_at(g).to_vec())).collect()
}

#[test]
fn groups_come_in_the_order_of_their_backtraces_with_their_ids_in_order() {
    let data = sample();
    let groups = AllocationGroups::new(&data, &vec![5, 3, 0, 2, 4, 1]);
    assert_eq!(listed(&groups), vec![(0, vec![0, 4]), (1, vec![1, 2, 5]), (2, vec![3])]);
}

#[test]
fn no_allocations_make_no_groups() {
    let data = sample();
    let groups = AllocationGroups::new(&data, &vec![]);
    assert_eq!(groups.len(), 0);
}

#[test]
fn the_groups_hold_each_matched_allocation_once() {
    let data = sample();
    let matched = vec![4, 2, 5, 0];
    let groups = AllocationGroups::new(&data, &matched);
    let total: usize = (0..groups.len()).map(|g| groups.ids_at(g).len()).sum();
    assert_eq!(total, matched.len());
    assert_eq!(listed(&groups), vec![(0, vec![0, 4]), (1, vec![2, 5])]);
}

#[test]
fn the_same_allocations_make_the_same_groups_in_whatever_order_they_come() {
    let data = sample();
    let one = AllocationGroups::new(&data, &vec![0, 1, 2, 3, 4, 5]);
    let other = AllocationGroups::new(&data, &vec![5, 4, 3, 2, 1, 0]);
    let again = AllocationGroups::new(&data, &vec![0, 1, 2, 3, 4, 5]);
    assert_eq!(listed(&one), listed(&other));
    assert_eq!(listed(&one), listed(&again));
}

#[test]
fn sorting_pairs_orders_by_the_first_number_and_then_by_the_second() {
    let mut pairs = vec![(3, 1), (1, 9), (2, 2), (1, 3), (3, 0)];
    sort_pairs(&mut pairs);
    assert_eq!(pairs, vec![(1, 3), (1, 9), (2, 2), (3, 0), (3, 1)]);
}

fn keys_after(sort_by: AllocGroupsSortBy, order: Order) -> Vec<u32> {
    let data = sample();
    let mut groups = AllocationGroups::new(&data, &vec![0, 1, 2, 3, 4, 5]);
    groups.sort_by(&data, sort_by, order);
    listed(&groups).into_iter().map(|(backtrace, _)| backtrace).collect()
}

#[test]
fn groups_are_sorted_by_each_statistic_of_what_matched() {
    assert_eq!(keys_after(AllocGroupsSortBy::MinTimestamp, Order::Asc), vec![0, 1, 2]);
    assert_eq!(keys_after(AllocGroupsSortBy::MaxTimestamp, Order::Asc), vec![2, 0, 1]);
    assert_eq!(keys_after(AllocGroupsSortBy::Interval, Order::Asc), vec![2, 0, 1]);
    assert_eq!(keys_after(AllocGroupsSortBy::AllocatedCount, Order::Asc), vec![2, 0, 1]);
    assert_eq!(keys_after(AllocGroupsSortBy::LeakedCount, Order::Asc), vec![0, 2, 1]);
    assert_eq!(keys_after(AllocGroupsSortBy::Size, Order::Asc), vec![2, 0, 1]);
}

#[test]
fn groups_are_sorted_by_each_statistic_of_the_whole_backtrace() {
    assert_eq!(keys_after(AllocGroupsSortBy::GlobalMinTimestamp, Order::Asc), vec![0, 1, 2]);
    assert_eq!(keys_after(AllocGroupsSortBy::GlobalMaxTimestamp, Order::Asc), vec![2, 0, 1]);
    assert_eq!(keys_after(AllocGroupsSortBy::GlobalInterval, Order::Asc), vec![2, 0, 1]);
    assert_eq!(keys_after(AllocGroupsSortBy::GlobalAllocatedCount, Order::Asc), vec![2, 0, 1]);
    assert_eq!(keys_after(AllocGroupsSortBy::GlobalLeakedCount, Order::Asc), vec![0, 2, 1]);
    assert_eq!(keys_after(AllocGroupsSortBy::GlobalSize, Order::Asc), vec![2, 0, 1]);
    assert_eq!(keys_after(AllocGroupsSortBy::GlobalMaxTotalUsageFirstSeenAt, Order::Asc), vec![0, 1, 2]);
}

#[test]
fn descending_is_ascending_read_backwards() {
    for sort_by in [
        AllocGroupsSortBy::MinTimestamp,
        AllocGroupsSortBy::MaxTimestamp,
        AllocGroupsSortBy::Interval,
        AllocGroupsSortBy::AllocatedCount,
        AllocGroupsSortBy::Size,
        AllocGroupsSortBy::GlobalSize,
    ] {
        let mut backwards = keys_after(sort_by, Order::Asc);
        backwards.reverse();
        assert_eq!(keys_after(sort_by, Order::Dsc), backwards);
    }
}

#[test]
fn groups_with_the_same_statistic_keep_their_order() {
    let data = sample();
    let mut groups = AllocationGroups::new(&data, &vec![0, 1, 3]);
    groups.sort_by(&data, AllocGroupsSortBy::AllocatedCount, Order::Asc);
    assert_eq!(listed(&groups), vec![(0, vec![0]), (1, vec![1]), (2, vec![3])]);
    groups.sort_by(&data, AllocGroupsSortBy::AllocatedCount, Order::Dsc);
    assert_eq!(listed(&groups), vec![(2, vec![3]), (1, vec![1]), (0, vec![0])]);
}

#[test]
fn what_is_known_of_allocations_is_summed_up() {
    let data = sample();
    let summary = summarize(&data, &[0, 4]);
    assert_eq!(
        summary,
        Summary {
            size_sum: 60,
            min_size: 10,
            max_size: 50,
            min_timestamp: Timestamp { usecs: 0 },
            max_timestamp: Timestamp { usecs: 4 * SECOND },
            leaked_count: 1,
            allocated_count: 2,
        }
    );
}

#[test]
fn what_is_known_of_no_allocations_is_the_identity() {
    let data = sample();
    let nothing = summarize(&data, &[]);
    assert_eq!(nothing.size_sum, 0);
    assert_eq!(nothing.min_size, u64::MAX);
    assert_eq!(nothing.max_size, 0);
    assert_eq!(nothing.min_timestamp, Timestamp::max());
    assert_eq!(nothing.max_timestamp, Timestamp::min());
    assert_eq!(nothing.allocated_count, 0);
    assert_eq!(nothing.leaked_count, 0);
    let some = summarize(&data, &[1, 2]);
    assert_eq!(nothing.combine(some), some);
    assert_eq!(some.combine(nothing), some);
}

#[test]
fn summaries_of_parts_combine_to_the_summary_of_the_whole() {
    let data = sample();
    let whole = summarize(&data, &[0, 1, 2, 3, 4, 5]);
    let left = summarize(&data, &[0, 1]);
    let middle = summarize(&data, &[2]);
    let right = summarize(&data, &[3, 4, 5]);
    assert_eq!(left.combine(middle).combine(right), whole);
    assert_eq!(left.combine(middle.combine(right)), whole);
    assert_eq!(right.combine(left).combine(middle), whole);
}

#[test]
fn a_sum_of_sizes_that_does_not_fit_stays_at_the_largest_number() {
    let allocations = vec![allocation(0, u64::MAX - 5, 0, 0, None), allocation(0, 100, 0, 0, None)];
    let data = capture(allocations, vec![], vec![vec![]], vec![], vec![], SECOND);
    assert_eq!(summarize(&data, &[0, 1]).size_sum, u64::MAX);
}

#[test]
fn a_group_is_told_of_by_what_matched_and_by_all_of_its_backtrace() {
    let data = sample();
    let matched = get_allocation_group_data(&data, &[1, 5]);
    assert_eq!(matched.allocated_count, 2);
    assert_eq!(matched.leaked_count, 2);
    assert_eq!(matched.size, 80);
    assert_eq!(matched.min_size, 20);
    assert_eq!(matched.max_size, 60);
    assert_eq!(matched.min_timestamp, Timestamp { usecs: SECOND });
    assert_eq!(matched.min_timestamp_relative, Timestamp { usecs: SECOND });
    assert_eq!(matched.max_timestamp, Timestamp { usecs: 5 * SECOND });
    assert_eq!(matched.interval, Timestamp { usecs: 4 * SECOND });
    assert_eq!(matched.max_total_usage_first_seen_at, None);
    assert_eq!(matched.graph_url, None);

    let all = get_global_group_data(&data, 0);
    assert_eq!(all.allocated_count, 2);
    assert_eq!(all.leaked_count, 1);
    assert_eq!(all.size, 60);
    assert_eq!(all.interval, Timestamp { usecs: 4 * SECOND });
    assert_eq!(all.max_total_usage_first_seen_at, Some(Timestamp { usecs: 0 }));
    assert_eq!(all.max_total_usage_first_seen_at_relative, Some(Timestamp { usecs: 0 }));
}

#[test]
fn an_answer_shows_the_groups_that_it_does_not_skip() {
    let data = sample();
    let groups = build_groups(&data, &everything(), AllocGroupsSortBy::Size, Order::Dsc);
    let params = RequestAllocationGroups {
        skip: Some(1),
        count: Some(1),
        sort_by: None,
        order: None,
        generate_graphs: None,
    };
    let format = BacktraceFormat { strip_template_args: None };
    let response = get_allocation_groups(&data, &format, &params, &groups);
    assert_eq!(response.total_count, 3);
    assert_eq!(response.allocations.len(), 1);
    assert_eq!(response.allocations[0].backtrace_id, 0);
    assert_eq!(response.allocations[0].only_matched.size, 60);
    assert_eq!(response.allocations[0].all.size, 60);
    assert_eq!(response.allocations[0].backtrace.len(), 1);
    assert_eq!(response.allocations[0].backtrace[0].function.as_deref(), Some("first"));

    let all = RequestAllocationGroups { skip: None, count: None, sort_by: None, order: None, generate_graphs: None };
    assert_eq!(get_allocation_groups(&data, &format, &all, &groups).allocations.len(), 3);
    let beyond = RequestAllocationGroups { skip: Some(7), ..all };
    assert_eq!(get_allocation_groups(&data, &format, &beyond, &groups).allocations.len(), 0);
}

/// Twelve backtraces; the function `foo` stands in backtraces 7 and 11.
fn with_foo() -> Data {
    let mut backtraces = Vec::new();
    let mut allocations = Vec::new();
    let mut operations = Vec::new();
    for backtrace in 0..12u32 {
        backtraces.push(match backtrace {
            7 => vec![1, 0],
            11 => vec![0],
            3 => vec![2, 1],
            _ => vec![1],
        });
        let id = backtrace as u64;
        allocations.push(allocation(0x1000 * (id + 1), 16, id * SECOND, backtrace, None));
        operations.push(Operation::Allocation { allocation: id });
    }
    let data = capture(
        allocations,
        operations,
        backtraces,
        vec![frame(Some(0), None, 1), frame(Some(1), None, 2), frame(Some(2), None, 3)],
        vec!["foo", "bar", "foobar"],
        20 * SECOND,
    );
    assert!(data.validate());
    data
}

#[test]
fn a_pattern_for_a_function_picks_the_groups_whose_backtraces_pass_through_it() {
    let data = with_foo();
    let wanted = prepare_backtrace_filter(&BacktraceFilter {
        backtrace_depth_min: None,
        backtrace_depth_max: None,
        function_regex: Some(String::from("^foo$")),
        source_regex: None,
        negative_function_regex: None,
        negative_source_regex: None,
    })
    .ok()
    .unwrap();
    let positive = RefCell::new(FrameCache::new());
    let negative = RefCell::new(FrameCache::new());
    let filter = AllocationFilter::new(
        |_, _, allocation: &Allocation| {
            match_backtrace(
                &data,
                &mut positive.borrow_mut(),
                &mut negative.borrow_mut(),
                &wanted,
                &data.backtraces[allocation.backtrace as usize],
            )
        },
        None,
    );
    let groups = build_groups(&data, &filter, AllocGroupsSortBy::MinTimestamp, Order::Asc);
    let params = RequestAllocationGroups { skip: None, count: None, sort_by: None, order: None, generate_graphs: None };
    let response = get_allocation_groups(&data, &BacktraceFormat { strip_template_args: None }, &params, &groups);
    assert_eq!(response.total_count, 2);
    let shown: Vec<u32> = response.allocations.iter().map(|group| group.backtrace_id).collect();
    assert_eq!(shown, vec![7, 11]);
    assert_eq!(listed(&groups), vec![(7, vec![7]), (11, vec![11])]);
}

fn key(sort_by: AllocGroupsSortBy, size_min: Option<u64>) -> AllocationGroupsKey {
    AllocationGroupsKey::new(
        1,
        AllocFilter { size_min, ..no_filter() },
        CustomFilter { custom_filter: None },
        Some(sort_by),
        None,
    )
}

#[test]
fn the_second_of_two_requests_that_ask_the_same_is_answered_from_the_cache() {
    let data = sample();
    let asked = Cell::new(0);
    let filter = AllocationFilter::new(
        |_, _, allocation: &Allocation| {
            asked.set(asked.get() + 1);
            allocation.size >= 30
        },
        None,
    );
    let mut cache = GroupCache::new();
    let first = cache.get_or_build(key(AllocGroupsSortBy::Size, Some(30)), &data, &filter);
    assert_eq!(asked.get(), 6);
    let second = cache.get_or_build(key(AllocGroupsSortBy::Size, Some(30)), &data, &filter);
    assert_eq!(asked.get(), 6);
    assert!(Arc::ptr_eq(&first, &second));
    assert_eq!(listed(&first), vec![(2, vec![3]), (0, vec![4]), (1, vec![2, 5])]);
    assert_eq!(listed(&first), listed(&second));
    let fresh = build_groups(&data, &filter, AllocGroupsSortBy::Size, Order::Asc);
    assert_eq!(listed(&fresh), listed(&second));
}

#[test]
fn a_request_that_asks_for_another_order_is_not_answered_from_the_cache() {
    let data = sample();
    let asked = Cell::new(0);
    let filter = AllocationFilter::new(
        |_, _, _: &Allocation| {
            asked.set(asked.get() + 1);
            true
        },
        None,
    );
    let mut cache = GroupCache::new();
    cache.get_or_build(key(AllocGroupsSortBy::Size, None), &data, &filter);
    cache.get_or_build(key(AllocGroupsSortBy::AllocatedCount, None), &data, &filter);
    assert_eq!(asked.get(), 12);
}

#[test]
fn the_cache_keeps_the_four_keys_that_were_used_last() {
    let data = sample();
    let groups = Arc::new(AllocationGroups::new(&data, &vec![0]));
    let keys: Vec<AllocationGroupsKey> =
        (0..5).map(|size| key(AllocGroupsSortBy::Size, Some(size))).collect();
    let mut cache = GroupCache::new();
    for key in keys.iter().take(4) {
        cache.store(key.clone(), groups.clone());
    }
    assert!(cache.lookup(&keys[0]).is_some());
    cache.store(keys[4].clone(), groups.clone());
    assert!(cache.lookup(&keys[1]).is_none());
    assert!(cache.lookup(&keys[0]).is_some());
    assert!(cache.lookup(&keys[2]).is_some());
    assert!(cache.lookup(&keys[3]).is_some());
    assert!(cache.lookup(&keys[4]).is_some());
}

#[test]
fn groups_that_are_put_under_a_key_again_take_the_place_of_the_old_ones() {
    let data = sample();
    let old = Arc::new(AllocationGroups::new(&data, &vec![0]));
    let new = Arc::new(AllocationGroups::new(&data, &vec![1]));
    let mut cache = GroupCache::new();
    cache.store(key(AllocGroupsSortBy::Size, None), old);
    cache.store(key(AllocGroupsSortBy::Size, None), new.clone());
    let kept = cache.lookup(&key(AllocGroupsSortBy::Size, None)).unwrap();
    assert!(Arc::ptr_eq(&kept, &new));
}

#[test]
fn requests_that_say_the_same_in_other_words_have_the_same_key() {
    let unnamed = AllocationGroupsKey::new(1, no_filter(), CustomFilter { custom_filter: None }, None, None);
    let named = AllocationGroupsKey::new(
        1,
        AllocFilter { lifetime: Some(LifetimeFilter::All), ..no_filter() },
        CustomFilter { custom_filter: None },
        Some(AllocGroupsSortBy::MinTimestamp),
        Some(Order::Asc),
    );
    assert!(unnamed == named);
    let whole = AllocationGroupsKey::new(
        1,
        AllocFilter { lifetime: Some(LifetimeFilter::OnlyWholeGroupLeaked), ..no_filter() },
        CustomFilter { custom_filter: None },
        None,
        None,
    );
    assert_eq!(whole.filter.lifetime, Some(LifetimeFilter::All));
    assert_eq!(whole.filter.group_leaked_allocations_min, Some(NumberOrPercentage::Percent(100)));
    let leaked = AllocationGroupsKey::new(
        1,
        AllocFilter { lifetime: Some(LifetimeFilter::OnlyLeaked), ..no_filter() },
        CustomFilter { custom_filter: None },
        None,
        None,
    );
    assert!(leaked != named);
}

#[test]
fn of_no_allocations_nothing_is_counted_and_no_time_lies_between() {
    let data = sample();
    let nothing = get_allocation_group_data(&data, &[]);
    assert_eq!(nothing.allocated_count, 0);
    assert_eq!(nothing.leaked_count, 0);
    assert_eq!(nothing.size, 0);
    assert_eq!(nothing.min_size, u64::MAX);
    assert_eq!(nothing.max_size, 0);
    assert_eq!(nothing.min_timestamp, Timestamp { usecs: u64::MAX });
    assert_eq!(nothing.max_timestamp, Timestamp { usecs: 0 });
    assert_eq!(nothing.max_timestamp_relative, Timestamp { usecs: 0 });
    assert_eq!(nothing.interval, Timestamp { usecs: 0 });
    assert_eq!(nothing.graph_url, None);
}
