use server_core::capture::{Allocation, Data, Deallocation, Frame, GroupStatistics, Operation};
use server_core::fragmentation::get_fragmentation_timeline;
use server_core::timestamp::Timestamp;

fn allocation(pointer: u64, size: u64, usecs: u64, backtrace: u32, freed_at: Option<u64>) -> Allocation {
    Allocation {
        pointer,
        size,
        timestamp: Timestamp { usecs },
        thread: 1,
        backtrace,
        deallocation: freed_at.map(|usecs| Deallocation { timestamp: Timestamp { usecs }, thread: 1 }),
        in_main_arena: true,
        is_mmaped: false,
        is_jemalloc: false,
        extra_usable_space: 0,
        position_in_chain: 0,
        chain_length: 1,
        chain_lifetime: None,
    }
}

fn frame(function: Option<usize>, source: Option<usize>, address: u64) -> Frame {
    Frame {
        address,
        count: 1,
        library: None,
        function,
        raw_function: None,
        source,
        line: None,
        column: None,
        is_inline: false,
    }
}

fn sorted_ids(allocations: &[Allocation], key: fn(&Allocation) -> u64) -> Vec<u64> {
    let mut ids: Vec<u64> = (0..allocations.len() as u64).collect();
    ids.sort_by_key(|&id| key(&allocations[id as usize]));
    ids
}

fn capture(
    allocations: Vec<Allocation>,
    operations: Vec<Operation>,
    backtraces: Vec<Vec<usize>>,
    frames: Vec<Frame>,
    strings: Vec<&str>,
    last_usecs: u64,
) -> Data {
    let mut group_statistics = Vec::new();
    for backtrace in 0..backtraces.len() as u32 {
        let mut statistics = GroupStatistics {
            first_allocation: Timestamp { usecs: last_usecs },
            last_allocation: Timestamp { usecs: last_usecs },
            min_size: u64::MAX,
            max_size: 0,
            alloc_count: 0,
            alloc_size: 0,
            free_count: 0,
            free_size: 0,
            max_total_usage_first_seen_at: Timestamp { usecs: 0 },
        };
        let mut first = true;
        for allocation in allocations.iter().filter(|allocation| allocation.backtrace == backtrace) {
            if first {
                statistics.first_allocation = allocation.timestamp;
                statistics.last_allocation = allocation.timestamp;
                first = false;
            }
            if allocation.timestamp.usecs < statistics.first_allocation.usecs {
                statistics.first_allocation = allocation.timestamp;
            }
            if allocation.timestamp.usecs > statistics.last_allocation.usecs {
                statistics.last_allocation = allocation.timestamp;
            }
            statistics.min_size = statistics.min_size.min(allocation.size);
            statistics.max_size = statistics.max_size.max(allocation.size);
            statistics.alloc_count += 1;
            statistics.alloc_size += allocation.size;
            if allocation.deallocation.is_some() {
                statistics.free_count += 1;
                statistics.free_size += allocation.size;
            }
        }
        group_statistics.push(statistics);
    }
    Data {
        id: 1,
        executable: String::from("/usr/bin/traced"),
        architecture: String::from("x86_64"),
        initial_timestamp: Timestamp { usecs: 0 },
        last_timestamp: Timestamp { usecs: last_usecs },
        total_allocated: allocations.iter().map(|allocation| allocation.size).sum(),
        total_freed: allocations
            .iter()
            .filter(|allocation| allocation.deallocation.is_some())
            .map(|allocation| allocation.size)
            .sum(),
        total_allocated_count: allocations.len() as u64,
        total_freed_count: allocations.iter().filter(|allocation| allocation.deallocation.is_some()).count()
            as u64,
        maximum_backtrace_depth: backtraces.iter().map(|backtrace| backtrace.len()).max().unwrap_or(0) as u32,
        sorted_by_timestamp: sorted_ids(&allocations, |allocation| allocation.timestamp.usecs),
        sorted_by_address: sorted_ids(&allocations, |allocation| allocation.pointer),
        sorted_by_size: sorted_ids(&allocations, |allocation| allocation.size),
        allocations,
        operations,
        backtraces,
        frames,
        strings: strings.into_iter().map(String::from).collect(),
        group_statistics,
        mmap_operations: Vec::new(),
        mallopts: Vec::new(),
    }
}

const SECOND: u64 = 1_000_000;

fn make(id: u64) -> Operation {
    Operation::Allocation { allocation: id }
}

fn give_back(id: u64) -> Operation {
    Operation::Deallocation { allocation: id }
}

fn heap(allocations: Vec<Allocation>, operations: Vec<Operation>, last_usecs: u64) -> Data {
    let data = capture(allocations, operations, vec![vec![]], vec![], vec![], last_usecs);
    assert!(data.validate());
    data
}

#[test]
fn two_allocations_in_one_second_leave_the_gap_between_them() {
    let data = heap(
        vec![allocation(0x1000, 0x10, 100, 0, None), allocation(0x2000, 0x8, 200, 0, None)],
        vec![make(0), make(1)],
        SECOND,
    );
    let timeline = get_fragmentation_timeline(&data);
    assert_eq!(timeline.xs, vec![0]);
    assert_eq!(timeline.fragmentation, vec![4080]);
}

#[test]
fn a_capture_without_operations_has_no_points() {
    let data = heap(vec![], vec![], 0);
    let timeline = get_fragmentation_timeline(&data);
    assert!(timeline.xs.is_empty());
    assert!(timeline.fragmentation.is_empty());
}

#[test]
fn one_allocation_alone_is_not_fragmented() {
    let data = heap(vec![allocation(0x1000, 0x100, 0, 0, None)], vec![make(0)], SECOND);
    let timeline = get_fragmentation_timeline(&data);
    assert_eq!(timeline.xs, vec![0]);
    assert_eq!(timeline.fragmentation, vec![0]);
}

#[test]
fn each_second_has_one_point_with_the_last_value_of_the_second() {
    let data = heap(
        vec![
            allocation(100, 10, 0, 0, None),
            allocation(200, 10, SECOND, 0, None),
            allocation(400, 10, SECOND + 500_000, 0, None),
        ],
        vec![make(0), make(1), make(2)],
        2 * SECOND,
    );
    let timeline = get_fragmentation_timeline(&data);
    assert_eq!(timeline.xs, vec![0, 1000]);
    assert_eq!(timeline.fragmentation, vec![0, 280]);
}

#[test]
fn a_gap_of_two_seconds_gets_one_point_that_repeats_the_value() {
    let data = heap(
        vec![
            allocation(100, 10, 0, 0, None),
            allocation(200, 10, 0, 0, None),
            allocation(300, 10, 2 * SECOND, 0, None),
        ],
        vec![make(0), make(1), make(2)],
        2 * SECOND,
    );
    let timeline = get_fragmentation_timeline(&data);
    assert_eq!(timeline.xs, vec![0, 1000, 2000]);
    assert_eq!(timeline.fragmentation, vec![90, 90, 180]);
}

#[test]
fn a_longer_gap_gets_a_point_at_each_of_its_ends() {
    let data = heap(
        vec![
            allocation(100, 10, 0, 0, None),
            allocation(200, 10, 0, 0, None),
            allocation(300, 10, 10 * SECOND, 0, None),
        ],
        vec![make(0), make(1), make(2)],
        10 * SECOND,
    );
    let timeline = get_fragmentation_timeline(&data);
    assert_eq!(timeline.xs, vec![0, 1000, 9000, 10000]);
    assert_eq!(timeline.fragmentation, vec![90, 90, 90, 180]);
}

#[test]
fn times_count_from_the_second_in_which_the_capture_began() {
    let mut data = heap(
        vec![allocation(100, 10, 5 * SECOND + 1, 0, None), allocation(200, 10, 7 * SECOND, 0, None)],
        vec![make(0), make(1)],
        8 * SECOND,
    );
    data.initial_timestamp = Timestamp { usecs: 5 * SECOND + 1 };
    data.group_statistics[0].max_total_usage_first_seen_at = data.initial_timestamp;
    assert!(data.validate());
    let timeline = get_fragmentation_timeline(&data);
    assert_eq!(timeline.xs, vec![0, 1000, 2000]);
    assert_eq!(timeline.fragmentation, vec![0, 0, 90]);
}

#[test]
fn giving_back_the_lowest_allocation_moves_the_lower_bound() {
    let data = heap(
        vec![
            allocation(100, 10, 0, 0, Some(SECOND)),
            allocation(200, 10, 0, 0, None),
            allocation(400, 10, 0, 0, None),
        ],
        vec![make(0), make(1), make(2), give_back(0)],
        SECOND,
    );
    let timeline = get_fragmentation_timeline(&data);
    assert_eq!(timeline.xs, vec![0, 1000]);
    assert_eq!(timeline.fragmentation, vec![280, 190]);
}

#[test]
fn giving_back_the_highest_allocation_moves_the_upper_bound() {
    let data = heap(
        vec![
            allocation(100, 10, 0, 0, None),
            allocation(200, 10, 0, 0, None),
            allocation(400, 10, 0, 0, Some(SECOND)),
        ],
        vec![make(0), make(1), make(2), give_back(2)],
        SECOND,
    );
    let timeline = get_fragmentation_timeline(&data);
    assert_eq!(timeline.fragmentation, vec![280, 90]);
}

#[test]
fn giving_back_everything_leaves_no_fragmentation() {
    let data = heap(
        vec![allocation(100, 10, 0, 0, Some(SECOND)), allocation(200, 10, 0, 0, Some(SECOND))],
        vec![make(0), make(1), give_back(1), give_back(0)],
        SECOND,
    );
    let timeline = get_fragmentation_timeline(&data);
    assert_eq!(timeline.xs, vec![0, 1000]);
    assert_eq!(timeline.fragmentation, vec![90, 0]);
}

#[test]
fn allocations_outside_of_the_main_heap_take_no_part() {
    let mut mapped = allocation(0x9000, 0x1000, 0, 0, None);
    mapped.is_mmaped = true;
    let mut other_arena = allocation(0x5000, 0x10, 0, 0, None);
    other_arena.in_main_arena = false;
    let mut jemalloc = allocation(0x7000, 0x10, 0, 0, None);
    jemalloc.is_jemalloc = true;
    let data = heap(vec![mapped, other_arena, jemalloc], vec![make(0), make(1), make(2)], SECOND);
    let timeline = get_fragmentation_timeline(&data);
    assert!(timeline.xs.is_empty());
    assert!(timeline.fragmentation.is_empty());
}

#[test]
fn a_reallocation_gives_back_the_old_range_and_takes_the_new_one() {
    let data = heap(
        vec![
            allocation(100, 10, 0, 0, None),
            allocation(200, 10, 0, 0, Some(SECOND)),
            allocation(500, 20, SECOND, 0, None),
        ],
        vec![make(0), make(1), Operation::Reallocation { new_allocation: 2, old_allocation: 1 }],
        SECOND,
    );
    let timeline = get_fragmentation_timeline(&data);
    assert_eq!(timeline.xs, vec![0, 1000]);
    assert_eq!(timeline.fragmentation, vec![90, 390]);
}

#[test]
fn overlapping_allocations_do_not_take_the_fragmentation_below_zero() {
    let data = heap(
        vec![allocation(100, 100, 0, 0, None), allocation(100, 100, 0, 0, None)],
        vec![make(0), make(1)],
        SECOND,
    );
    let timeline = get_fragmentation_timeline(&data);
    assert_eq!(timeline.fragmentation, vec![0]);
}

#[test]
fn the_times_of_the_points_never_fall() {
    let mut allocations = Vec::new();
    let mut operations = Vec::new();
    for i in 0..20u64 {
        allocations.push(allocation(1000 + i * 64, 16 + i, i * 700_000, 0, None));
        operations.push(make(i));
    }
    let data = heap(allocations, operations, 20 * SECOND);
    let timeline = get_fragmentation_timeline(&data);
    assert_eq!(timeline.xs.len(), timeline.fragmentation.len());
    assert!(timeline.xs.windows(2).all(|pair| pair[0] <= pair[1]));
}

#[test]
fn the_fragmentation_of_an_orderly_heap_is_what_is_left_of_its_span() {
    let mut allocations = Vec::new();
    let mut operations = Vec::new();
    for i in 0..8u64 {
        allocations.push(allocation(1000 + i * 100, 10 + i, i * SECOND, 0, None));
        operations.push(make(i));
    }
    let data = heap(allocations, operations, 8 * SECOND);
    let timeline = get_fragmentation_timeline(&data);
    let mut used = 0;
    for (second, value) in timeline.fragmentation.iter().enumerate() {
        let second = second as u64;
        used += 10 + second;
        let span = (1000 + second * 100 + 10 + second) - 1000;
        assert_eq!(value + used, span);
    }
}
