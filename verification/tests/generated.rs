use std::sync::Arc;

use server_core::answers::attach_graphs;
use server_core::capture::{Allocation, Data, Deallocation, Frame, GroupStatistics, Operation};
use server_core::generated::{
    content_hash, GeneratedFile, GeneratedFilesCollection, HIGH_WATER_MARK, LOW_WATER_MARK,
};
use server_core::group_data::get_allocation_group_data;
use server_core::protocol::CustomFilter;
use server_core::scripts::{
    basename, collect_outputs, graph_script, prologue, script_file_url, ScriptOutput, ScriptOutputKind,
};
use server_core::timestamp::Timestamp;

fn allocation(pointer: u64, size: u64, usecs: u64, backtrace: u32, freed_at: Option<u64>) -> Allocation {
    Allocation {
        pointer,
        size,
        timestamp: Timestamp { usecs },
        thread: 1,
        backtrace,
        deallocation: freed_at.map(|usecs| Deallocation { timestamp: Timestamp { usecs }, thread: 1 }),
        in_main_arena: true,
        is_mmaped: false,
        is_jemalloc: false,
        extra_usable_space: 0,
        position_in_chain: 0,
        chain_length: 1,
        chain_lifetime: None,
    }
}

fn frame(function: Option<usize>, source: Option<usize>, address: u64) -> Frame {
    Frame {
        address,
        count: 1,
        library: None,
        function,
        raw_function: None,
        source,
        line: None,
        column: None,
        is_inline: false,
    }
}

fn sorted_ids(allocations: &[Allocation], key: fn(&Allocation) -> u64) -> Vec<u64> {
    let mut ids: Vec<u64> = (0..allocations.len() as u64).collect();
    ids.sort_by_key(|&id| key(&allocations[id as usize]));
    ids
}

fn capture(
    allocations: Vec<Allocation>,
    operations: Vec<Operation>,
    backtraces: Vec<Vec<usize>>,
    frames: Vec<Frame>,
    strings: Vec<&str>,
    last_usecs: u64,
) -> Data {
    let mut group_statistics = Vec::new();
    for backtrace in 0..backtraces.len() as u32 {
        let mut statistics = GroupStatistics {
            first_allocation: Timestamp { usecs: last_usecs },
            last_allocation: Timestamp { usecs: last_usecs },
            min_size: u64::MAX,
            max_size: 0,
            alloc_count: 0,
            alloc_size: 0,
            free_count: 0,
            free_size: 0,
            max_total_usage_first_seen_at: Timestamp { usecs: 0 },
        };
        let mut first = true;
        for allocation in allocations.iter().filter(|allocation| allocation.backtrace == backtrace) {
            if first {
                statistics.first_allocation = allocation.timestamp;
                statistics.last_allocation = allocation.timestamp;
                first = false;
            }
            if allocation.timestamp.usecs < statistics.first_allocation.usecs {
                statistics.first_allocation = allocation.timestamp;
            }
            if allocation.timestamp.usecs > statistics.last_allocation.usecs {
                statistics.last_allocation = allocation.timestamp;
            }
            statistics.min_size = statistics.min_size.min(allocation.size);
            statistics.max_size = statistics.max_size.max(allocation.size);
            statistics.alloc_count += 1;
            statistics.alloc_size += allocation.size;
            if allocation.deallocation.is_some() {
                statistics.free_count += 1;
                statistics.free_size += allocation.size;
            }
        }
        group_statistics.push(statistics);
    }
    Data {
        id: 1,
        executable: String::from("/usr/bin/traced"),
        architecture: String::from("x86_64"),
        initial_timestamp: Timestamp { usecs: 0 },
        last_timestamp: Timestamp { usecs: last_usecs },
        total_allocated: allocations.iter().map(|allocation| allocation.size).sum(),
        total_freed: allocations
            .iter()
            .filter(|allocation| allocation.deallocation.is_some())
            .map(|allocation| allocation.size)
            .sum(),
        total_allocated_count: allocations.len() as u64,
        total_freed_count: allocations.iter().filter(|allocation| allocation.deallocation.is_some()).count()
            as u64,
        maximum_backtrace_depth: backtraces.iter().map(|backtrace| backtrace.len()).max().unwrap_or(0) as u32,
        sorted_by_timestamp: sorted_ids(&allocations, |allocation| allocation.timestamp.usecs),
        sorted_by_address: sorted_ids(&allocations, |allocation| allocation.pointer),
        sorted_by_size: sorted_ids(&allocations, |allocation| allocation.size),
        allocations,
        operations,
        backtraces,
        frames,
        strings: strings.into_iter().map(String::from).collect(),
        group_statistics,
        mmap_operations: Vec::new(),
        mallopts: Vec::new(),
    }
}

const MIB: usize = 1024 * 1024;

fn file(seed: u8, size: usize, made_at: u64) -> GeneratedFile {
    let data = vec![seed; size];
    GeneratedFile {
        timestamp: Timestamp { usecs: made_at },
        hash: content_hash(&data),
        mime: String::from("image/svg+xml"),
        data: Arc::new(data),
    }
}

#[test]
fn the_hash_of_content_is_its_md5_digest_in_hexadecimal() {
    assert_eq!(content_hash(b""), "d41d8cd98f00b204e9800998ecf8427e");
    assert_eq!(content_hash(b"abc"), "900150983cd24fb0d6963f7d28e17f72");
    assert_eq!(
        content_hash(b"The quick brown fox jumps over the lazy dog"),
        "9e107d9d372bb6826bd81d3542a419d6"
    );
}

#[test]
fn the_marks_are_thirty_two_and_sixteen_mebibytes() {
    assert_eq!(HIGH_WATER_MARK, 32 * MIB);
    assert_eq!(LOW_WATER_MARK, 16 * MIB);
}

#[test]
fn a_file_is_kept_under_the_hash_of_its_content() {
    let mut files = GeneratedFilesCollection::new();
    assert_eq!(files.total_size(), 0);
    let kept = file(1, 100, 0);
    let hash = kept.hash.clone();
    files.add_file(kept);
    assert_eq!(files.total_size(), 100);
    let found = files.get(&hash).unwrap();
    assert_eq!(found.data.len(), 100);
    assert_eq!(found.mime, "image/svg+xml");
    assert!(files.get("d41d8cd98f00b204e9800998ecf8427e").is_none());
}

#[test]
fn the_same_content_is_kept_once() {
    let mut files = GeneratedFilesCollection::new();
    files.add_file(file(1, 100, 0));
    files.add_file(file(1, 100, 5));
    assert_eq!(files.total_size(), 100);
    let hash = content_hash(&vec![1; 100]);
    assert_eq!(files.get(&hash).unwrap().timestamp, Timestamp { usecs: 0 });
    files.add_file(file(2, 100, 6));
    assert_eq!(files.total_size(), 200);
}

#[test]
fn nothing_leaves_below_the_high_water_mark() {
    let mut files = GeneratedFilesCollection::new();
    for seed in 0..31 {
        files.add_file(file(seed, MIB, seed as u64));
    }
    files.add_file(file(100, MIB - 1, 100));
    assert_eq!(files.total_size(), 32 * MIB - 1);
    files.purge_old_if_too_big();
    assert_eq!(files.total_size(), 32 * MIB - 1);
    for seed in 0..31 {
        assert!(files.get(&content_hash(&vec![seed; MIB])).is_some());
    }
}

#[test]
fn at_the_high_water_mark_the_oldest_files_leave_until_the_low_water_mark_is_kept() {
    let mut files = GeneratedFilesCollection::new();
    for seed in (0..32).rev() {
        files.add_file(file(seed, MIB, seed as u64));
    }
    assert_eq!(files.total_size(), 32 * MIB);
    files.purge_old_if_too_big();
    assert_eq!(files.total_size(), 16 * MIB);
    for seed in 0..16 {
        assert!(files.get(&content_hash(&vec![seed; MIB])).is_none());
    }
    for seed in 16..32 {
        assert!(files.get(&content_hash(&vec![seed; MIB])).is_some());
    }
}

#[test]
fn no_more_files_leave_than_have_to() {
    let mut files = GeneratedFilesCollection::new();
    files.add_file(file(1, 10 * MIB, 1));
    files.add_file(file(2, 10 * MIB, 2));
    files.add_file(file(3, 6 * MIB, 3));
    files.add_file(file(4, 10 * MIB, 4));
    assert_eq!(files.total_size(), 36 * MIB);
    files.purge_old_if_too_big();
    assert_eq!(files.total_size(), 16 * MIB);
    assert!(files.get(&content_hash(&vec![1; 10 * MIB])).is_none());
    assert!(files.get(&content_hash(&vec![2; 10 * MIB])).is_none());
    assert!(files.get(&content_hash(&vec![3; 6 * MIB])).is_some());
    assert!(files.get(&content_hash(&vec![4; 10 * MIB])).is_some());
}

#[test]
fn one_file_that_is_too_large_leaves_nothing() {
    let mut files = GeneratedFilesCollection::new();
    files.add_file(file(1, 40 * MIB, 1));
    files.purge_old_if_too_big();
    assert_eq!(files.total_size(), 0);
    assert!(files.get(&content_hash(&vec![1; 40 * MIB])).is_none());
}

#[test]
fn forty_files_of_one_mebibyte_never_take_more_than_the_high_water_mark() {
    let mut files = GeneratedFilesCollection::new();
    for seed in 0..40u8 {
        files.register(file(seed, MIB, seed as u64));
        assert!(files.total_size() <= 32 * MIB);
        let expected = if seed < 32 { seed as usize + 1 } else { seed as usize - 15 };
        assert_eq!(files.total_size(), expected * MIB);
        if seed == 32 {
            let kept = (0..=seed).filter(|&old| files.get(&content_hash(&vec![old; MIB])).is_some()).count();
            assert_eq!(kept, 17);
            for old in 0..16 {
                assert!(files.get(&content_hash(&vec![old; MIB])).is_none());
            }
        }
    }
    for seed in 16..40u8 {
        assert!(files.get(&content_hash(&vec![seed; MIB])).is_some());
    }
}

#[test]
fn files_that_come_together_are_kept_after_one_purge() {
    let mut files = GeneratedFilesCollection::new();
    for seed in 0..32 {
        files.add_file(file(seed, MIB, seed as u64));
    }
    files.register_all(vec![file(100, MIB, 100), file(101, MIB, 101), file(100, MIB, 102)]);
    assert_eq!(files.total_size(), 18 * MIB);
    assert_eq!(files.get(&content_hash(&vec![100; MIB])).unwrap().timestamp, Timestamp { usecs: 100 });
    assert!(files.get(&content_hash(&vec![101; MIB])).is_some());
}

#[test]
fn files_that_come_one_by_one_are_kept_each_after_a_purge() {
    let mut files = GeneratedFilesCollection::new();
    for seed in 0..31 {
        files.add_file(file(seed, MIB, seed as u64));
    }
    files.register_each(vec![file(100, MIB, 100), file(101, MIB, 101), file(102, MIB, 102)]);
    assert_eq!(files.total_size(), 18 * MIB);
    assert!(files.get(&content_hash(&vec![100; MIB])).is_some());
    assert!(files.get(&content_hash(&vec![102; MIB])).is_some());
    assert!(files.get(&content_hash(&vec![15; MIB])).is_none());
}

#[test]
fn the_name_of_a_file_stands_behind_the_last_slash() {
    assert_eq!(basename("/tmp/graphs/first.svg"), "first.svg");
    assert_eq!(basename("first.svg"), "first.svg");
    assert_eq!(basename("/tmp/graphs/"), "");
    assert_eq!(basename(""), "");
    assert_eq!(basename("a/b"), "b");
}

#[test]
fn a_file_of_a_script_is_served_under_its_capture_its_hash_and_its_name() {
    assert_eq!(
        script_file_url("17", "900150983cd24fb0d6963f7d28e17f72", "graph.svg"),
        "/data/17/script_files/900150983cd24fb0d6963f7d28e17f72/graph.svg"
    );
}

#[test]
fn each_output_of_a_script_is_told_of_and_each_image_is_made_a_file() {
    let outputs = vec![
        ScriptOutputKind::PrintLine(String::from("hello")),
        ScriptOutputKind::Image { path: String::from("/out/one.svg"), data: Arc::new(b"abc".to_vec()) },
        ScriptOutputKind::PrintLine(String::from("bye")),
        ScriptOutputKind::Image { path: String::from("two.svg"), data: Arc::new(Vec::new()) },
    ];
    let (shown, files) = collect_outputs("5", outputs, Timestamp { usecs: 9 });
    assert_eq!(shown.len(), 4);
    assert!(matches!(&shown[0], ScriptOutput::PrintLine { value } if value == "hello"));
    assert!(matches!(&shown[2], ScriptOutput::PrintLine { value } if value == "bye"));
    match &shown[1] {
        ScriptOutput::Image { url, basename, path, checksum } => {
            assert_eq!(url, "/data/5/script_files/900150983cd24fb0d6963f7d28e17f72/one.svg");
            assert_eq!(basename, "one.svg");
            assert_eq!(path, "/out/one.svg");
            assert_eq!(checksum, "900150983cd24fb0d6963f7d28e17f72");
        },
        _ => panic!("an image is told of as an image"),
    }
    match &shown[3] {
        ScriptOutput::Image { url, .. } => {
            assert_eq!(url, "/data/5/script_files/d41d8cd98f00b204e9800998ecf8427e/two.svg");
        },
        _ => panic!("an image is told of as an image"),
    }
    assert_eq!(files.len(), 2);
    assert_eq!(files[0].hash, "900150983cd24fb0d6963f7d28e17f72");
    assert_eq!(files[0].mime, "image/svg+xml");
    assert_eq!(files[0].timestamp, Timestamp { usecs: 9 });
    assert_eq!(*files[0].data, b"abc".to_vec());
    assert_eq!(files[1].hash, "d41d8cd98f00b204e9800998ecf8427e");
}

#[test]
fn a_group_is_given_the_addresses_of_its_first_two_graphs() {
    let data = capture(vec![allocation(0, 1, 0, 0, None)], vec![], vec![vec![]], vec![], vec![], 1);
    let image = |name: &str, content: &[u8]| ScriptOutputKind::Image {
        path: format!("/graphs/{}", name),
        data: Arc::new(content.to_vec()),
    };
    let mut files = GeneratedFilesCollection::new();
    let group = attach_graphs(
        &mut files,
        "1",
        vec![
            ScriptOutputKind::PrintLine(String::from("drawing")),
            image("full.svg", b"abc"),
            image("preview.svg", b""),
            image("extra.svg", b"x"),
        ],
        Timestamp { usecs: 3 },
        get_allocation_group_data(&data, &[0]),
    );
    assert_eq!(
        group.graph_url.as_deref(),
        Some("/data/1/script_files/900150983cd24fb0d6963f7d28e17f72/full.svg")
    );
    assert_eq!(
        group.graph_preview_url.as_deref(),
        Some("/data/1/script_files/d41d8cd98f00b204e9800998ecf8427e/preview.svg")
    );
    assert_eq!(group.allocated_count, 1);
    assert_eq!(files.total_size(), 4);
    assert!(files.get("900150983cd24fb0d6963f7d28e17f72").is_some());

    let one = attach_graphs(
        &mut files,
        "1",
        vec![image("full.svg", b"abc")],
        Timestamp { usecs: 4 },
        get_allocation_group_data(&data, &[0]),
    );
    assert!(one.graph_url.is_some());
    assert_eq!(one.graph_preview_url, None);
    let none = attach_graphs(&mut files, "1", vec![], Timestamp { usecs: 5 }, get_allocation_group_data(&data, &[0]));
    assert_eq!(none.graph_url, None);
    assert_eq!(none.graph_preview_url, None);
    assert_eq!(files.total_size(), 4);
}

#[test]
fn the_script_of_the_graphs_names_the_backtrace() {
    assert_eq!(
        graph_script(1234),
        "let graph = graph().add(\"Matched\", allocations()).add(\"Global\", data().allocations().only_matching_backtraces([1234])).save().without_axes().without_legend().save();"
    );
    assert!(graph_script(0).contains("only_matching_backtraces([0])"));
}

#[test]
fn the_script_of_a_request_is_made_the_body_of_a_function() {
    let request = CustomFilter { custom_filter: Some(String::from("let a = 1;\r\nreturn allocations();")) };
    assert_eq!(
        prologue(&request),
        "fn custom_filter() {\n    let a = 1;\n    return allocations();\n}\n\nlet filtered = custom_filter();\n"
    );
    assert_eq!(prologue(&CustomFilter { custom_filter: None }), "");
    assert_eq!(
        prologue(&CustomFilter { custom_filter: Some(String::new()) }),
        "fn custom_filter() {\n}\n\nlet filtered = custom_filter();\n"
    );
    assert_eq!(
        prologue(&CustomFilter { custom_filter: Some(String::from("a\n\nb\n")) }),
        "fn custom_filter() {\n    a\n    \n    b\n}\n\nlet filtered = custom_filter();\n"
    );
    assert_eq!(
        prologue(&CustomFilter { custom_filter: Some(String::from("a\r")) }),
        "fn custom_filter() {\n    a\r\n}\n\nlet filtered = custom_filter();\n"
    );
}
