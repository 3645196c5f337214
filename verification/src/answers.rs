//! The allocations and the groups of allocations that one answer shows.

use vstd::prelude::*;
use crate::allocations::{index_of, matching, matching_ids, page, page_of, prefiltered_allocation_ids};
use crate::capture::{Allocation, AllocationId, Data, DataId, Deallocation};
use crate::filter::AllocationFilter;
use crate::frames::{get_backtrace_of, shown, shows_backtrace, BacktraceFormat, ResponseFrame};
use crate::generated::{GeneratedFilesCollection, HIGH_WATER_MARK};
use crate::group_data::{get_allocation_group_data, get_global_group_data, AllocationGroupData, Summary};
use crate::groups::{AllocationGroups, GroupView};
use crate::protocol::{AllocGroupsSortBy, AllocSortBy, Order};
use crate::scripts::{collect_outputs, image_urls, images_of, ScriptOutput, ScriptOutputKind};
use crate::text::{digits_of, to_hex_u64};
use crate::timestamp::Timestamp;

verus! {

/// Which allocations a request wants to be shown.
#[derive(Clone, Copy, Debug, PartialEq, Eq, Structural, Hash)]
pub struct RequestAllocations {
    pub skip: Option<u64>,
    pub count: Option<u32>,
    pub sort_by: Option<AllocSortBy>,
    pub order: Option<Order>,
}

/// Which groups a request wants to be shown.
#[derive(Clone, Copy, Debug, PartialEq, Eq, Structural, Hash)]
pub struct RequestAllocationGroups {
    pub skip: Option<u64>,
    pub count: Option<u32>,
    pub sort_by: Option<AllocGroupsSortBy>,
    pub order: Option<Order>,
    pub generate_graphs: Option<bool>,
}

/// How many items are left out in front: none where the request does not
/// say, and no more than a list can hold.
pub open spec fn skipped(skip: Option<u64>) -> nat {
    match skip {
        Some(skip) => if skip > usize::MAX { usize::MAX as nat } else { skip as nat },
        None => 0,
    }
}

/// How many items are shown at most: as many as there are where the
/// request does not say.
pub open spec fn wanted(count: Option<u32>) -> nat {
    match count {
        Some(count) => count as nat,
        None => u32::MAX as nat,
    }
}

/// How many items a request leaves out in front.
pub fn skip_of(skip: Option<u64>) -> (r: usize)
    ensures
        r == skipped(skip),
{
    match skip {
        Some(skip) => if skip > usize::MAX as u64 { usize::MAX } else { skip as usize },
        None => 0,
    }
}

/// How many items a request wants at most.
pub fn count_of(count: Option<u32>) -> (r: usize)
    ensures
        r == wanted(count),
{
    match count {
        Some(count) => count as usize,
        None => u32::MAX as usize,
    }
}

/// An allocation as an answer shows it.
#[derive(Debug)]
pub struct ResponseAllocation {
    pub id: u64,
    pub address: u64,
    pub address_s: String,
    pub timestamp: Timestamp,
    pub timestamp_relative: Timestamp,
    pub thread: u32,
    pub size: u64,
    pub backtrace_id: u32,
    pub deallocation: Option<Deallocation>,
    pub backtrace: Vec<ResponseFrame>,
    pub in_main_arena: bool,
    pub is_mmaped: bool,
    pub is_jemalloc: bool,
    pub extra_space: u32,
    pub chain_lifetime: Option<Timestamp>,
    pub position_in_chain: u32,
    pub chain_length: u32,
}

impl ResponseAllocation {
    /// The record shows the allocation `id` of `data`: its fields as they
    /// are, its address also in sixteen hexadecimal digits, the moment at
    /// which it was made also as the time since the capture began, and its
    /// backtrace frame by frame.
    pub open spec fn shows(&self, data: &Data, format: &BacktraceFormat, id: AllocationId) -> bool {
        let allocation = data.allocations[id as int];
        &&& self.id == id
        &&& self.address == allocation.pointer
        &&& self.address_s@ == digits_of(allocation.pointer, 16, 16, true)
        &&& self.timestamp == allocation.timestamp
        &&& self.timestamp_relative.usecs == allocation.timestamp.usecs - data.initial_timestamp.usecs
        &&& self.thread == allocation.thread
        &&& self.size == allocation.size
        &&& self.backtrace_id == allocation.backtrace
        &&& self.deallocation == allocation.deallocation
        &&& shows_backtrace(data, format, data.backtraces[allocation.backtrace as int]@, self.backtrace@)
        &&& self.in_main_arena == allocation.in_main_arena
        &&& self.is_mmaped == allocation.is_mmaped
        &&& self.is_jemalloc == allocation.is_jemalloc
        &&& self.extra_space == allocation.extra_usable_space
        &&& self.chain_lifetime == allocation.chain_lifetime
        &&& self.position_in_chain == allocation.position_in_chain
        &&& self.chain_length == allocation.chain_length
    }
}

/// The allocations that an answer shows, and how many matched in all.
#[derive(Debug)]
pub struct ResponseAllocations {
    pub allocations: Vec<ResponseAllocation>,
    pub total_count: u64,
}

/// Shows one allocation of a capture.
pub fn get_allocation(data: &Data, format: &BacktraceFormat, id: AllocationId) -> (r: ResponseAllocation)
    requires
        data.wf(),
        id < data.allocations.len(),
    ensures
        r.shows(data, format, id),
{
    let allocation = data.get_allocation(id);
    assert(data.allocation_wf(*allocation));
    ResponseAllocation {
        id,
        address: allocation.pointer,
        address_s: to_hex_u64(allocation.pointer),
        timestamp: allocation.timestamp,
        timestamp_relative: allocation.timestamp.since(data.initial_timestamp),
        thread: allocation.thread,
        size: allocation.size,
        backtrace_id: allocation.backtrace,
        deallocation: allocation.deallocation,
        backtrace: get_backtrace_of(data, format, allocation.backtrace),
        in_main_arena: allocation.in_main_arena,
        is_mmaped: allocation.is_mmaped,
        is_jemalloc: allocation.is_jemalloc,
        extra_space: allocation.extra_usable_space,
        chain_lifetime: allocation.chain_lifetime,
        position_in_chain: allocation.position_in_chain,
        chain_length: allocation.chain_length,
    }
}

/// The order of the allocations of an answer: by the moment at which they
/// were made where the request does not say.
pub open spec fn sorted_by(params: &RequestAllocations) -> AllocSortBy {
    match params.sort_by {
        Some(sort_by) => sort_by,
        None => AllocSortBy::Timestamp,
    }
}

/// Whether the lowest comes first, which it does where the request does
/// not say.
pub open spec fn ordered(order: Option<Order>) -> Order {
    match order {
        Some(order) => order,
        None => Order::Asc,
    }
}

/// The ids of the allocations that an answer shows.
pub open spec fn shown_ids<F: Fn(DataId, AllocationId, &Allocation) -> bool>(
    data: &Data,
    params: &RequestAllocations,
    filter: &AllocationFilter<F>,
) -> Seq<AllocationId> {
    page_of(
        matching(data, filter, index_of(data, sorted_by(params))),
        ordered(params.order),
        skipped(params.skip),
        wanted(params.count),
    )
}

/// The allocations of a capture that a request asks for.
///
/// Of the allocations that the filter accepts, in the order asked for, the
/// answer shows those that the request does not skip, as many as it wants;
/// and it tells how many the filter accepts in all.
pub fn get_allocations<F: Fn(DataId, AllocationId, &Allocation) -> bool>(
    data: &Data,
    backtrace_format: &BacktraceFormat,
    params: &RequestAllocations,
    filter: &AllocationFilter<F>,
) -> (r: ResponseAllocations)
    requires
        data.wf(),
        filter.wf(),
    ensures
        r.total_count == matching(data, filter, index_of(data, sorted_by(params))).len(),
        r.allocations.len() == shown_ids(data, params, filter).len(),
        forall|i: int|
            0 <= i < r.allocations.len() ==> (#[trigger] r.allocations[i]).shows(
                data,
                backtrace_format,
                shown_ids(data, params, filter)[i],
            ),
{
    let remaining: usize = count_of(params.count);
    let skip: usize = skip_of(params.skip);
    let sort_by = match params.sort_by {
        Some(sort_by) => sort_by,
        None => AllocSortBy::Timestamp,
    };
    let order = match params.order {
        Some(order) => order,
        None => Order::Asc,
    };

    let allocation_ids = prefiltered_allocation_ids(data, sort_by, filter);
    let matched = matching_ids(data, filter, allocation_ids);
    let total_count: u64 = matched.len() as u64;
    let ids = page(&matched, order, skip, remaining);
    assert forall|i: int| 0 <= i < ids.len() implies ids[i] < data.allocations.len() by {
        let ordered = match order {
            Order::Asc => matched@,
            Order::Dsc => matched@.reverse(),
        };
        let from = if skip < ordered.len() { skip as int } else { ordered.len() as int };
        assert(ids[i] == ordered[from + i]);
    }

    let mut allocations: Vec<ResponseAllocation> = Vec::new();
    let mut i: usize = 0;
    while i < ids.len()
        invariant
            data.wf(),
            0 <= i <= ids.len(),
            forall|i: int| 0 <= i < ids.len() ==> ids[i] < data.allocations.len(),
            allocations.len() == i,
            forall|k: int|
                0 <= k < i ==> (#[trigger] allocations[k]).shows(data, backtrace_format, ids[k]),
        decreases ids.len() - i,
    {
        allocations.push(get_allocation(data, backtrace_format, ids[i]));
        i += 1;
    }

    ResponseAllocations { allocations, total_count }
}

/// A group as an answer shows it: what is known of all allocations of its
/// backtrace, what is known of those that matched, and the backtrace.
#[derive(Debug)]
pub struct AllocationGroup {
    pub all: AllocationGroupData,
    pub only_matched: AllocationGroupData,
    pub backtrace_id: u32,
    pub backtrace: Vec<ResponseFrame>,
}

impl AllocationGroup {
    pub open spec fn shows(&self, data: &Data, format: &BacktraceFormat, group: GroupView) -> bool {
        &&& self.all.tells_all(data, data.group_statistics[group.0 as int])
        &&& self.only_matched.tells(data, Summary::of(data, group.1))
        &&& self.backtrace_id == group.0
        &&& shows_backtrace(data, format, data.backtraces[group.0 as int]@, self.backtrace@)
    }
}

/// Shows the group `g` of `groups`.
pub fn get_allocation_group(
    data: &Data,
    format: &BacktraceFormat,
    groups: &AllocationGroups,
    g: usize,
) -> (r: AllocationGroup)
    requires
        data.wf(),
        groups.fits(data),
        g < groups@.len(),
    ensures
        r.shows(data, format, groups@[g as int]),
{
    proof {
        groups.lemma_fits(data);
    }
    let backtrace_id = groups.backtrace_at(g);
    let matched_allocation_ids = groups.ids_at(g);
    assert forall|i: int| 0 <= i < matched_allocation_ids@.len() implies matched_allocation_ids@[i]
        < data.allocations.len() by {
        assert(groups@[g as int].1[i] < data.allocations.len());
    }
    let all = get_global_group_data(data, backtrace_id);
    let only_matched = get_allocation_group_data(data, matched_allocation_ids);
    let backtrace = get_backtrace_of(data, format, backtrace_id);
    AllocationGroup { all, only_matched, backtrace_id, backtrace }
}

/// The groups that an answer shows, and how many there are in all.
#[derive(Debug)]
pub struct ResponseAllocationGroups {
    pub allocations: Vec<AllocationGroup>,
    pub total_count: u64,
}

/// Where the items that an answer shows begin among `total` items.
pub open spec fn shown_from(skip: Option<u64>, total: nat) -> nat {
    if skipped(skip) < total {
        skipped(skip)
    } else {
        total
    }
}

/// Where the items that an answer shows end among `total` items.
pub open spec fn shown_to(skip: Option<u64>, count: Option<u32>, total: nat) -> nat {
    let from = shown_from(skip, total);
    if from + wanted(count) < total {
        from + wanted(count)
    } else {
        total
    }
}

/// Where the items that an answer shows begin and end among `total` items:
/// behind those that the request skips, as many as it wants, and no more
/// than there are.
pub fn shown_range(skip: Option<u64>, count: Option<u32>, total: usize) -> (r: (usize, usize))
    ensures
        r.0 == shown_from(skip, total as nat),
        r.1 == shown_to(skip, count, total as nat),
        r.0 <= r.1 <= total,
{
    let remaining: usize = count_of(count);
    let skip: usize = skip_of(skip);
    let from: usize = if skip < total { skip } else { total };
    let to: usize = if remaining < total - from { from + remaining } else { total };
    (from, to)
}

/// Where the groups that an answer shows begin among all groups.
pub open spec fn first_shown(params: &RequestAllocationGroups, groups: nat) -> nat {
    shown_from(params.skip, groups)
}

/// Where the groups that an answer shows end among all groups.
pub open spec fn end_shown(params: &RequestAllocationGroups, groups: nat) -> nat {
    shown_to(params.skip, params.count, groups)
}

/// The groups of a capture that a request asks for.
///
/// Of the groups, in the order in which they stand, the answer shows those
/// that the request does not skip, as many as it wants; and it tells how
/// many groups there are in all.
pub fn get_allocation_groups(
    data: &Data,
    backtrace_format: &BacktraceFormat,
    params: &RequestAllocationGroups,
    allocation_groups: &AllocationGroups,
) -> (r: ResponseAllocationGroups)
    requires
        data.wf(),
        allocation_groups.fits(data),
    ensures
        r.total_count == allocation_groups@.len(),
        r.allocations.len() == end_shown(params, allocation_groups@.len()) - first_shown(
            params,
            allocation_groups@.len(),
        ),
        forall|i: int|
            0 <= i < r.allocations.len() ==> (#[trigger] r.allocations[i]).shows(
                data,
                backtrace_format,
                allocation_groups@[first_shown(params, allocation_groups@.len()) + i],
            ),
{
    let total: usize = allocation_groups.len();
    let (from, to) = shown_range(params.skip, params.count, total);

    let mut allocations: Vec<AllocationGroup> = Vec::new();
    let mut g: usize = from;
    while g < to
        invariant
            data.wf(),
            allocation_groups.fits(data),
            total == allocation_groups@.len(),
            from <= g <= to <= total,
            allocations.len() == g - from,
            forall|i: int|
                0 <= i < allocations.len() ==> (#[trigger] allocations[i]).shows(
                    data,
                    backtrace_format,
                    allocation_groups@[from + i],
                ),
        decreases to - g,
    {
        allocations.push(get_allocation_group(data, backtrace_format, allocation_groups, g));
        g += 1;
    }

    ResponseAllocationGroups { allocations, total_count: total as u64 }
}

/// Gives a group the graphs that a script has drawn of it.
///
/// The images among `outputs` are kept as files, dated `now`. The group is
/// given the address of the first image as its graph and the address of the
/// second as the preview of its graph; where there are fewer images, it is
/// given fewer addresses. Nothing else changes of what the group tells.
pub fn attach_graphs(
    files: &mut GeneratedFilesCollection,
    data_id: &str,
    outputs: Vec<ScriptOutputKind>,
    now: Timestamp,
    group: AllocationGroupData,
) -> (r: AllocationGroupData)
    requires
        old(files).wf(),
        forall|i: int|
            0 <= i < outputs.len() ==> (#[trigger] outputs[i] matches ScriptOutputKind::Image { data, .. }
                ==> data@.len() + HIGH_WATER_MARK <= usize::MAX),
    ensures
        final(files).wf(),
        exists|kept: Seq<crate::generated::GeneratedFile>|
            {
                &&& kept.len() == images_of(outputs@).len()
                &&& forall|i: int|
                    0 <= i < kept.len() ==> crate::scripts::kept_for(images_of(outputs@)[i], now, kept[i])
                &&& #[trigger] crate::generated::registered_each(old(files)@, kept, final(files)@)
            },
        r == (AllocationGroupData { graph_url: r.graph_url, graph_preview_url: r.graph_preview_url, ..group }),
        shown(r.graph_url) == if image_urls(data_id@, outputs@).len() >= 1 {
            Some(image_urls(data_id@, outputs@)[0])
        } else {
            None
        },
        shown(r.graph_preview_url) == if image_urls(data_id@, outputs@).len() >= 2 {
            Some(image_urls(data_id@, outputs@)[1])
        } else {
            None
        },
{
    let (told, kept) = collect_outputs(data_id, outputs, now);
    proof {
        lemma_images_are_images(outputs@);
        assert forall|i: int| 0 <= i < kept.len() implies (#[trigger] kept[i]).data@.len() + HIGH_WATER_MARK
            <= usize::MAX by {
            let image = images_of(outputs@)[i];
            assert(crate::scripts::kept_for(image, now, kept[i]));
            let at = choose|at: int| 0 <= at < outputs.len() && outputs[at] == image;
            assert(outputs[at] is Image);
        }
    }
    files.register_each(kept);

    let mut graph_url: Option<String> = None;
    let mut graph_preview_url: Option<String> = None;
    let mut i: usize = 0;
    while i < told.len()
        invariant
            0 <= i <= told.len(),
            told.len() == outputs.len(),
            forall|k: int|
                0 <= k < outputs.len() ==> crate::scripts::told(data_id@, outputs[k], #[trigger] told[k]),
            shown(graph_url) == if image_urls(data_id@, outputs@.take(i as int)).len() >= 1 {
                Some(image_urls(data_id@, outputs@.take(i as int))[0])
            } else {
                None
            },
            shown(graph_preview_url) == if image_urls(data_id@, outputs@.take(i as int)).len()
                >= 2 {
                Some(image_urls(data_id@, outputs@.take(i as int))[1])
            } else {
                None
            },
        decreases told.len() - i,
    {
        proof {
            assert(outputs@.take(i + 1).drop_last() =~= outputs@.take(i as int));
            assert(crate::scripts::told(data_id@, outputs[i as int], told[i as int]));
        }
        match &told[i] {
            ScriptOutput::Image { url, .. } => {
                if graph_url.is_none() {
                    graph_url = Some(url.clone());
                } else if graph_preview_url.is_none() {
                    graph_preview_url = Some(url.clone());
                }
            },
            ScriptOutput::PrintLine { .. } => {},
        }
        i += 1;
    }
    assert(outputs@.take(outputs.len() as int) =~= outputs@);
    let mut group = group;
    group.graph_url = graph_url;
    group.graph_preview_url = graph_preview_url;
    group
}

proof fn lemma_images_are_images(outputs: Seq<ScriptOutputKind>)
    ensures
        forall|i: int|
            0 <= i < images_of(outputs).len() ==> (#[trigger] images_of(outputs)[i]) is Image
                && outputs.contains(images_of(outputs)[i]),
{
    let images = images_of(outputs);
    assert forall|i: int| 0 <= i < images.len() implies (#[trigger] images[i]) is Image
        && outputs.contains(images[i]) by {
        outputs.lemma_filter_pred(|output: ScriptOutputKind| output is Image, i);
        outputs.lemma_filter_contains_rev(|output: ScriptOutputKind| output is Image, images[i]);
    }
}

} // verus!
