//! Allocations grouped by the backtrace that they share.

use vstd::prelude::*;
use vstd::relations::sorted_by;
use vstd::slice::slice_subrange;
use crate::capture::{AllocationId, BacktraceId, Data};
use crate::group_data::{summarize, Summary};
use crate::protocol::{AllocGroupsSortBy, Order};
use crate::sorting::{
    lemma_ranking, lemma_sorted_pairs_members, pair_order, placed, ranking, sort_pairs, sorted_pairs,
};

verus! {

/// What the groups of a capture are, as a value of mathematics: the
/// backtrace of each group with the ids of its allocations.
pub type GroupView = (BacktraceId, Seq<AllocationId>);

/// Where the ids of one group stand.
#[derive(Clone, Copy, Debug)]
pub struct GroupEntry {
    pub backtrace: BacktraceId,
    pub offset: usize,
    pub len: usize,
}

/// The allocations that matched a filter, grouped by backtrace.
///
/// All ids stand in one vector, group after group; an index says for each
/// group which backtrace it is of and where its ids begin and end. The
/// groups can be put in another order without an id being moved.
pub struct AllocationGroups {
    index: Vec<GroupEntry>,
    storage: Vec<AllocationId>,
}

/// An allocation with its backtrace in front: the pair by which allocations
/// are put in groups.
pub open spec fn keyed(data: &Data, id: AllocationId) -> (u64, u64) {
    (data.allocations[id as int].backtrace as u64, id)
}

pub open spec fn keyed_all(data: &Data, ids: Seq<AllocationId>) -> Seq<(u64, u64)> {
    ids.map_values(|id: AllocationId| keyed(data, id))
}

/// The ids of a group, each with the backtrace of the group in front.
pub open spec fn pairs_of(group: GroupView) -> Seq<(u64, u64)> {
    group.1.map_values(|id: AllocationId| (group.0 as u64, id))
}

/// All groups laid out one after the other.
pub open spec fn flatten(groups: Seq<GroupView>) -> Seq<(u64, u64)>
    decreases groups.len(),
{
    if groups.len() == 0 {
        Seq::empty()
    } else {
        flatten(groups.drop_last()) + pairs_of(groups.last())
    }
}

/// How many ids the groups hold in all.
pub open spec fn total(groups: Seq<GroupView>) -> nat
    decreases groups.len(),
{
    if groups.len() == 0 {
        0
    } else {
        total(groups.drop_last()) + groups.last().1.len()
    }
}

/// `groups` are the groups of the pairs `pairs`: no group is empty, the
/// groups stand in the order of their backtraces, no backtrace has two
/// groups, and the groups laid out one after the other are the sorted pairs.
/// So each pair is in the group of its backtrace, as often as it is among
/// `pairs`, and the ids of each group stand in their order.
pub open spec fn is_grouping(pairs: Seq<(u64, u64)>, groups: Seq<GroupView>) -> bool {
    &&& forall|g: int| 0 <= g < groups.len() ==> (#[trigger] groups[g]).1.len() > 0
    &&& forall|g: int, h: int|
        0 <= g < h < groups.len() ==> (#[trigger] groups[g]).0 < (#[trigger] groups[h]).0
    &&& flatten(groups) == sorted_pairs(pairs)
}

/// The groups of some pairs. There is one such value and no more, by
/// `lemma_grouping_unique`, wherever there is one at all.
pub open spec fn grouped(pairs: Seq<(u64, u64)>) -> Seq<GroupView> {
    choose|groups: Seq<GroupView>| is_grouping(pairs, groups)
}

/// The groups that an index cuts out of the stored ids.
pub open spec fn groups_of(index: Seq<GroupEntry>, storage: Seq<AllocationId>) -> Seq<GroupView> {
    Seq::new(
        index.len(),
        |g: int|
            (
                index[g].backtrace,
                storage.subrange(index[g].offset as int, index[g].offset + index[g].len),
            ),
    )
}

/// The entries of `index` cut the first `upto` pairs into runs of one
/// backtrace each, without a gap, and in the order of the backtraces.
spec fn tiles(index: Seq<GroupEntry>, pairs: Seq<(u64, u64)>, upto: int) -> bool {
    &&& 0 <= upto <= pairs.len()
    &&& index.len() == 0 ==> upto == 0
    &&& index.len() > 0 ==> index[0].offset == 0 && index.last().offset + index.last().len == upto
    &&& forall|g: int| 0 <= g < index.len() ==> (#[trigger] index[g]).len > 0
    &&& forall|g: int|
        0 < g < index.len() ==> (#[trigger] index[g]).offset == index[g - 1].offset + index[g - 1].len
    &&& forall|g: int, k: int|
        0 <= g < index.len() && index[g].offset <= k < index[g].offset + index[g].len ==> (
        #[trigger] pairs[k]).0 == (#[trigger] index[g]).backtrace
    &&& forall|g: int, h: int|
        0 <= g < h < index.len() ==> (#[trigger] index[g]).backtrace < (#[trigger] index[h]).backtrace
}

/// Entries that tile the pairs end no later than they do.
proof fn lemma_tiles_bounded(index: Seq<GroupEntry>, pairs: Seq<(u64, u64)>, upto: int, g: int)
    requires
        tiles(index, pairs, upto),
        0 <= g < index.len(),
    ensures
        index[g].offset + index[g].len <= upto,
    decreases index.len() - g,
{
    if g + 1 < index.len() {
        lemma_tiles_bounded(index, pairs, upto, g + 1);
        assert(index[g + 1].offset == index[g].offset + index[g].len);
    }
}

/// A pair of another backtrace than the last run opens a run of its own.
proof fn lemma_tiles_open(before: Seq<GroupEntry>, pairs: Seq<(u64, u64)>, upto: int, entry: GroupEntry)
    requires
        tiles(before, pairs, upto),
        upto < pairs.len(),
        sorted_by(pairs, pair_order()),
        entry.backtrace == pairs[upto].0,
        entry.offset == upto,
        entry.len == 1,
        before.len() > 0 ==> before.last().backtrace != pairs[upto].0,
    ensures
        tiles(before.push(entry), pairs, upto + 1),
{
    let index = before.push(entry);
    if before.len() > 0 {
        let last = before.last();
        assert(pairs[upto - 1].0 == last.backtrace);
        assert(pair_order()(pairs[upto - 1], pairs[upto]));
    }
    assert forall|g: int| 0 <= g < index.len() implies (#[trigger] index[g]).len > 0 by {
        if g < before.len() {
            assert(index[g] == before[g]);
        }
    }
    assert forall|g: int| 0 < g < index.len() implies (#[trigger] index[g]).offset == index[g
        - 1].offset + index[g - 1].len by {
        if g < before.len() {
            assert(index[g] == before[g]);
        }
    }
    assert forall|g: int, h: int| 0 <= g < h < index.len() implies (#[trigger] index[g]).backtrace < (
    #[trigger] index[h]).backtrace by {
        if h < before.len() {
            assert(index[g] == before[g] && index[h] == before[h]);
        } else {
            assert(index[g] == before[g]);
            assert(before[g].backtrace <= before.last().backtrace) by {
                if g < before.len() - 1 {
                    assert(before[g].backtrace < before[before.len() - 1].backtrace);
                }
            }
        }
    }
    assert forall|g: int, k: int|
        0 <= g < index.len() && index[g].offset <= k < index[g].offset + index[g].len implies (
    #[trigger] pairs[k]).0 == (#[trigger] index[g]).backtrace by {
        if g < before.len() {
            assert(index[g] == before[g]);
        }
    }
}

/// A pair of the backtrace of the last run makes that run longer by one.
proof fn lemma_tiles_grow(before: Seq<GroupEntry>, pairs: Seq<(u64, u64)>, upto: int)
    requires
        tiles(before, pairs, upto),
        upto < pairs.len(),
        before.len() > 0,
        before.last().backtrace == pairs[upto].0,
        before.last().len < usize::MAX,
    ensures
        tiles(
            before.update(
                before.len() - 1,
                GroupEntry {
                    backtrace: before.last().backtrace,
                    offset: before.last().offset,
                    len: (before.last().len + 1) as usize,
                },
            ),
            pairs,
            upto + 1,
        ),
{
    let at = before.len() - 1;
    let index = before.update(
        at,
        GroupEntry {
            backtrace: before.last().backtrace,
            offset: before.last().offset,
            len: (before.last().len + 1) as usize,
        },
    );
    assert forall|g: int| 0 <= g < index.len() implies (#[trigger] index[g]).len > 0 by {
        if g < at {
            assert(index[g] == before[g]);
        }
    }
    assert forall|g: int| 0 < g < index.len() implies (#[trigger] index[g]).offset == index[g
        - 1].offset + index[g - 1].len by {
        assert(before[g].offset == before[g - 1].offset + before[g - 1].len);
    }
    assert forall|g: int, h: int| 0 <= g < h < index.len() implies (#[trigger] index[g]).backtrace < (
    #[trigger] index[h]).backtrace by {
        assert(before[g].backtrace < before[h].backtrace);
    }
    assert forall|g: int, k: int|
        0 <= g < index.len() && index[g].offset <= k < index[g].offset + index[g].len implies (
    #[trigger] pairs[k]).0 == (#[trigger] index[g]).backtrace by {
        if k < upto {
            assert(before[g].offset <= k < before[g].offset + before[g].len);
            assert(pairs[k].0 == before[g].backtrace);
        }
    }
}

/// Entries that tile the pairs, over ids stored as the pairs hold them, cut
/// out groups that laid out one after the other are those pairs.
proof fn lemma_tiles_flatten(
    index: Seq<GroupEntry>,
    storage: Seq<AllocationId>,
    pairs: Seq<(u64, u64)>,
    upto: int,
)
    requires
        tiles(index, pairs, upto),
        upto <= storage.len(),
        forall|k: int| 0 <= k < upto ==> storage[k] == pairs[k].1,
    ensures
        flatten(groups_of(index, storage)) == pairs.take(upto),
    decreases index.len(),
{
    let groups = groups_of(index, storage);
    if index.len() == 0 {
        assert(pairs.take(0) =~= Seq::<(u64, u64)>::empty());
    } else {
        let last = index.last();
        let before = index.drop_last();
        assert(tiles(before, pairs, last.offset as int)) by {
            if before.len() > 0 {
                assert(before.last() == index[index.len() - 2]);
                assert(index[index.len() - 1].offset == index[index.len() - 2].offset + index[index.len()
                    - 2].len);
            }
            assert forall|g: int| 0 <= g < before.len() implies (#[trigger] before[g]).len > 0 by {
                assert(before[g] == index[g]);
            }
            assert forall|g: int| 0 < g < before.len() implies (#[trigger] before[g]).offset == before[g
                - 1].offset + before[g - 1].len by {
                assert(before[g] == index[g]);
            }
        }
        lemma_tiles_flatten(before, storage, pairs, last.offset as int);
        assert(groups.drop_last() =~= groups_of(before, storage));
        assert(pairs_of(groups.last()) =~= pairs.subrange(last.offset as int, upto)) by {
            assert(groups.last() == groups[index.len() - 1]);
            assert forall|k: int| 0 <= k < last.len implies pairs_of(groups.last())[k] == pairs[last.offset
                + k] by {
                assert(pairs[last.offset + k].0 == index[index.len() - 1].backtrace);
            }
        }
        assert(pairs.take(last.offset as int) + pairs.subrange(last.offset as int, upto) =~= pairs.take(
            upto,
        ));
    }
}

/// The groups hold in all as many ids as they have pairs when laid out.
pub proof fn lemma_total_is_flatten_len(groups: Seq<GroupView>)
    ensures
        total(groups) == flatten(groups).len(),
    decreases groups.len(),
{
    if groups.len() > 0 {
        lemma_total_is_flatten_len(groups.drop_last());
    }
}

/// The groups that are made of some pairs hold in all as many ids as
/// there are pairs: each pair is in one group, and in one only.
pub proof fn lemma_groups_hold_all(pairs: Seq<(u64, u64)>, groups: Seq<GroupView>)
    requires
        is_grouping(pairs, groups),
    ensures
        total(groups) == pairs.len(),
{
    lemma_total_is_flatten_len(groups);
    lemma_sorted_pairs_members(pairs);
}

/// Each pair of the groups laid out has the backtrace of one of the groups.
proof fn lemma_flatten_keys(groups: Seq<GroupView>, at: int)
    requires
        0 <= at < flatten(groups).len(),
    ensures
        exists|g: int| 0 <= g < groups.len() && flatten(groups)[at].0 == (#[trigger] groups[g]).0,
    decreases groups.len(),
{
    if groups.len() > 0 {
        let before = groups.drop_last();
        if at < flatten(before).len() {
            lemma_flatten_keys(before, at);
            let g = choose|g: int| 0 <= g < before.len() && flatten(before)[at].0 == (#[trigger] before[g]).0;
            assert(groups[g] == before[g]);
        } else {
            assert(flatten(groups)[at].0 == groups[groups.len() - 1].0);
        }
    }
}

/// Groups of which none is empty and no two are of one backtrace are
/// settled by what they are when laid out.
proof fn lemma_flatten_injective(one: Seq<GroupView>, other: Seq<GroupView>)
    requires
        forall|g: int| 0 <= g < one.len() ==> (#[trigger] one[g]).1.len() > 0,
        forall|g: int| 0 <= g < other.len() ==> (#[trigger] other[g]).1.len() > 0,
        forall|g: int, h: int| 0 <= g < h < one.len() ==> (#[trigger] one[g]).0 < (#[trigger] one[h]).0,
        forall|g: int, h: int|
            0 <= g < h < other.len() ==> (#[trigger] other[g]).0 < (#[trigger] other[h]).0,
        flatten(one) == flatten(other),
    ensures
        one == other,
    decreases one.len() + other.len(),
{
    if one.len() == 0 || other.len() == 0 {
        if one.len() > 0 {
            assert(one[one.len() - 1].1.len() > 0);
            assert(flatten(one).len() == flatten(one.drop_last()).len() + pairs_of(one.last()).len());
            assert(flatten(other).len() == 0);
            assert(false);
        }
        if other.len() > 0 {
            assert(other[other.len() - 1].1.len() > 0);
            assert(flatten(other).len() == flatten(other.drop_last()).len() + pairs_of(
                other.last(),
            ).len());
            assert(flatten(one).len() == 0);
            assert(false);
        }
        assert(one =~= other);
    } else {
        let a = one.last();
        let b = other.last();
        let flat = flatten(one);
        assert(a == one[one.len() - 1] && b == other[other.len() - 1]);
        assert(a.1.len() > 0 && b.1.len() > 0);
        assert(flat.last() == pairs_of(a).last());
        assert(flat.last() == pairs_of(b).last());
        assert(a.0 == b.0);
        if a.1.len() < b.1.len() {
            // A pair that `other` has in its last group, `one` has in a group before the last.
            let at = flat.len() - a.1.len() - 1;
            assert(flatten(other)[at] == pairs_of(b)[at - flatten(other.drop_last()).len()]);
            assert(flat[at] == flatten(one.drop_last())[at]);
            lemma_flatten_keys(one.drop_last(), at);
            let g = choose|g: int|
                0 <= g < one.drop_last().len() && flatten(one.drop_last())[at].0 == (
                #[trigger] one.drop_last()[g]).0;
            assert(one.drop_last()[g] == one[g]);
            assert(one[g].0 < one[one.len() - 1].0);
            assert(false);
        }
        if b.1.len() < a.1.len() {
            let at = flat.len() - b.1.len() - 1;
            assert(flatten(one)[at] == pairs_of(a)[at - flatten(one.drop_last()).len()]);
            assert(flat[at] == flatten(other.drop_last())[at]);
            lemma_flatten_keys(other.drop_last(), at);
            let g = choose|g: int|
                0 <= g < other.drop_last().len() && flatten(other.drop_last())[at].0 == (
                #[trigger] other.drop_last()[g]).0;
            assert(other.drop_last()[g] == other[g]);
            assert(other[g].0 < other[other.len() - 1].0);
            assert(false);
        }
        assert(a.1 =~= b.1) by {
            assert forall|k: int| 0 <= k < a.1.len() implies a.1[k] == b.1[k] by {
                assert(pairs_of(a)[k] == flat[flatten(one.drop_last()).len() + k]);
                assert(pairs_of(b)[k] == flat[flatten(other.drop_last()).len() + k]);
            }
        }
        assert(flatten(one.drop_last()) =~= flat.take(flat.len() - a.1.len()));
        assert(flatten(other.drop_last()) =~= flat.take(flat.len() - b.1.len()));
        assert forall|g: int| 0 <= g < one.drop_last().len() implies (#[trigger] one.drop_last()[g]).1.len()
            > 0 by {
            assert(one.drop_last()[g] == one[g]);
        }
        assert forall|g: int| 0 <= g < other.drop_last().len() implies (
        #[trigger] other.drop_last()[g]).1.len() > 0 by {
            assert(other.drop_last()[g] == other[g]);
        }
        assert forall|g: int, h: int| 0 <= g < h < one.drop_last().len() implies (
        #[trigger] one.drop_last()[g]).0 < (#[trigger] one.drop_last()[h]).0 by {
            assert(one.drop_last()[g] == one[g] && one.drop_last()[h] == one[h]);
        }
        assert forall|g: int, h: int| 0 <= g < h < other.drop_last().len() implies (
        #[trigger] other.drop_last()[g]).0 < (#[trigger] other.drop_last()[h]).0 by {
            assert(other.drop_last()[g] == other[g] && other.drop_last()[h] == other[h]);
        }
        lemma_flatten_injective(one.drop_last(), other.drop_last());
        assert(one =~= one.drop_last().push(a));
        assert(other =~= other.drop_last().push(b));
    }
}

/// The same pairs are put in the same groups, however often and in
/// whatever order of the pairs the groups are made: the groups are the
/// same, and so are the ids of each group and the order in which they stand.
pub proof fn lemma_grouping_unique(
    pairs: Seq<(u64, u64)>,
    shuffled: Seq<(u64, u64)>,
    one: Seq<GroupView>,
    other: Seq<GroupView>,
)
    requires
        pairs.to_multiset() == shuffled.to_multiset(),
        is_grouping(pairs, one),
        is_grouping(shuffled, other),
    ensures
        one == other,
{
    crate::sorting::lemma_pair_order_total();
    lemma_sorted_pairs_members(pairs);
    lemma_sorted_pairs_members(shuffled);
    vstd::seq_lib::lemma_sorted_unique(sorted_pairs(pairs), sorted_pairs(shuffled), pair_order());
    lemma_flatten_injective(one, other);
}

impl View for AllocationGroups {
    type V = Seq<GroupView>;

    closed spec fn view(&self) -> Seq<GroupView> {
        groups_of(self.index@, self.storage@)
    }
}

impl AllocationGroups {
    /// Every group lies within the stored ids.
    pub closed spec fn wf(&self) -> bool {
        forall|g: int|
            0 <= g < self.index.len() ==> (#[trigger] self.index[g]).offset + self.index[g].len
                <= self.storage.len()
    }

    /// The groups are groups of `data`: no group is empty, and each id and
    /// each backtrace is one of `data`.
    pub closed spec fn fits(&self, data: &Data) -> bool {
        &&& self.wf()
        &&& forall|k: int|
            0 <= k < self.storage.len() ==> (#[trigger] self.storage[k]) < data.allocations.len()
        &&& forall|g: int|
            0 <= g < self.index.len() ==> (#[trigger] self.index[g]).backtrace < data.backtraces.len()
                && self.index[g].len > 0
    }

    /// What `fits` says, said of the groups themselves.
    pub proof fn lemma_fits(&self, data: &Data)
        requires
            self.fits(data),
        ensures
            self.wf(),
            forall|g: int|
                0 <= g < self@.len() ==> (#[trigger] self@[g]).0 < data.backtraces.len()
                    && self@[g].1.len() > 0,
            forall|g: int, i: int|
                0 <= g < self@.len() && 0 <= i < self@[g].1.len() ==> (#[trigger] self@[g].1[i])
                    < data.allocations.len(),
    {
        assert forall|g: int| 0 <= g < self@.len() implies (#[trigger] self@[g]).0 < data.backtraces.len()
            && self@[g].1.len() > 0 by {
            assert(self.index[g].len > 0);
        }
        assert forall|g: int, i: int| 0 <= g < self@.len() && 0 <= i < self@[g].1.len() implies (
        #[trigger] self@[g].1[i]) < data.allocations.len() by {
            assert(self.index[g].offset + self.index[g].len <= self.storage.len());
            assert(self@[g].1[i] == self.storage[self.index[g].offset + i]);
        }
    }

    /// Groups the allocations `matched` of `data` by their backtraces.
    ///
    /// The groups come in the order of their backtraces, and the ids of each
    /// group in their own order, whatever the order of `matched`.
    pub fn new(data: &Data, matched: &Vec<AllocationId>) -> (r: Self)
        requires
            data.wf(),
            forall|i: int| 0 <= i < matched.len() ==> matched[i] < data.allocations.len(),
        ensures
            r.fits(data),
            is_grouping(keyed_all(data, matched@), r@),
            r@ == grouped(keyed_all(data, matched@)),
            total(r@) == matched.len(),
    {
        let mut pairs: Vec<(u64, u64)> = Vec::new();
        let mut i: usize = 0;
        while i < matched.len()
            invariant
                0 <= i <= matched.len(),
                forall|i: int| 0 <= i < matched.len() ==> matched[i] < data.allocations.len(),
                pairs@ == keyed_all(data, matched@.take(i as int)),
            decreases matched.len() - i,
        {
            let id: AllocationId = matched[i];
            pairs.push((data.get_allocation(id).backtrace as u64, id));
            assert(matched@.take(i + 1) =~= matched@.take(i as int).push(id));
            assert(pairs@ =~= keyed_all(data, matched@.take(i + 1)));
            i += 1;
        }
        assert(matched@.take(matched.len() as int) =~= matched@);
        let ghost unsorted = pairs@;
        sort_pairs(&mut pairs);
        proof {
            lemma_sorted_pairs_members(unsorted);
            assert forall|k: int| 0 <= k < pairs.len() implies (#[trigger] pairs[k]).0
                < data.backtraces.len() && pairs[k].1 < data.allocations.len() by {
                assert(unsorted.contains(pairs[k]));
                let at = choose|at: int| 0 <= at < unsorted.len() && unsorted[at] == pairs[k];
                assert(unsorted[at] == keyed(data, matched[at]));
                assert(data.allocation_wf(data.allocations[matched[at] as int]));
            }
        }

        let mut index: Vec<GroupEntry> = Vec::new();
        let mut storage: Vec<AllocationId> = Vec::new();
        let mut i: usize = 0;
        while i < pairs.len()
            invariant
                0 <= i <= pairs.len(),
                sorted_by(pairs@, pair_order()),
                data.backtraces.len() <= u32::MAX,
                forall|k: int|
                    0 <= k < pairs.len() ==> (#[trigger] pairs[k]).0 < data.backtraces.len() && pairs[k].1
                        < data.allocations.len(),
                storage.len() == i,
                forall|k: int| 0 <= k < i ==> storage[k] == pairs[k].1,
                tiles(index@, pairs@, i as int),
            decreases pairs.len() - i,
        {
            let pair = pairs[i];
            let ghost before = index@;
            let opens = index.len() == 0 || index[index.len() - 1].backtrace as u64 != pair.0;
            if opens {
                let entry = GroupEntry { backtrace: pair.0 as u32, offset: i, len: 1 };
                proof {
                    lemma_tiles_open(before, pairs@, i as int, entry);
                }
                index.push(entry);
            } else {
                let at: usize = index.len() - 1;
                let entry = index[at];
                proof {
                    lemma_tiles_bounded(before, pairs@, i as int, at as int);
                    lemma_tiles_grow(before, pairs@, i as int);
                }
                index.set(at, GroupEntry { backtrace: entry.backtrace, offset: entry.offset, len: entry.len + 1 });
                assert(index@ =~= before.update(
                    at as int,
                    GroupEntry { backtrace: entry.backtrace, offset: entry.offset, len: (entry.len + 1) as usize },
                ));
            }
            storage.push(pair.1);
            i += 1;
        }
        let groups = AllocationGroups { index, storage };
        proof {
            lemma_tiles_flatten(groups.index@, groups.storage@, pairs@, pairs.len() as int);
            assert(pairs@.take(pairs.len() as int) =~= pairs@);
            lemma_total_is_flatten_len(groups@);
            assert forall|g: int| 0 <= g < groups.index.len() implies (#[trigger] groups.index[g]).offset
                + groups.index[g].len <= groups.storage.len() by {
                lemma_tiles_bounded(groups.index@, pairs@, pairs.len() as int, g);
            }
            assert forall|g: int| 0 <= g < groups@.len() implies (#[trigger] groups@[g]).1.len() > 0 by {
                assert(groups.index[g].len > 0);
            }
            assert forall|g: int| 0 <= g < groups.index.len() implies (#[trigger] groups.index[g]).backtrace
                < data.backtraces.len() && groups.index[g].len > 0 by {
                lemma_tiles_bounded(groups.index@, pairs@, pairs.len() as int, g);
                assert(pairs[groups.index[g].offset as int].0 == groups.index[g].backtrace);
            }
            assert forall|g: int, h: int| 0 <= g < h < groups@.len() implies (#[trigger] groups@[g]).0 < (
            #[trigger] groups@[h]).0 by {
                assert(groups.index[g].backtrace < groups.index[h].backtrace);
            }
            assert(is_grouping(unsorted, groups@));
            lemma_grouping_unique(unsorted, unsorted, groups@, grouped(unsorted));
        }
        groups
    }

    /// The backtrace of the group `g`.
    pub fn backtrace_at(&self, g: usize) -> (r: BacktraceId)
        requires
            g < self@.len(),
        ensures
            r == self@[g as int].0,
    {
        self.index[g].backtrace
    }

    /// The ids of the group `g`.
    pub fn ids_at(&self, g: usize) -> (r: &[AllocationId])
        requires
            self.wf(),
            g < self@.len(),
        ensures
            r@ == self@[g as int].1,
    {
        let entry = self.index[g];
        slice_subrange(self.storage.as_slice(), entry.offset, entry.offset + entry.len)
    }

    /// The number of groups.
    pub fn len(&self) -> (r: usize)
        ensures
            r == self@.len(),
    {
        self.index.len()
    }
}

/// The number by which a group is put in its place when the groups are
/// sorted: a statistic of the allocations of the group that matched, or one
/// of all allocations of its backtrace. Moments and spans of time count in
/// microseconds.
pub open spec fn sort_key(data: &Data, group: GroupView, sort_by: AllocGroupsSortBy) -> u64 {
    let matched = Summary::of(data, group.1);
    let all = data.group_statistics[group.0 as int];
    match sort_by {
        AllocGroupsSortBy::MinTimestamp => matched.min_timestamp.usecs,
        AllocGroupsSortBy::MaxTimestamp => matched.max_timestamp.usecs,
        AllocGroupsSortBy::Interval => matched.interval(),
        AllocGroupsSortBy::AllocatedCount => matched.allocated_count,
        AllocGroupsSortBy::LeakedCount => matched.leaked_count,
        AllocGroupsSortBy::Size => matched.size_sum,
        AllocGroupsSortBy::GlobalMinTimestamp => all.first_allocation.usecs,
        AllocGroupsSortBy::GlobalMaxTimestamp => all.last_allocation.usecs,
        AllocGroupsSortBy::GlobalInterval => if all.last_allocation.usecs
            >= all.first_allocation.usecs {
            (all.last_allocation.usecs - all.first_allocation.usecs) as u64
        } else {
            0
        },
        AllocGroupsSortBy::GlobalAllocatedCount => all.alloc_count,
        AllocGroupsSortBy::GlobalLeakedCount => if all.alloc_count >= all.free_count {
            (all.alloc_count - all.free_count) as u64
        } else {
            0
        },
        AllocGroupsSortBy::GlobalSize => all.alloc_size,
        AllocGroupsSortBy::GlobalMaxTotalUsageFirstSeenAt => all.max_total_usage_first_seen_at.usecs,
    }
}

/// The sort key of each group.
pub open spec fn sort_keys(data: &Data, groups: Seq<GroupView>, sort_by: AllocGroupsSortBy) -> Seq<
    u64,
> {
    Seq::new(groups.len(), |g: int| sort_key(data, groups[g], sort_by))
}

/// The groups in the order of their keys, or in the reverse of that order.
pub open spec fn arranged(groups: Seq<GroupView>, keys: Seq<u64>, order: Order) -> Seq<GroupView> {
    let ascending = Seq::new(groups.len(), |k: int| groups[ranking(keys)[k]]);
    match order {
        Order::Asc => ascending,
        Order::Dsc => ascending.reverse(),
    }
}

impl AllocationGroups {
    /// The sort key of the group `g`.
    fn key(&self, data: &Data, g: usize, sort_by: AllocGroupsSortBy) -> (r: u64)
        requires
            data.wf(),
            self.fits(data),
            g < self.index.len(),
        ensures
            r == sort_key(data, self@[g as int], sort_by),
    {
        let entry = self.index[g];
        let all = &data.group_statistics[entry.backtrace as usize];
        assert(data.statistics_wf(*all));
        match sort_by {
            AllocGroupsSortBy::GlobalMinTimestamp => all.first_allocation.usecs,
            AllocGroupsSortBy::GlobalMaxTimestamp => all.last_allocation.usecs,
            AllocGroupsSortBy::GlobalInterval => all.last_allocation.usecs - all.first_allocation.usecs,
            AllocGroupsSortBy::GlobalAllocatedCount => all.alloc_count,
            AllocGroupsSortBy::GlobalLeakedCount => all.alloc_count - all.free_count,
            AllocGroupsSortBy::GlobalSize => all.alloc_size,
            AllocGroupsSortBy::GlobalMaxTotalUsageFirstSeenAt => all.max_total_usage_first_seen_at.usecs,
            _ => {
                let ids = slice_subrange(
                    self.storage.as_slice(),
                    entry.offset,
                    entry.offset + entry.len,
                );
                assert forall|i: int| 0 <= i < ids@.len() implies ids@[i] < data.allocations.len() by {
                    assert(ids@[i] == self.storage[entry.offset + i]);
                }
                let matched = summarize(data, ids);
                match sort_by {
                    AllocGroupsSortBy::MinTimestamp => matched.min_timestamp.usecs,
                    AllocGroupsSortBy::MaxTimestamp => matched.max_timestamp.usecs,
                    AllocGroupsSortBy::Interval => matched.max_timestamp.usecs
                        - matched.min_timestamp.usecs,
                    AllocGroupsSortBy::AllocatedCount => matched.allocated_count,
                    AllocGroupsSortBy::LeakedCount => matched.leaked_count,
                    _ => matched.size_sum,
                }
            },
        }
    }

    /// Puts the groups in the order of a statistic, lowest first or highest
    /// first. Groups with the same statistic keep the order that they had
    /// among themselves where the lowest comes first, and have the reverse
    /// of it where the highest comes first.
    pub fn sort_by(&mut self, data: &Data, sort_by: AllocGroupsSortBy, order: Order)
        requires
            data.wf(),
            old(self).fits(data),
        ensures
            final(self).fits(data),
            final(self)@ == arranged(old(self)@, sort_keys(data, old(self)@, sort_by), order),
    {
        let count: usize = self.index.len();
        let ghost keys = sort_keys(data, self@, sort_by);
        let mut pairs: Vec<(u64, u64)> = Vec::new();
        let mut g: usize = 0;
        while g < count
            invariant
                data.wf(),
                self.fits(data),
                count == self.index.len(),
                0 <= g <= count,
                keys == sort_keys(data, self@, sort_by),
                pairs@ == placed(keys).take(g as int),
            decreases count - g,
        {
            let key: u64 = self.key(data, g, sort_by);
            pairs.push((key, g as u64));
            assert(pairs@ =~= placed(keys).take(g + 1));
            g += 1;
        }
        assert(placed(keys).take(count as int) =~= placed(keys));
        sort_pairs(&mut pairs);
        proof {
            lemma_sorted_pairs_members(placed(keys));
            assert forall|k: int| 0 <= k < count implies (#[trigger] pairs[k]).1 < count by {
                assert(placed(keys).contains(pairs[k]));
            }
        }
        let mut index: Vec<GroupEntry> = Vec::new();
        let mut k: usize = 0;
        while k < count
            invariant
                self.fits(data),
                count == self.index.len(),
                pairs.len() == count,
                0 <= k <= count,
                index.len() == k,
                forall|k: int| 0 <= k < count ==> (#[trigger] pairs[k]).1 < count,
                forall|j: int|
                    0 <= j < k ==> #[trigger] index[j] == self.index[pairs[match order {
                        Order::Asc => j,
                        Order::Dsc => count - 1 - j,
                    }].1 as int],
            decreases count - k,
        {
            let from: usize = match order {
                Order::Asc => k,
                Order::Dsc => count - 1 - k,
            };
            index.push(self.index[pairs[from].1 as usize]);
            k += 1;
        }
        let ghost before = self@;
        let ghost old_index = self.index@;
        self.index = index;
        proof {
            let after = arranged(before, keys, order);
            assert(self@.len() == after.len());
            assert forall|j: int| 0 <= j < count implies self@[j] == after[j] by {
                let from = match order {
                    Order::Asc => j,
                    Order::Dsc => count - 1 - j,
                };
                assert(self.index[j] == old_index[pairs[from].1 as int]);
                assert(ranking(keys)[from] == pairs[from].1);
            }
            assert(self@ =~= after);
        }
    }
}

/// Where no two groups have the same key, sorting them with the lowest key
/// first and then reading them backwards is sorting them with the highest
/// key first: the keys fall strictly from each group to the next, and each
/// group is there once.
pub proof fn lemma_descending_is_reversed(groups: Seq<GroupView>, keys: Seq<u64>)
    requires
        keys.len() == groups.len(),
        keys.len() <= u64::MAX,
        forall|i: int, j: int| 0 <= i < j < keys.len() ==> keys[i] != keys[j],
    ensures
        arranged(groups, keys, Order::Dsc) == arranged(groups, keys, Order::Asc).reverse(),
        arranged(groups, keys, Order::Dsc).len() == groups.len(),
        ranking(keys).reverse().no_duplicates(),
        forall|k: int|
            0 <= k < groups.len() ==> arranged(groups, keys, Order::Dsc)[k] == groups[
            #[trigger] ranking(keys).reverse()[k]],
        forall|i: int, j: int|
            0 <= i < j < keys.len() ==> keys[#[trigger] ranking(keys).reverse()[i]] > keys[
            #[trigger] ranking(keys).reverse()[j]],
{
    lemma_ranking(keys);
    let ranks = ranking(keys);
    let backwards = ranks.reverse();
    assert forall|i: int, j: int| 0 <= i < j < keys.len() implies keys[#[trigger] backwards[i]] > keys[
    #[trigger] backwards[j]] by {
        let low = keys.len() - 1 - j;
        let high = keys.len() - 1 - i;
        assert(backwards[i] == ranks[high] && backwards[j] == ranks[low]);
        assert(keys[ranks[low]] <= keys[ranks[high]]);
        assert(ranks[low] != ranks[high]);
    }
    assert forall|i: int, j: int|
        0 <= i < backwards.len() && 0 <= j < backwards.len() && i != j implies backwards[i]
        != backwards[j] by {
        assert(backwards[i] == ranks[keys.len() - 1 - i] && backwards[j] == ranks[keys.len() - 1 - j]);
    }
}

} // verus!
