//! The groups of the last few requests, kept for the next request that asks
//! for the same.

use std::sync::Arc;
use lru::LruCache;
use vstd::prelude::*;
use crate::allocations::{matching, matching_ids};
use crate::capture::{Allocation, AllocationId, Data, DataId};
use crate::filter::AllocationFilter;
use crate::groups::{arranged, grouped, keyed_all, sort_keys, AllocationGroups, GroupView};
use crate::protocol::{same_text, AllocFilter, AllocGroupsSortBy, CustomFilter, Order};

verus! {

/// How many requests have their groups kept.
pub const GROUP_CACHE_CAPACITY: usize = 4;

/// What the groups of a request depend on: the capture, what the request
/// says of allocations, its script, and the order that it asks for.
#[derive(Clone, Debug, PartialEq, Eq, Hash)]
pub struct AllocationGroupsKey {
    pub data_id: DataId,
    pub filter: AllocFilter,
    pub custom_filter: CustomFilter,
    pub sort_by: AllocGroupsSortBy,
    pub order: Order,
}

impl AllocationGroupsKey {
    /// The key of a request. The request is noted in its plainest words, so
    /// that requests which ask for the same in other words have the same key;
    /// groups are sorted by the moment of their first allocation, lowest
    /// first, where the request does not say.
    pub fn new(
        data_id: DataId,
        filter: AllocFilter,
        custom_filter: CustomFilter,
        sort_by: Option<AllocGroupsSortBy>,
        order: Option<Order>,
    ) -> (r: AllocationGroupsKey)
        ensures
            r.data_id == data_id,
            r.filter == filter.plain(),
            r.custom_filter == custom_filter,
            r.sort_by == match sort_by {
                Some(sort_by) => sort_by,
                None => AllocGroupsSortBy::MinTimestamp,
            },
            r.order == match order {
                Some(order) => order,
                None => Order::Asc,
            },
    {
        AllocationGroupsKey {
            data_id,
            filter: filter.normalize(),
            custom_filter,
            sort_by: match sort_by {
                Some(sort_by) => sort_by,
                None => AllocGroupsSortBy::MinTimestamp,
            },
            order: match order {
                Some(order) => order,
                None => Order::Asc,
            },
        }
    }

    /// Two keys are the same: field by field they hold the same values, and
    /// the same texts where a field is a text.
    pub open spec fn same(&self, other: &AllocationGroupsKey) -> bool {
        &&& self.data_id == other.data_id
        &&& self.filter.same(&other.filter)
        &&& same_text(self.custom_filter.custom_filter, other.custom_filter.custom_filter)
        &&& self.sort_by == other.sort_by
        &&& self.order == other.order
    }
}

#[verifier::external_type_specification]
#[verifier::external_body]
#[verifier::reject_recursive_types(K)]
#[verifier::reject_recursive_types(V)]
#[verifier::reject_recursive_types(S)]
pub struct ExLruCache<K, V, S>(LruCache<K, V, S>);

#[verifier::external_type_specification]
#[verifier::external_body]
pub struct ExDefaultHasher(lru::DefaultHasher);

/// One entry of the cache: a key, and the groups that are kept under it.
pub type Entry = (AllocationGroupsKey, Arc<AllocationGroups>);

/// What a cache holds, from the entry that was used last to the one that
/// was not used for the longest time.
pub uninterp spec fn entries(cache: LruCache<AllocationGroupsKey, Arc<AllocationGroups>>) -> Seq<Entry>;

/// How many entries a cache was made to hold.
pub uninterp spec fn capacity(cache: LruCache<AllocationGroupsKey, Arc<AllocationGroups>>) -> nat;

/// The place of the first entry that is kept under `key`, or the number of
/// entries where there is none.
pub open spec fn place_of(kept: Seq<Entry>, key: &AllocationGroupsKey) -> int
    decreases kept.len(),
{
    if kept.len() == 0 {
        0
    } else if kept[0].0.same(key) {
        0
    } else {
        1 + place_of(kept.drop_first(), key)
    }
}

/// The groups that are kept under `key`, if there are any.
pub open spec fn kept_under(kept: Seq<Entry>, key: &AllocationGroupsKey) -> Option<Arc<AllocationGroups>> {
    if place_of(kept, key) < kept.len() {
        Some(kept[place_of(kept, key)].1)
    } else {
        None
    }
}

/// The entries once `key` was asked for: the entry of `key`, if there is
/// one, has moved to the front.
pub open spec fn after_get(kept: Seq<Entry>, key: &AllocationGroupsKey) -> Seq<Entry> {
    let place = place_of(kept, key);
    if place < kept.len() {
        seq![kept[place]] + kept.remove(place)
    } else {
        kept
    }
}

/// The entries once `groups` were put under `key`, in a cache made for
/// `capacity` entries. The key's entry stands at the front. Where the key
/// had an entry it has the new groups now; where it had none and the cache
/// was full, the entry that was not used for the longest time has left.
pub open spec fn after_put(
    kept: Seq<Entry>,
    capacity: nat,
    key: AllocationGroupsKey,
    groups: Arc<AllocationGroups>,
) -> Seq<Entry> {
    let place = place_of(kept, &key);
    if place < kept.len() {
        seq![(kept[place].0, groups)] + kept.remove(place)
    } else if capacity == 0 {
        kept
    } else if kept.len() >= capacity {
        seq![(key, groups)] + kept.drop_last()
    } else {
        seq![(key, groups)] + kept
    }
}

/// An empty cache, made with `LruCache::new` to hold `limit` entries.
#[verifier::external_body]
fn with_capacity(limit: usize) -> (r: LruCache<AllocationGroupsKey, Arc<AllocationGroups>>)
    ensures
        entries(r) == Seq::<Entry>::empty(),
        capacity(r) == limit,
{
    LruCache::new(limit)
}

/// Asks for the groups of a key with `LruCache::get`.
///
/// The cache finds an entry by a key that is equal to its own, which for
/// these keys is to hold the same values and texts. An entry that is found
/// becomes the one that was used last; nothing else changes.
#[verifier::external_body]
fn get(cache: &mut LruCache<AllocationGroupsKey, Arc<AllocationGroups>>, key: &AllocationGroupsKey) -> (r:
    Option<Arc<AllocationGroups>>)
    ensures
        r == kept_under(entries(*old(cache)), key),
        entries(*final(cache)) == after_get(entries(*old(cache)), key),
        capacity(*final(cache)) == capacity(*old(cache)),
{
    cache.get(key).cloned()
}

/// Keeps groups under a key with `LruCache::put`.
///
/// Where the key has an entry, the entry takes the new groups and becomes
/// the one that was used last. Where it has none, a cache for no entries
/// stays empty, and any other gets a new entry at the front, for which a
/// full cache first drops the entry that was not used for the longest time.
#[verifier::external_body]
fn put(
    cache: &mut LruCache<AllocationGroupsKey, Arc<AllocationGroups>>,
    key: AllocationGroupsKey,
    groups: Arc<AllocationGroups>,
)
    ensures
        entries(*final(cache)) == after_put(entries(*old(cache)), capacity(*old(cache)), key, groups),
        capacity(*final(cache)) == capacity(*old(cache)),
{
    cache.put(key, groups);
}

/// The groups of the last few requests.
pub struct GroupCache {
    cache: LruCache<AllocationGroupsKey, Arc<AllocationGroups>>,
}

impl View for GroupCache {
    type V = Seq<Entry>;

    closed spec fn view(&self) -> Seq<Entry> {
        entries(self.cache)
    }
}

/// The groups that answer a request: the allocations of the capture that
/// the filter accepts, grouped by backtrace, in the order asked for.
pub open spec fn groups_for<F: Fn(DataId, AllocationId, &Allocation) -> bool>(
    data: &Data,
    filter: &AllocationFilter<F>,
    sort_by: AllocGroupsSortBy,
    order: Order,
) -> Seq<GroupView> {
    let groups = grouped(keyed_all(data, matching(data, filter, data.sorted_by_timestamp@)));
    arranged(groups, sort_keys(data, groups, sort_by), order)
}

/// Builds the groups that answer a request.
pub fn build_groups<F: Fn(DataId, AllocationId, &Allocation) -> bool>(
    data: &Data,
    filter: &AllocationFilter<F>,
    sort_by: AllocGroupsSortBy,
    order: Order,
) -> (r: AllocationGroups)
    requires
        data.wf(),
        filter.wf(),
    ensures
        r.fits(data),
        r@ == groups_for(data, filter, sort_by, order),
{
    let matched = matching_ids(data, filter, &data.sorted_by_timestamp);
    let mut groups = AllocationGroups::new(data, &matched);
    groups.sort_by(data, sort_by, order);
    groups
}

impl GroupCache {
    /// How many entries the cache was made to hold.
    pub closed spec fn limit(&self) -> nat {
        capacity(self.cache)
    }

    pub fn new() -> (r: GroupCache)
        ensures
            r@ == Seq::<Entry>::empty(),
            r.limit() == GROUP_CACHE_CAPACITY,
    {
        GroupCache { cache: with_capacity(GROUP_CACHE_CAPACITY) }
    }

    /// The groups that are kept under `key`, if there are any. They count
    /// as used by this.
    pub fn lookup(&mut self, key: &AllocationGroupsKey) -> (r: Option<Arc<AllocationGroups>>)
        ensures
            r == kept_under(old(self)@, key),
            final(self)@ == after_get(old(self)@, key),
            final(self).limit() == old(self).limit(),
    {
        get(&mut self.cache, key)
    }

    /// Keeps `groups` under `key`.
    pub fn store(&mut self, key: AllocationGroupsKey, groups: Arc<AllocationGroups>)
        ensures
            final(self)@ == after_put(old(self)@, old(self).limit(), key, groups),
            final(self).limit() == old(self).limit(),
    {
        put(&mut self.cache, key, groups)
    }

    /// The groups that answer a request: those that are kept under the key
    /// of the request, or else groups that are built now and kept for the
    /// next request with this key. The filter is applied only where nothing
    /// is kept under the key.
    pub fn get_or_build<F: Fn(DataId, AllocationId, &Allocation) -> bool>(
        &mut self,
        key: AllocationGroupsKey,
        data: &Data,
        filter: &AllocationFilter<F>,
    ) -> (r: Arc<AllocationGroups>)
        requires
            data.wf(),
            filter.wf(),
        ensures
            final(self).limit() == old(self).limit(),
            match kept_under(old(self)@, &key) {
                Some(kept) => r == kept && final(self)@ == after_get(old(self)@, &key),
                None => (*r)@ == groups_for(data, filter, key.sort_by, key.order) && final(self)@
                    == after_put(old(self)@, old(self).limit(), key, r),
            },
    {
        match self.lookup(&key) {
            Some(kept) => kept,
            None => {
                let groups = Arc::new(build_groups(data, filter, key.sort_by, key.order));
                self.store(key, groups.clone());
                groups
            },
        }
    }
}

/// The place of a key is the place of its first entry.
pub proof fn lemma_place_of(kept: Seq<Entry>, key: &AllocationGroupsKey)
    ensures
        0 <= place_of(kept, key) <= kept.len(),
        place_of(kept, key) < kept.len() ==> kept[place_of(kept, key)].0.same(key),
        forall|i: int| 0 <= i < place_of(kept, key) ==> !(#[trigger] kept[i]).0.same(key),
    decreases kept.len(),
{
    if kept.len() > 0 && !kept[0].0.same(key) {
        let rest = kept.drop_first();
        lemma_place_of(rest, key);
        assert forall|i: int| 0 <= i < place_of(kept, key) implies !(#[trigger] kept[i]).0.same(key) by {
            if i > 0 {
                assert(kept[i] == rest[i - 1]);
            }
        }
    }
}

/// Every entry whose key is the same as `key` holds the groups `expected`.
pub open spec fn truthful(kept: Seq<Entry>, key: &AllocationGroupsKey, expected: Seq<GroupView>) -> bool {
    forall|i: int| 0 <= i < kept.len() && (#[trigger] kept[i]).0.same(key) ==> (*kept[i].1)@ == expected
}

/// The answer to a request: the groups that are kept under its key, or
/// else the groups that were built for it.
pub open spec fn answer(kept: Seq<Entry>, key: &AllocationGroupsKey, built: Arc<AllocationGroups>) -> Arc<
    AllocationGroups,
> {
    match kept_under(kept, key) {
        Some(groups) => groups,
        None => built,
    }
}

/// Two requests with the same key get the same groups, whether the groups
/// come from the cache or are built anew.
///
/// As long as a cache keeps under a key only what is built for that key,
/// the answer to a request is what is built for it, the cache goes on to
/// keep under the key only what is built for it, and what it keeps under
/// any other key is what it kept before.
pub proof fn lemma_cache_purity(
    kept: Seq<Entry>,
    limit: nat,
    key: AllocationGroupsKey,
    built: Arc<AllocationGroups>,
    other: AllocationGroupsKey,
    expected: Seq<GroupView>,
)
    requires
        truthful(kept, &key, (*built)@),
        truthful(kept, &other, expected),
        !other.same(&key),
    ensures
        (*answer(kept, &key, built))@ == (*built)@,
        truthful(after_get(kept, &key), &key, (*built)@),
        truthful(after_put(kept, limit, key, built), &key, (*built)@),
        truthful(after_get(kept, &key), &other, expected),
        truthful(after_put(kept, limit, key, built), &other, expected),
        kept_under(after_put(kept, limit, key, built), &key) matches Some(groups) ==> (*groups)@
            == (*built)@,
{
    lemma_place_of(kept, &key);
    let place = place_of(kept, &key);
    let got = after_get(kept, &key);
    let stored = after_put(kept, limit, key, built);
    assert forall|i: int| 0 <= i < got.len() implies exists|j: int|
        0 <= j < kept.len() && kept[j] == #[trigger] got[i] by {
        if place < kept.len() {
            if i == 0 {
                assert(kept[place] == got[i]);
            } else if i <= place {
                assert(kept[i - 1] == got[i]);
            } else {
                assert(kept[i] == got[i]);
            }
        } else {
            assert(kept[i] == got[i]);
        }
    }
    assert forall|i: int| 0 <= i < stored.len() implies (stored[i].0.same(&key) && stored[i].1 == built)
        || exists|j: int| 0 <= j < kept.len() && kept[j] == #[trigger] stored[i] by {
        if place < kept.len() {
            if i == 0 {
            } else if i <= place {
                assert(kept[i - 1] == stored[i]);
            } else {
                assert(kept[i] == stored[i]);
            }
        } else if limit == 0 {
            assert(kept[i] == stored[i]);
        } else {
            if i > 0 {
                assert(kept[i - 1] == stored[i]);
            }
        }
    }
    assert forall|i: int| 0 <= i < got.len() && (#[trigger] got[i]).0.same(&key) implies (*got[i].1)@
        == (*built)@ by {
        let j = choose|j: int| 0 <= j < kept.len() && kept[j] == got[i];
        assert(kept[j].0.same(&key));
    }
    assert forall|i: int| 0 <= i < got.len() && (#[trigger] got[i]).0.same(&other) implies (*got[i].1)@
        == expected by {
        let j = choose|j: int| 0 <= j < kept.len() && kept[j] == got[i];
        assert(kept[j].0.same(&other));
    }
    assert forall|i: int| 0 <= i < stored.len() && (#[trigger] stored[i]).0.same(&key) implies (
    *stored[i].1)@ == (*built)@ by {
        if !(stored[i].0.same(&key) && stored[i].1 == built) {
            let j = choose|j: int| 0 <= j < kept.len() && kept[j] == stored[i];
            assert(kept[j].0.same(&key));
        }
    }
    assert forall|i: int| 0 <= i < stored.len() && (#[trigger] stored[i]).0.same(&other) implies (
    *stored[i].1)@ == expected by {
        if stored[i].0.same(&key) && stored[i].1 == built {
            assert(other.same(&key));
        } else {
            let j = choose|j: int| 0 <= j < kept.len() && kept[j] == stored[i];
            assert(kept[j].0.same(&other));
        }
    }
    lemma_place_of(stored, &key);
}

} // verus!
