//! Sorting pairs of numbers.

use rayon::slice::ParallelSliceMut;
use vstd::prelude::*;
use vstd::relations::{sorted_by, total_ordering};

verus! {

/// Pairs are ordered by their first number, and by the second where the
/// first is the same.
pub open spec fn pair_leq(a: (u64, u64), b: (u64, u64)) -> bool {
    a.0 < b.0 || (a.0 == b.0 && a.1 <= b.1)
}

/// The order of pairs, as a relation.
pub open spec fn pair_order() -> spec_fn((u64, u64), (u64, u64)) -> bool {
    |a: (u64, u64), b: (u64, u64)| pair_leq(a, b)
}

/// The pairs as they stand once they are sorted.
pub open spec fn sorted_pairs(pairs: Seq<(u64, u64)>) -> Seq<(u64, u64)> {
    pairs.sort_by(pair_order())
}

pub proof fn lemma_pair_order_total()
    ensures
        total_ordering(pair_order()),
{
    let leq = pair_order();
    assert forall|x: (u64, u64), y: (u64, u64)| #[trigger] leq(x, y) && #[trigger] leq(y, x) implies x
        == y by {
        assert(x.0 == y.0 && x.1 == y.1);
    }
}

/// Sorts the pairs in place with rayon's `par_sort_unstable`.
///
/// Rayon sorts by the order that the items have by themselves; for pairs of
/// numbers that is the order of their first numbers, then of their second.
/// A sort keeps every item as often as it was there.
#[verifier::external_body]
fn par_sort(pairs: &mut Vec<(u64, u64)>)
    ensures
        sorted_by(final(pairs)@, pair_order()),
        final(pairs)@.to_multiset() == old(pairs)@.to_multiset(),
{
    pairs.par_sort_unstable();
}

/// Sorts the pairs in place.
pub fn sort_pairs(pairs: &mut Vec<(u64, u64)>)
    ensures
        final(pairs)@ == sorted_pairs(old(pairs)@),
        final(pairs)@.len() == old(pairs)@.len(),
{
    par_sort(pairs);
    proof {
        lemma_pair_order_total();
        old(pairs)@.lemma_sort_by_ensures(pair_order());
        vstd::seq_lib::lemma_sorted_unique(pairs@, sorted_pairs(old(pairs)@), pair_order());
        pairs@.to_multiset_ensures();
        old(pairs)@.to_multiset_ensures();
    }
}

/// Sorting neither adds a pair nor drops one.
pub proof fn lemma_sorted_pairs_members(pairs: Seq<(u64, u64)>)
    ensures
        sorted_pairs(pairs).len() == pairs.len(),
        sorted_by(sorted_pairs(pairs), pair_order()),
        sorted_pairs(pairs).to_multiset() == pairs.to_multiset(),
        forall|i: int|
            0 <= i < pairs.len() ==> pairs.contains(#[trigger] sorted_pairs(pairs)[i]),
        forall|i: int|
            0 <= i < pairs.len() ==> sorted_pairs(pairs).contains(#[trigger] pairs[i]),
{
    broadcast use vstd::seq_lib::group_to_multiset_ensures;

    let sorted = sorted_pairs(pairs);
    pairs.lemma_sort_by_ensures(pair_order());
    sorted.to_multiset_ensures();
    pairs.to_multiset_ensures();
    assert(sorted.len() == pairs.len());
    assert forall|i: int| 0 <= i < pairs.len() implies pairs.contains(#[trigger] sorted[i]) by {
        assert(sorted.to_multiset().count(sorted[i]) > 0);
    }
    assert forall|i: int| 0 <= i < pairs.len() implies sorted.contains(#[trigger] pairs[i]) by {
        assert(pairs.to_multiset().count(pairs[i]) > 0);
    }
}

/// Each key with the place at which it stands.
pub open spec fn placed(keys: Seq<u64>) -> Seq<(u64, u64)> {
    Seq::new(keys.len(), |g: int| (keys[g], g as u64))
}

/// The places of `keys` in the order of the keys; of two places with the
/// same key the one that stood first comes first.
pub open spec fn ranking(keys: Seq<u64>) -> Seq<int> {
    Seq::new(keys.len(), |k: int| sorted_pairs(placed(keys))[k].1 as int)
}

/// The places of some keys in the order of the keys: each place is there
/// once, and the keys do not fall from one place of the ranking to the next.
pub proof fn lemma_ranking(keys: Seq<u64>)
    requires
        keys.len() <= u64::MAX,
    ensures
        ranking(keys).len() == keys.len(),
        ranking(keys).no_duplicates(),
        forall|k: int| 0 <= k < keys.len() ==> 0 <= (#[trigger] ranking(keys)[k]) < keys.len(),
        forall|place: int| 0 <= place < keys.len() ==> ranking(keys).contains(place),
        forall|k: int|
            0 <= k < keys.len() ==> sorted_pairs(placed(keys))[k] == (
                keys[#[trigger] ranking(keys)[k]],
                ranking(keys)[k] as u64,
            ),
        forall|i: int, j: int|
            0 <= i < j < keys.len() ==> keys[#[trigger] ranking(keys)[i]] <= keys[
            #[trigger] ranking(keys)[j]],
{
    let placed = placed(keys);
    let sorted = sorted_pairs(placed);
    let ranks = ranking(keys);
    lemma_sorted_pairs_members(placed);
    assert forall|k: int| 0 <= k < keys.len() implies 0 <= (#[trigger] ranks[k]) < keys.len() && sorted[k]
        == (keys[ranks[k]], ranks[k] as u64) by {
        assert(placed.contains(sorted[k]));
    }
    assert forall|place: int| 0 <= place < keys.len() implies ranks.contains(place) by {
        assert(sorted.contains(placed[place]));
        let k = choose|k: int| 0 <= k < sorted.len() && sorted[k] == placed[place];
        assert(ranks[k] == place);
    }
    assert(placed.no_duplicates());
    placed.lemma_multiset_has_no_duplicates();
    sorted.lemma_multiset_has_no_duplicates_conv();
    assert forall|i: int, j: int| 0 <= i < ranks.len() && 0 <= j < ranks.len() && i != j implies ranks[i]
        != ranks[j] by {
        assert(sorted[i] != sorted[j]);
    }
    assert forall|i: int, j: int| 0 <= i < j < keys.len() implies keys[#[trigger] ranks[i]] <= keys[
    #[trigger] ranks[j]] by {
        assert(pair_order()(sorted[i], sorted[j]));
    }
}

} // verus!
