//! Files that scripts have produced, kept by the hash of their content
//! until newer ones need the room.

use std::sync::Arc;
use ahash::AHashMap;
use vstd::prelude::*;
use vstd::set::fold::{is_fun_commutative, lemma_fold_empty, lemma_fold_insert};
use crate::sorting::{lemma_ranking, lemma_sorted_pairs_members, placed, ranking, sort_pairs, sorted_pairs};
use crate::text::{hex_of, to_hex};
use crate::timestamp::Timestamp;

verus! {

/// Above this many bytes the oldest files leave.
pub const HIGH_WATER_MARK: usize = 32 * 1024 * 1024;

/// Files leave until no more than this many bytes are kept.
pub const LOW_WATER_MARK: usize = 16 * 1024 * 1024;

/// A file that a script has produced.
#[derive(Clone, Debug)]
pub struct GeneratedFile {
    /// When the file was produced.
    pub timestamp: Timestamp,
    /// The hash of the content, in hexadecimal.
    pub hash: String,
    pub mime: String,
    pub data: Arc<Vec<u8>>,
}

/// The MD5 digest of some bytes.
pub uninterp spec fn md5_of(data: Seq<u8>) -> Seq<u8>;

/// Computes the MD5 digest of some bytes with `md5::compute`: sixteen
/// bytes, which depend on the bytes that were digested and on nothing else.
#[verifier::external_body]
fn digest(data: &[u8]) -> (r: [u8; 16])
    ensures
        r@ == md5_of(data@),
{
    md5::compute(data).0
}

/// The hash under which content is kept: its MD5 digest in hexadecimal.
pub open spec fn hash_of(data: Seq<u8>) -> Seq<char> {
    hex_of(md5_of(data))
}

/// The hash under which content is kept.
pub fn content_hash(data: &[u8]) -> (r: String)
    ensures
        r@ == hash_of(data@),
{
    let digest = digest(data);
    to_hex(digest.as_slice())
}

/// The files that a map holds, by hash.
pub uninterp spec fn files(map: AHashMap<String, GeneratedFile>) -> Map<Seq<char>, GeneratedFile>;

/// An empty map, made with `AHashMap::new`.
#[verifier::external_body]
fn empty() -> (r: AHashMap<String, GeneratedFile>)
    ensures
        files(r).dom() == Set::<Seq<char>>::empty(),
{
    AHashMap::new()
}

/// Asks `AHashMap::contains_key` whether a file is kept under a hash.
#[verifier::external_body]
fn holds(map: &AHashMap<String, GeneratedFile>, hash: &str) -> (r: bool)
    ensures
        r == files(*map).contains_key(hash@),
{
    map.contains_key(hash)
}

/// The file that is kept under a hash, looked up with `AHashMap::get`.
#[verifier::external_body]
fn find<'a>(map: &'a AHashMap<String, GeneratedFile>, hash: &str) -> (r: Option<&'a GeneratedFile>)
    ensures
        match r {
            Some(file) => files(*map).contains_key(hash@) && files(*map)[hash@] == *file,
            None => !files(*map).contains_key(hash@),
        },
{
    map.get(hash)
}

/// Keeps a file under a hash with `AHashMap::insert`: it takes the place
/// of the file that was kept under the hash, if one was, and no other file
/// is touched.
#[verifier::external_body]
fn keep(map: &mut AHashMap<String, GeneratedFile>, hash: String, file: GeneratedFile)
    ensures
        files(*final(map)) == files(*old(map)).insert(hash@, file),
{
    map.insert(hash, file);
}

/// Drops the file that is kept under a hash with `AHashMap::remove`; no
/// other file is touched.
#[verifier::external_body]
fn discard(map: &mut AHashMap<String, GeneratedFile>, hash: &str)
    ensures
        files(*final(map)) == files(*old(map)).remove(hash@),
{
    map.remove(hash);
}

/// The hashes under which files are kept, as `AHashMap::keys` hands them
/// out: each once, in an order that is the map's own matter.
#[verifier::external_body]
fn hashes(map: &AHashMap<String, GeneratedFile>) -> (r: Vec<String>)
    ensures
        forall|i: int| 0 <= i < r.len() ==> files(*map).contains_key(#[trigger] r[i]@),
        forall|i: int, j: int| 0 <= i < j < r.len() ==> r[i]@ != r[j]@,
        forall|hash: Seq<char>|
            files(*map).contains_key(hash) ==> exists|i: int| 0 <= i < r.len() && #[trigger] r[i]@ == hash,
{
    map.keys().cloned().collect()
}

/// Adds the size of a file to a sum.
pub open spec fn weigh() -> spec_fn(nat, GeneratedFile) -> nat {
    |sum: nat, file: GeneratedFile| sum + file.data@.len()
}

/// How many bytes some files hold in all.
pub open spec fn bytes(kept: Map<Seq<char>, GeneratedFile>) -> nat {
    kept.values().fold(0nat, weigh())
}

/// Each file is kept under its own hash, and there are finitely many.
pub open spec fn keyed(kept: Map<Seq<char>, GeneratedFile>) -> bool {
    &&& kept.dom().finite()
    &&& forall|hash: Seq<char>| kept.contains_key(hash) ==> (#[trigger] kept[hash]).hash@ == hash
}

proof fn lemma_weigh_commutes()
    ensures
        is_fun_commutative(weigh()),
{
    let f = weigh();
    assert forall|a1: GeneratedFile, a2: GeneratedFile, b: nat| #[trigger]
        f(f(b, a2), a1) == f(f(b, a1), a2) by {}
}

/// A file that is new to the files kept adds its size to their bytes.
pub proof fn lemma_bytes_insert(kept: Map<Seq<char>, GeneratedFile>, file: GeneratedFile)
    requires
        keyed(kept),
        !kept.contains_key(file.hash@),
    ensures
        keyed(kept.insert(file.hash@, file)),
        bytes(kept.insert(file.hash@, file)) == bytes(kept) + file.data@.len(),
{
    let after = kept.insert(file.hash@, file);
    vstd::map_lib::lemma_values_finite(kept);
    lemma_weigh_commutes();
    assert(!kept.values().contains(file)) by {
        if kept.values().contains(file) {
            let hash = choose|hash: Seq<char>| kept.contains_key(hash) && kept[hash] == file;
            assert(kept[hash].hash@ == hash);
        }
    }
    assert(after.values() =~= kept.values().insert(file)) by {
        assert forall|other: GeneratedFile| after.values().contains(other) <==> kept.values().insert(
            file,
        ).contains(other) by {
            if after.values().contains(other) {
                let hash = choose|hash: Seq<char>| after.contains_key(hash) && after[hash] == other;
                if hash != file.hash@ {
                    assert(kept.contains_key(hash) && kept[hash] == other);
                }
            }
            if kept.values().contains(other) {
                let hash = choose|hash: Seq<char>| kept.contains_key(hash) && kept[hash] == other;
                assert(after.contains_key(hash) && after[hash] == other);
            }
            if other == file {
                assert(after.contains_key(file.hash@) && after[file.hash@] == other);
            }
        }
    }
    lemma_fold_insert(kept.values(), 0nat, weigh(), file);
}

/// A file that leaves takes its size off the bytes of the files kept.
pub proof fn lemma_bytes_remove(kept: Map<Seq<char>, GeneratedFile>, hash: Seq<char>)
    requires
        keyed(kept),
        kept.contains_key(hash),
    ensures
        keyed(kept.remove(hash)),
        bytes(kept) == bytes(kept.remove(hash)) + kept[hash].data@.len(),
{
    let after = kept.remove(hash);
    let file = kept[hash];
    assert(file.hash@ == hash);
    assert(after.insert(file.hash@, file) =~= kept);
    lemma_bytes_insert(after, file);
}

/// Where no file is kept, no byte is kept.
pub proof fn lemma_bytes_empty(kept: Map<Seq<char>, GeneratedFile>)
    requires
        kept.dom() =~= Set::<Seq<char>>::empty(),
    ensures
        bytes(kept) == 0,
        keyed(kept),
{
    assert(kept.values() =~= Set::<GeneratedFile>::empty()) by {
        assert forall|file: GeneratedFile| !kept.values().contains(file) by {
            if kept.values().contains(file) {
                let hash = choose|hash: Seq<char>| kept.contains_key(hash) && kept[hash] == file;
                assert(kept.dom().contains(hash));
            }
        }
    }
    lemma_fold_empty(0nat, weigh());
}

/// The files that scripts have produced, by the hash of their content.
pub struct GeneratedFilesCollection {
    by_hash: AHashMap<String, GeneratedFile>,
    total_size: usize,
}

impl View for GeneratedFilesCollection {
    type V = Map<Seq<char>, GeneratedFile>;

    closed spec fn view(&self) -> Map<Seq<char>, GeneratedFile> {
        files(self.by_hash)
    }
}

/// Every file of `now` is a file of `before`, under the same hash.
pub open spec fn part_of(now: Map<Seq<char>, GeneratedFile>, before: Map<Seq<char>, GeneratedFile>) -> bool {
    forall|hash: Seq<char>| #[trigger]
        now.contains_key(hash) ==> before.contains_key(hash) && before[hash] == now[hash]
}

/// What a purge does to the files kept: files leave, none comes or
/// changes; no file that left is newer than one that stayed; no more than
/// the low-water mark is left; and the file that left last had to leave,
/// for with it more than the low-water mark was kept.
pub open spec fn purged(before: Map<Seq<char>, GeneratedFile>, after: Map<Seq<char>, GeneratedFile>) -> bool {
    &&& part_of(after, before)
    &&& forall|gone: Seq<char>, stayed: Seq<char>|
        before.contains_key(gone) && !after.contains_key(gone) && #[trigger] after.contains_key(stayed)
            ==> (#[trigger] before[gone]).timestamp.usecs <= after[stayed].timestamp.usecs
    &&& bytes(after) <= LOW_WATER_MARK
    &&& after != before ==> exists|last: Seq<char>|
        before.contains_key(last) && !after.contains_key(last) && bytes(after) + (
        #[trigger] before[last]).data@.len() > LOW_WATER_MARK
}

impl GeneratedFilesCollection {
    /// How many bytes the files hold in all.
    pub closed spec fn total_bytes(&self) -> nat {
        self.total_size as nat
    }

    /// Each file is kept under its own hash, and the bytes are counted
    /// right.
    pub open spec fn wf(&self) -> bool {
        &&& keyed(self@)
        &&& self.total_bytes() == bytes(self@)
    }

    pub fn new() -> (r: Self)
        ensures
            r.wf(),
            r@.dom() == Set::<Seq<char>>::empty(),
            r.total_bytes() == 0,
    {
        let by_hash = empty();
        proof {
            lemma_bytes_empty(files(by_hash));
        }
        GeneratedFilesCollection { by_hash, total_size: 0 }
    }

    /// How many bytes the files hold in all.
    pub fn total_size(&self) -> (r: usize)
        ensures
            r == self.total_bytes(),
    {
        self.total_size
    }

    /// The file that is kept under `hash`, if there is one.
    pub fn get(&self, hash: &str) -> (r: Option<&GeneratedFile>)
        ensures
            match r {
                Some(file) => self@.contains_key(hash@) && self@[hash@] == *file,
                None => !self@.contains_key(hash@),
            },
    {
        find(&self.by_hash, hash)
    }

    /// Keeps a file, unless one is kept under its hash already: the same
    /// content has the same hash, and is kept once.
    pub fn add_file(&mut self, entry: GeneratedFile)
        requires
            old(self).wf(),
            !old(self)@.contains_key(entry.hash@) ==> old(self).total_bytes() + entry.data@.len()
                <= usize::MAX,
        ensures
            final(self).wf(),
            final(self)@ == added(old(self)@, entry),
            old(self)@.contains_key(entry.hash@) ==> final(self).total_bytes() == old(self).total_bytes(),
            !old(self)@.contains_key(entry.hash@) ==> final(self).total_bytes() == old(self).total_bytes()
                + entry.data@.len(),
    {
        if !holds(&self.by_hash, entry.hash.as_str()) {
            proof {
                lemma_bytes_insert(self@, entry);
            }
            self.total_size += entry.data.len();
            keep(&mut self.by_hash, entry.hash.clone(), entry);
        }
    }
}

/// The files kept once a file was added: it is there, unless a file was
/// kept under its hash already.
pub open spec fn added(kept: Map<Seq<char>, GeneratedFile>, entry: GeneratedFile) -> Map<
    Seq<char>,
    GeneratedFile,
> {
    if kept.contains_key(entry.hash@) {
        kept
    } else {
        kept.insert(entry.hash@, entry)
    }
}

/// The files kept once some files were added, one after the other.
pub open spec fn added_all(kept: Map<Seq<char>, GeneratedFile>, entries: Seq<GeneratedFile>) -> Map<
    Seq<char>,
    GeneratedFile,
>
    decreases entries.len(),
{
    if entries.len() == 0 {
        kept
    } else {
        added(added_all(kept, entries.drop_last()), entries.last())
    }
}

/// What making room does to the files kept: nothing where they hold fewer
/// bytes than the high-water mark, and else what a purge does.
pub open spec fn made_room(before: Map<Seq<char>, GeneratedFile>, after: Map<Seq<char>, GeneratedFile>) -> bool {
    if bytes(before) < HIGH_WATER_MARK {
        after == before
    } else {
        purged(before, after)
    }
}

/// `after` are the files kept once room was made among `before` and
/// `entry` was added.
pub open spec fn registered(
    before: Map<Seq<char>, GeneratedFile>,
    entry: GeneratedFile,
    after: Map<Seq<char>, GeneratedFile>,
) -> bool {
    exists|left: Map<Seq<char>, GeneratedFile>| #[trigger]
        made_room(before, left) && after == added(left, entry)
}

/// `after` are the files kept once each of `entries` was registered, one
/// after the other.
pub open spec fn registered_each(
    before: Map<Seq<char>, GeneratedFile>,
    entries: Seq<GeneratedFile>,
    after: Map<Seq<char>, GeneratedFile>,
) -> bool
    decreases entries.len(),
{
    if entries.len() == 0 {
        after == before
    } else {
        exists|so_far: Map<Seq<char>, GeneratedFile>|
            registered_each(before, entries.drop_last(), so_far) && #[trigger] registered(
                so_far,
                entries.last(),
                after,
            )
    }
}

/// The hashes `names` are those of the files `kept`, each once.
spec fn lists(names: Seq<Seq<char>>, kept: Map<Seq<char>, GeneratedFile>) -> bool {
    &&& forall|i: int| 0 <= i < names.len() ==> kept.contains_key(#[trigger] names[i])
    &&& forall|i: int, j: int| 0 <= i < j < names.len() ==> names[i] != names[j]
    &&& forall|hash: Seq<char>|
        kept.contains_key(hash) ==> exists|i: int| 0 <= i < names.len() && #[trigger] names[i] == hash
}

/// The age of each file of a list.
spec fn ages_of(names: Seq<Seq<char>>, kept: Map<Seq<char>, GeneratedFile>) -> Seq<u64> {
    Seq::new(names.len(), |i: int| kept[names[i]].timestamp.usecs)
}

/// How far a purge has come: of the files in the order of their ages, the
/// first `gone` have left and all others are still there.
spec fn purging(
    before: Map<Seq<char>, GeneratedFile>,
    now: Map<Seq<char>, GeneratedFile>,
    names: Seq<Seq<char>>,
    gone: int,
) -> bool {
    let ranks = ranking(ages_of(names, before));
    &&& 0 <= gone <= names.len()
    &&& part_of(now, before)
    &&& forall|j: int| 0 <= j < gone ==> !now.contains_key(names[#[trigger] ranks[j]])
    &&& forall|j: int| gone <= j < names.len() ==> now.contains_key(names[#[trigger] ranks[j]])
    &&& gone > 0 ==> bytes(now) + before[names[ranks[gone - 1]]].data@.len() > LOW_WATER_MARK
}

/// A purge that has stopped because little enough is left, or because
/// nothing is left, has done what a purge is to do.
proof fn lemma_purged(
    before: Map<Seq<char>, GeneratedFile>,
    now: Map<Seq<char>, GeneratedFile>,
    names: Seq<Seq<char>>,
    gone: int,
)
    requires
        keyed(before),
        keyed(now),
        lists(names, before),
        names.len() <= u64::MAX,
        purging(before, now, names, gone),
        bytes(now) <= LOW_WATER_MARK || gone == names.len(),
    ensures
        purged(before, now),
{
    let ages = ages_of(names, before);
    let ranks = ranking(ages);
    lemma_ranking(ages);
    // Where each file stands among the files in the order of their ages.
    assert forall|hash: Seq<char>| before.contains_key(hash) implies exists|j: int|
        0 <= j < names.len() && names[#[trigger] ranks[j]] == hash by {
        let i = choose|i: int| 0 <= i < names.len() && #[trigger] names[i] == hash;
        assert(ranks.contains(i));
        let j = choose|j: int| 0 <= j < ranks.len() && ranks[j] == i;
        assert(names[ranks[j]] == hash);
    }
    assert forall|left: Seq<char>, stayed: Seq<char>|
        before.contains_key(left) && !now.contains_key(left) && #[trigger] now.contains_key(
            stayed,
        ) implies (#[trigger] before[left]).timestamp.usecs <= now[stayed].timestamp.usecs by {
        assert(before.contains_key(stayed) && before[stayed] == now[stayed]);
        let j = choose|j: int| 0 <= j < names.len() && names[#[trigger] ranks[j]] == left;
        let h = choose|h: int| 0 <= h < names.len() && names[#[trigger] ranks[h]] == stayed;
        assert(j < gone);
        assert(h >= gone);
        assert(ages[ranks[j]] <= ages[ranks[h]]);
    }
    if gone == names.len() {
        assert(now.dom() =~= Set::<Seq<char>>::empty()) by {
            assert forall|hash: Seq<char>| !now.contains_key(hash) by {
                if now.contains_key(hash) {
                    assert(before.contains_key(hash));
                    let j = choose|j: int| 0 <= j < names.len() && names[#[trigger] ranks[j]] == hash;
                }
            }
        }
        lemma_bytes_empty(now);
    }
    if now != before {
        if gone == 0 {
            assert(now =~= before) by {
                assert forall|hash: Seq<char>| before.contains_key(hash) implies now.contains_key(hash) by {
                    let j = choose|j: int| 0 <= j < names.len() && names[#[trigger] ranks[j]] == hash;
                }
            }
        }
        let last = names[ranks[gone - 1]];
        assert(before.contains_key(last) && !now.contains_key(last));
    }
}

/// The texts of some strings.
spec fn texts(names: Seq<String>) -> Seq<Seq<char>> {
    Seq::new(names.len(), |i: int| names[i]@)
}

impl GeneratedFilesCollection {
    /// Makes room where the files hold as many bytes as the high-water
    /// mark or more: the oldest files leave, one after the other, until no
    /// more than the low-water mark is kept. Which of two files of the same
    /// age leaves first is not settled.
    pub fn purge_old_if_too_big(&mut self)
        requires
            old(self).wf(),
        ensures
            final(self).wf(),
            old(self).total_bytes() < HIGH_WATER_MARK ==> final(self)@ == old(self)@,
            old(self).total_bytes() >= HIGH_WATER_MARK ==> purged(old(self)@, final(self)@),
            made_room(old(self)@, final(self)@),
    {
        if self.total_size < HIGH_WATER_MARK {
            return ;
        }
        let names = hashes(&self.by_hash);
        let ghost before = self@;
        let ghost listed = texts(names@);
        let ghost ages = ages_of(listed, before);
        assert(lists(listed, before)) by {
            assert forall|hash: Seq<char>| before.contains_key(hash) implies exists|i: int|
                0 <= i < listed.len() && #[trigger] listed[i] == hash by {
                let i = choose|i: int| 0 <= i < names.len() && #[trigger] names[i]@ == hash;
                assert(listed[i] == hash);
            }
        }

        let mut pairs: Vec<(u64, u64)> = Vec::new();
        let mut i: usize = 0;
        while i < names.len()
            invariant
                0 <= i <= names.len(),
                self@ == before,
                listed == texts(names@),
                ages == ages_of(listed, before),
                lists(listed, before),
                pairs@ == placed(ages).take(i as int),
            decreases names.len() - i,
        {
            let age: u64 = match find(&self.by_hash, names[i].as_str()) {
                Some(file) => file.timestamp.usecs,
                None => {
                    assert(before.contains_key(listed[i as int]));
                    0
                },
            };
            assert(listed[i as int] == names[i as int]@);
            pairs.push((age, i as u64));
            assert(pairs@ =~= placed(ages).take(i + 1));
            i += 1;
        }
        assert(placed(ages).take(names.len() as int) =~= placed(ages));
        sort_pairs(&mut pairs);
        proof {
            lemma_ranking(ages);
            lemma_sorted_pairs_members(placed(ages));
            assert(part_of(before, before));
        }

        let mut gone: usize = 0;
        while gone < pairs.len() && self.total_size > LOW_WATER_MARK
            invariant
                pairs@ == sorted_pairs(placed(ages)),
                pairs.len() == names.len(),
                listed == texts(names@),
                ages == ages_of(listed, before),
                lists(listed, before),
                keyed(before),
                self.wf(),
                purging(before, self@, listed, gone as int),
            decreases pairs.len() - gone,
        {
            let ghost ranks = ranking(ages);
            let ghost now = self@;
            proof {
                lemma_ranking(ages);
            }
            let at: usize = pairs[gone].1 as usize;
            assert(at == ranks[gone as int]);
            assert(listed[at as int] == names[at as int]@);
            let name = names[at].as_str();
            let size: usize = match find(&self.by_hash, name) {
                Some(file) => file.data.len(),
                None => 0,
            };
            proof {
                assert(now.contains_key(name@));
                assert(before.contains_key(name@) && before[name@] == now[name@]);
                lemma_bytes_remove(now, name@);
            }
            self.total_size -= size;
            discard(&mut self.by_hash, name);
            proof {
                let after = self@;
                assert(part_of(after, before));
                assert forall|j: int| 0 <= j < gone + 1 implies !after.contains_key(
                    listed[#[trigger] ranks[j]],
                ) by {}
                assert forall|j: int| gone + 1 <= j < listed.len() implies after.contains_key(
                    listed[#[trigger] ranks[j]],
                ) by {
                    assert(now.contains_key(listed[ranks[j]]));
                    assert(ranks[j] != ranks[gone as int]);
                    if ranks[j] < ranks[gone as int] {
                        assert(listed[ranks[j]] != listed[ranks[gone as int]]);
                    } else {
                        assert(listed[ranks[gone as int]] != listed[ranks[j]]);
                    }
                }
            }
            gone += 1;
        }
        proof {
            lemma_purged(before, self@, listed, gone as int);
        }
    }
}

impl GeneratedFilesCollection {
    /// Makes room where room is needed, and then keeps a file.
    ///
    /// The bytes kept afterwards are those that the purge left and those of
    /// the file, if it is new. So a file of no more than the low-water mark
    /// never takes the bytes above the high-water mark when it comes after a
    /// purge, and when none was needed it does not where it fits below the
    /// mark.
    pub fn register(&mut self, entry: GeneratedFile)
        requires
            old(self).wf(),
            entry.data@.len() + HIGH_WATER_MARK <= usize::MAX,
        ensures
            final(self).wf(),
            final(self)@.contains_key(entry.hash@),
            registered(old(self)@, entry, final(self)@),
            old(self).total_bytes() >= HIGH_WATER_MARK ==> final(self).total_bytes() <= LOW_WATER_MARK
                + entry.data@.len(),
            old(self).total_bytes() < HIGH_WATER_MARK ==> final(self).total_bytes() <= old(self).total_bytes()
                + entry.data@.len(),
            entry.data@.len() <= LOW_WATER_MARK && (old(self).total_bytes() >= HIGH_WATER_MARK
                || old(self).total_bytes() + entry.data@.len() <= HIGH_WATER_MARK) ==> final(self).total_bytes()
                <= HIGH_WATER_MARK,
    {
        self.purge_old_if_too_big();
        let ghost left = self@;
        self.add_file(entry);
        assert(made_room(old(self)@, left) && self@ == added(left, entry));
    }

    /// Makes room where room is needed, and then keeps some files, in the
    /// order in which they are listed.
    pub fn register_all(&mut self, entries: Vec<GeneratedFile>)
        requires
            old(self).wf(),
            old(self).total_bytes() + sizes_of(entries@) <= usize::MAX,
        ensures
            final(self).wf(),
            final(self).total_bytes() <= old(self).total_bytes() + sizes_of(entries@),
            forall|i: int| 0 <= i < entries.len() ==> final(self)@.contains_key(#[trigger] entries[i].hash@),
            exists|left: Map<Seq<char>, GeneratedFile>| #[trigger]
                made_room(old(self)@, left) && final(self)@ == added_all(left, entries@),
    {
        let ghost before = self.total_bytes();
        self.purge_old_if_too_big();
        let ghost left = self@;
        let ghost all = entries@;
        let count: usize = entries.len();
        let mut queue = backwards(entries);
        let mut kept: usize = 0;
        assert(all.skip(0) =~= all);
        assert(all.take(0) =~= Seq::<GeneratedFile>::empty());
        while kept < count
            invariant
                self.wf(),
                0 <= kept <= count,
                count == all.len(),
                queue@ == all.skip(kept as int).reverse(),
                self.total_bytes() + sizes_of(all.skip(kept as int)) <= before + sizes_of(all),
                before + sizes_of(all) <= usize::MAX,
                forall|i: int| 0 <= i < kept ==> self@.contains_key(#[trigger] all[i].hash@),
                self@ == added_all(left, all.take(kept as int)),
            decreases count - kept,
        {
            let entry = queue.pop().unwrap();
            assert(entry == all[kept as int]);
            assert(all.skip(kept as int).drop_first() =~= all.skip(kept + 1));
            assert(queue@ =~= all.skip(kept + 1).reverse());
            assert(all.take(kept + 1).drop_last() =~= all.take(kept as int));
            self.add_file(entry);
            kept += 1;
        }
        assert(all.take(count as int) =~= all);
        assert(made_room(old(self)@, left) && self@ == added_all(left, all));
    }
}

impl GeneratedFilesCollection {
    /// Keeps some files, in the order in which they are listed, and makes
    /// room before each where room is needed.
    pub fn register_each(&mut self, entries: Vec<GeneratedFile>)
        requires
            old(self).wf(),
            forall|i: int|
                0 <= i < entries.len() ==> (#[trigger] entries[i]).data@.len() + HIGH_WATER_MARK
                    <= usize::MAX,
        ensures
            final(self).wf(),
            entries.len() > 0 ==> final(self)@.contains_key(entries@.last().hash@),
            registered_each(old(self)@, entries@, final(self)@),
    {
        let ghost all = entries@;
        let count: usize = entries.len();
        let mut queue = backwards(entries);
        let mut kept: usize = 0;
        assert(all.skip(0) =~= all);
        assert(all.take(0) =~= Seq::<GeneratedFile>::empty());
        while kept < count
            invariant
                self.wf(),
                0 <= kept <= count,
                count == all.len(),
                queue@ == all.skip(kept as int).reverse(),
                forall|i: int|
                    0 <= i < all.len() ==> (#[trigger] all[i]).data@.len() + HIGH_WATER_MARK <= usize::MAX,
                kept > 0 ==> self@.contains_key(all[kept - 1].hash@),
                registered_each(old(self)@, all.take(kept as int), self@),
            decreases count - kept,
        {
            let ghost so_far = self@;
            let entry = queue.pop().unwrap();
            assert(entry == all[kept as int]);
            assert(queue@ =~= all.skip(kept + 1).reverse());
            self.register(entry);
            proof {
                assert(all.take(kept + 1).drop_last() =~= all.take(kept as int));
                let upto = all.take(kept + 1);
                assert(upto.len() > 0);
                assert(upto.last() == entry);
                assert(registered_each(old(self)@, upto.drop_last(), so_far));
                assert(registered(so_far, upto.last(), self@));
                assert(registered_each(old(self)@, upto, self@));
            }
            kept += 1;
        }
        assert(all.take(count as int) =~= all);
    }
}

/// The same files, the last one first.
fn backwards(entries: Vec<GeneratedFile>) -> (r: Vec<GeneratedFile>)
    ensures
        r@ == entries@.reverse(),
{
    let mut entries = entries;
    let ghost all = entries@;
    let mut reversed: Vec<GeneratedFile> = Vec::new();
    while entries.len() > 0
        invariant
            entries@ == all.take(entries.len() as int),
            entries.len() <= all.len(),
            reversed@ == all.skip(entries.len() as int).reverse(),
        decreases entries.len(),
    {
        let entry = entries.pop().unwrap();
        reversed.push(entry);
        assert(entries@ =~= all.take(entries.len() as int));
        assert(reversed@ =~= all.skip(entries.len() as int).reverse());
    }
    assert(all.skip(0) =~= all);
    reversed
}

/// How many bytes some files hold in all, each counted as often as it is
/// listed.
pub open spec fn sizes_of(entries: Seq<GeneratedFile>) -> nat
    decreases entries.len(),
{
    if entries.len() == 0 {
        0
    } else {
        entries.first().data@.len() + sizes_of(entries.drop_first())
    }
}

} // verus!
