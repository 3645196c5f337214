//! Counts and sizes, summed up by line and by file.

use vstd::prelude::*;

verus! {

/// How many allocations there were, and how many bytes in all.
#[derive(Clone, Copy, Debug, PartialEq, Eq, Structural)]
pub struct CountAndSize {
    pub count: u64,
    pub size: u64,
}

/// The counts and sizes of the lines of one file, and their sums.
#[derive(Debug)]
pub struct FileCollation {
    pub name: String,
    pub count: u64,
    pub size: u64,
    pub per_line: Vec<(u32, CountAndSize)>,
}

/// The counts and sizes of all files, and their sums.
#[derive(Debug)]
pub struct Collation {
    pub count: u64,
    pub size: u64,
    pub per_file: Vec<FileCollation>,
}

/// A sum as it is told: the largest `u64` stands for all that is larger.
pub open spec fn capped(sum: int) -> u64 {
    if sum > u64::MAX {
        u64::MAX
    } else {
        sum as u64
    }
}

/// The allocations of some lines, summed up.
pub open spec fn count_of(lines: Seq<(u32, CountAndSize)>) -> int
    decreases lines.len(),
{
    if lines.len() == 0 {
        0
    } else {
        count_of(lines.drop_last()) + lines.last().1.count
    }
}

/// The bytes of some lines, summed up.
pub open spec fn size_of(lines: Seq<(u32, CountAndSize)>) -> int
    decreases lines.len(),
{
    if lines.len() == 0 {
        0
    } else {
        size_of(lines.drop_last()) + lines.last().1.size
    }
}

/// The allocations of some files, summed up.
pub open spec fn total_count_of(files: Seq<(String, Vec<(u32, CountAndSize)>)>) -> int
    decreases files.len(),
{
    if files.len() == 0 {
        0
    } else {
        total_count_of(files.drop_last()) + count_of(files.last().1@)
    }
}

/// The bytes of some files, summed up.
pub open spec fn total_size_of(files: Seq<(String, Vec<(u32, CountAndSize)>)>) -> int
    decreases files.len(),
{
    if files.len() == 0 {
        0
    } else {
        total_size_of(files.drop_last()) + size_of(files.last().1@)
    }
}

proof fn lemma_sums_are_natural(lines: Seq<(u32, CountAndSize)>)
    ensures
        count_of(lines) >= 0,
        size_of(lines) >= 0,
    decreases lines.len(),
{
    if lines.len() > 0 {
        lemma_sums_are_natural(lines.drop_last());
    }
}

proof fn lemma_totals_are_natural(files: Seq<(String, Vec<(u32, CountAndSize)>)>)
    ensures
        total_count_of(files) >= 0,
        total_size_of(files) >= 0,
    decreases files.len(),
{
    if files.len() > 0 {
        lemma_totals_are_natural(files.drop_last());
        lemma_sums_are_natural(files.last().1@);
    }
}

impl FileCollation {
    /// The record holds the lines of the file as they are, and their sums.
    pub open spec fn sums(&self, file: (String, Vec<(u32, CountAndSize)>)) -> bool {
        &&& self.name@ == file.0@
        &&& self.per_line@ == file.1@
        &&& self.count == capped(count_of(file.1@))
        &&& self.size == capped(size_of(file.1@))
    }
}

fn collate_file(name: String, per_line: Vec<(u32, CountAndSize)>) -> (r: FileCollation)
    ensures
        r.sums((name, per_line)),
{
    let mut count: u64 = 0;
    let mut size: u64 = 0;
    let mut i: usize = 0;
    while i < per_line.len()
        invariant
            0 <= i <= per_line.len(),
            count == capped(count_of(per_line@.take(i as int))),
            size == capped(size_of(per_line@.take(i as int))),
        decreases per_line.len() - i,
    {
        proof {
            assert(per_line@.take(i + 1).drop_last() =~= per_line@.take(i as int));
            lemma_sums_are_natural(per_line@.take(i as int));
        }
        count = count.saturating_add(per_line[i].1.count);
        size = size.saturating_add(per_line[i].1.size);
        i += 1;
    }
    assert(per_line@.take(per_line.len() as int) =~= per_line@);
    FileCollation { name, count, size, per_line }
}

/// Sums up the counts and sizes of some files, file by file and in all.
pub fn collate(files: Vec<(String, Vec<(u32, CountAndSize)>)>) -> (r: Collation)
    ensures
        r.count == capped(total_count_of(files@)),
        r.size == capped(total_size_of(files@)),
        r.per_file.len() == files.len(),
        forall|i: int| 0 <= i < files.len() ==> (#[trigger] r.per_file[i]).sums(files[i]),
{
    let ghost all = files@;
    let mut files = files;
    let mut reversed: Vec<FileCollation> = Vec::new();
    while files.len() > 0
        invariant
            files@ == all.take(files.len() as int),
            files.len() <= all.len(),
            reversed.len() == all.len() - files.len(),
            forall|k: int|
                0 <= k < reversed.len() ==> (#[trigger] reversed[k]).sums(all[all.len() - 1 - k]),
        decreases files.len(),
    {
        let (name, per_line) = files.pop().unwrap();
        reversed.push(collate_file(name, per_line));
        assert(files@ =~= all.take(files.len() as int));
    }
    let mut per_file: Vec<FileCollation> = Vec::new();
    let mut count: u64 = 0;
    let mut size: u64 = 0;
    while reversed.len() > 0
        invariant
            per_file.len() + reversed.len() == all.len(),
            forall|k: int|
                0 <= k < reversed.len() ==> (#[trigger] reversed[k]).sums(all[all.len() - 1 - k]),
            forall|k: int| 0 <= k < per_file.len() ==> (#[trigger] per_file[k]).sums(all[k]),
            count == capped(total_count_of(all.take(per_file.len() as int))),
            size == capped(total_size_of(all.take(per_file.len() as int))),
        decreases reversed.len(),
    {
        let ghost done = per_file.len() as int;
        let file = reversed.pop().unwrap();
        proof {
            assert(file.sums(all[done]));
            assert(all.take(done + 1).drop_last() =~= all.take(done));
            lemma_totals_are_natural(all.take(done));
            lemma_sums_are_natural(all[done].1@);
        }
        count = count.saturating_add(file.count);
        size = size.saturating_add(file.size);
        per_file.push(file);
    }
    assert(all.take(all.len() as int) =~= all);
    Collation { count, size, per_file }
}

} // verus!
