//! The memory mappings and the allocator tunings of a capture, as an
//! answer shows them.

use vstd::prelude::*;
use crate::capture::{Data, Mallopt, MalloptKind, MemoryMap, MemoryUnmap, MmapOperation};
use crate::frames::{get_backtrace_of, shows_backtrace, BacktraceFormat, ResponseFrame};
use crate::text::{digits_of, padded_width, to_padded_decimal};
use crate::timestamp::Timestamp;

verus! {

/// What a request says of the mappings it wants.
#[derive(Clone, Copy, Debug, PartialEq, Eq, Structural, Hash)]
pub struct MmapFilter {
    pub size_min: Option<u64>,
    pub size_max: Option<u64>,
}

impl MmapFilter {
    /// A mapping is wanted if its length is within the bounds that there
    /// are.
    pub open spec fn wants(&self, operation: MmapOperation) -> bool {
        &&& self.size_min matches Some(min) ==> operation.length() >= min
        &&& self.size_max matches Some(max) ==> operation.length() <= max
    }

    pub fn try_match(&self, operation: &MmapOperation) -> (r: bool)
        ensures
            r == self.wants(*operation),
    {
        let length: u64 = match operation {
            MmapOperation::Mmap(map) => map.length,
            MmapOperation::Munmap(unmap) => unmap.length,
        };
        if let Some(min) = self.size_min {
            if length < min {
                return false;
            }
        }
        if let Some(max) = self.size_max {
            if length > max {
                return false;
            }
        }
        true
    }
}

/// A mapping, or the end of one, as an answer shows it.
#[derive(Debug)]
pub enum ResponseMmapOperation {
    Mmap {
        map: MemoryMap,
        pointer_s: String,
        requested_address_s: String,
        backtrace: Vec<ResponseFrame>,
    },
    Munmap { unmap: MemoryUnmap, pointer_s: String, backtrace: Vec<ResponseFrame> },
}

impl ResponseMmapOperation {
    /// The record shows `operation`: its fields as they are, its addresses
    /// also written to the base ten with sixteen digits at least, and its
    /// backtrace frame by frame.
    pub open spec fn shows(&self, data: &Data, format: &BacktraceFormat, operation: MmapOperation) -> bool {
        match operation {
            MmapOperation::Mmap(map) => {
                &&& self matches ResponseMmapOperation::Mmap {
                    map: shown,
                    pointer_s,
                    requested_address_s,
                    backtrace,
                }
                &&& shown == map
                &&& pointer_s@ == digits_of(map.pointer, 10, padded_width(map.pointer), false)
                &&& requested_address_s@ == digits_of(
                    map.requested_address,
                    10,
                    padded_width(map.requested_address),
                    false,
                )
                &&& shows_backtrace(data, format, data.backtraces[map.backtrace as int]@, backtrace@)
            },
            MmapOperation::Munmap(unmap) => {
                &&& self matches ResponseMmapOperation::Munmap { unmap: shown, pointer_s, backtrace }
                &&& shown == unmap
                &&& pointer_s@ == digits_of(unmap.pointer, 10, padded_width(unmap.pointer), false)
                &&& shows_backtrace(data, format, data.backtraces[unmap.backtrace as int]@, backtrace@)
            },
        }
    }
}

/// The mappings of a capture that a request wants, in their order.
pub open spec fn wanted_mmaps(data: &Data, filter: &MmapFilter) -> Seq<MmapOperation> {
    data.mmap_operations@.filter(|operation: MmapOperation| filter.wants(operation))
}

/// One mapping of a capture, as an answer shows it.
pub fn get_mmap(data: &Data, format: &BacktraceFormat, index: usize) -> (r: ResponseMmapOperation)
    requires
        data.wf(),
        index < data.mmap_operations.len(),
    ensures
        r.shows(data, format, data.mmap_operations[index as int]),
{
    assert(data.mmap_operations[index as int].backtrace() < data.backtraces.len());
    match data.mmap_operations[index] {
        MmapOperation::Mmap(map) => ResponseMmapOperation::Mmap {
            map,
            pointer_s: to_padded_decimal(map.pointer),
            requested_address_s: to_padded_decimal(map.requested_address),
            backtrace: get_backtrace_of(data, format, map.backtrace),
        },
        MmapOperation::Munmap(unmap) => ResponseMmapOperation::Munmap {
            unmap,
            pointer_s: to_padded_decimal(unmap.pointer),
            backtrace: get_backtrace_of(data, format, unmap.backtrace),
        },
    }
}

/// The mappings of a capture that a request wants, each as an answer shows
/// it.
pub fn get_mmaps(data: &Data, format: &BacktraceFormat, filter: &MmapFilter) -> (r: Vec<
    ResponseMmapOperation,
>)
    requires
        data.wf(),
    ensures
        r.len() == wanted_mmaps(data, filter).len(),
        forall|i: int|
            0 <= i < r.len() ==> (#[trigger] r[i]).shows(data, format, wanted_mmaps(data, filter)[i]),
{
    let ghost wants = |operation: MmapOperation| filter.wants(operation);
    let mut shown: Vec<ResponseMmapOperation> = Vec::new();
    let mut i: usize = 0;
    while i < data.mmap_operations.len()
        invariant
            data.wf(),
            0 <= i <= data.mmap_operations.len(),
            wants == |operation: MmapOperation| filter.wants(operation),
            shown.len() == data.mmap_operations@.take(i as int).filter(wants).len(),
            forall|k: int|
                0 <= k < shown.len() ==> (#[trigger] shown[k]).shows(
                    data,
                    format,
                    data.mmap_operations@.take(i as int).filter(wants)[k],
                ),
        decreases data.mmap_operations.len() - i,
    {
        let operation = data.mmap_operations[i];
        proof {
            reveal(Seq::filter);
            assert(data.mmap_operations@.take(i + 1).drop_last() =~= data.mmap_operations@.take(
                i as int,
            ));
            assert(data.mmap_operations[i as int].backtrace() < data.backtraces.len());
        }
        if filter.try_match(&operation) {
            shown.push(get_mmap(data, format, i));
        }
        i += 1;
    }
    assert(data.mmap_operations@.take(data.mmap_operations.len() as int) =~= data.mmap_operations@);
    shown
}

/// The name of a setting of the allocator; none for a setting that is not
/// known by name.
pub open spec fn param_name_of(kind: MalloptKind) -> Option<Seq<char>> {
    match kind {
        MalloptKind::TrimThreshold => Some("M_TRIM_THRESHOLD"@),
        MalloptKind::TopPad => Some("M_TOP_PAD"@),
        MalloptKind::MmapThreshold => Some("M_MMAP_THRESHOLD"@),
        MalloptKind::MmapMax => Some("M_MMAP_MAX"@),
        MalloptKind::CheckAction => Some("M_CHECK_ACTION"@),
        MalloptKind::Perturb => Some("M_PERTURB"@),
        MalloptKind::ArenaTest => Some("M_ARENA_TEXT"@),
        MalloptKind::ArenaMax => Some("M_ARENA_MAX"@),
        MalloptKind::Other(_) => None,
    }
}

/// The name of a setting of the allocator.
pub fn param_name(kind: MalloptKind) -> (r: Option<&'static str>)
    ensures
        match r {
            Some(name) => param_name_of(kind) == Some(name@),
            None => param_name_of(kind) is None,
        },
{
    match kind {
        MalloptKind::TrimThreshold => Some("M_TRIM_THRESHOLD"),
        MalloptKind::TopPad => Some("M_TOP_PAD"),
        MalloptKind::MmapThreshold => Some("M_MMAP_THRESHOLD"),
        MalloptKind::MmapMax => Some("M_MMAP_MAX"),
        MalloptKind::CheckAction => Some("M_CHECK_ACTION"),
        MalloptKind::Perturb => Some("M_PERTURB"),
        MalloptKind::ArenaTest => Some("M_ARENA_TEXT"),
        MalloptKind::ArenaMax => Some("M_ARENA_MAX"),
        MalloptKind::Other(_) => None,
    }
}

/// A tuning of the allocator as an answer shows it.
#[derive(Debug)]
pub struct ResponseMallopt {
    pub timestamp: Timestamp,
    pub thread: u32,
    pub backtrace_id: u32,
    pub backtrace: Vec<ResponseFrame>,
    pub raw_param: i32,
    pub param: Option<String>,
    pub value: i32,
    pub result: i32,
}

impl ResponseMallopt {
    pub open spec fn shows(&self, data: &Data, format: &BacktraceFormat, mallopt: Mallopt) -> bool {
        &&& self.timestamp == mallopt.timestamp
        &&& self.thread == mallopt.thread
        &&& self.backtrace_id == mallopt.backtrace
        &&& shows_backtrace(data, format, data.backtraces[mallopt.backtrace as int]@, self.backtrace@)
        &&& self.raw_param == mallopt.raw_param
        &&& crate::frames::shown(self.param) == param_name_of(mallopt.kind)
        &&& self.value == mallopt.value
        &&& self.result == mallopt.result
    }
}

/// The tunings of the allocator that a capture holds, each as an answer
/// shows it.
pub fn get_mallopts(data: &Data, format: &BacktraceFormat) -> (r: Vec<ResponseMallopt>)
    requires
        data.wf(),
    ensures
        r.len() == data.mallopts.len(),
        forall|i: int| 0 <= i < r.len() ==> (#[trigger] r[i]).shows(data, format, data.mallopts[i]),
{
    let mut shown: Vec<ResponseMallopt> = Vec::new();
    let mut i: usize = 0;
    while i < data.mallopts.len()
        invariant
            data.wf(),
            0 <= i <= data.mallopts.len(),
            shown.len() == i,
            forall|k: int| 0 <= k < i ==> (#[trigger] shown[k]).shows(data, format, data.mallopts[k]),
        decreases data.mallopts.len() - i,
    {
        let mallopt = data.mallopts[i];
        assert(data.mallopts[i as int].backtrace < data.backtraces.len());
        let param = match param_name(mallopt.kind) {
            Some(name) => Some(String::from_str(name)),
            None => None,
        };
        shown.push(
            ResponseMallopt {
                timestamp: mallopt.timestamp,
                thread: mallopt.thread,
                backtrace_id: mallopt.backtrace,
                backtrace: get_backtrace_of(data, format, mallopt.backtrace),
                raw_param: mallopt.raw_param,
                param,
                value: mallopt.value,
                result: mallopt.result,
            },
        );
        i += 1;
    }
    shown
}

} // verus!
