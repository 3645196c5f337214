//! The backtraces of a capture that a request wants.

use vstd::prelude::*;
use crate::capture::{BacktraceId, Data, FrameId};
use crate::filter::{match_backtrace, BacktraceFilter};
use crate::frame_cache::FrameCache;
use crate::frames::{get_backtrace_of, shows_backtrace, BacktraceFormat, ResponseFrame};

verus! {

/// Whether a filter accepts the backtrace `id` of `data`.
pub open spec fn accepted(data: &Data, filter: &BacktraceFilter) -> spec_fn(int) -> bool {
    |id: int| filter.accepts(data, data.backtraces[id]@)
}

/// The ids of the first `upto` backtraces of `data` that a filter accepts.
pub open spec fn accepted_ids(data: &Data, filter: &BacktraceFilter, upto: int) -> Seq<int> {
    Seq::new(upto as nat, |id: int| id).filter(accepted(data, filter))
}

/// Each frame that `after` knows, `before` knew or is a frame of `data`.
pub open spec fn learned_of(before: &FrameCache, after: &FrameCache, data: &Data) -> bool {
    &&& forall|frame: FrameId| #[trigger]
        before@.contains_key(frame) ==> after@.contains_key(frame) && after@[frame] == before@[frame]
    &&& forall|frame: FrameId| #[trigger]
        after@.contains_key(frame) ==> before@.contains_key(frame) || frame < data.frames.len()
}

/// The backtraces of a capture that a filter accepts, in their order.
///
/// What is learned of a frame on the way is noted in the two caches, which
/// may come with what was learned before: no frame is tried against the
/// patterns more than once. So caches that come empty have, in the end,
/// worked out no more verdicts than the capture has frames.
pub fn matching_backtraces(
    data: &Data,
    positive_cache: &mut FrameCache,
    negative_cache: &mut FrameCache,
    filter: &BacktraceFilter,
) -> (r: Vec<BacktraceId>)
    requires
        data.wf(),
        filter.positive_verdicts(data, old(positive_cache)),
        filter.negative_verdicts(data, old(negative_cache)),
    ensures
        r@.map_values(|id: BacktraceId| id as int) == accepted_ids(data, filter, data.backtraces.len() as int),
        filter.positive_verdicts(data, final(positive_cache)),
        filter.negative_verdicts(data, final(negative_cache)),
        learned_of(old(positive_cache), final(positive_cache), data),
        learned_of(old(negative_cache), final(negative_cache), data),
        final(positive_cache).evaluations() <= data.frames.len(),
        final(negative_cache).evaluations() <= data.frames.len(),
{
    let mut matched: Vec<BacktraceId> = Vec::new();
    let mut id: usize = 0;
    while id < data.backtraces.len()
        invariant
            data.wf(),
            0 <= id <= data.backtraces.len(),
            matched@.map_values(|id: BacktraceId| id as int) == accepted_ids(data, filter, id as int),
            filter.positive_verdicts(data, positive_cache),
            filter.negative_verdicts(data, negative_cache),
            learned_of(old(positive_cache), positive_cache, data),
            learned_of(old(negative_cache), negative_cache, data),
        decreases data.backtraces.len() - id,
    {
        let backtrace = &data.backtraces[id];
        assert forall|i: int| 0 <= i < backtrace.len() implies backtrace[i] < data.frames.len() by {
            assert(data.backtraces[id as int][i] < data.frames.len());
        }
        proof {
            reveal(Seq::filter);
            assert(Seq::new((id + 1) as nat, |id: int| id).drop_last() =~= Seq::new(
                id as nat,
                |id: int| id,
            ));
        }
        let ghost before = matched@;
        if match_backtrace(data, positive_cache, negative_cache, filter, backtrace) {
            matched.push(id as u32);
            assert(matched@.map_values(|id: BacktraceId| id as int) =~= before.map_values(
                |id: BacktraceId| id as int,
            ).push(id as int));
        }
        id += 1;
    }
    proof {
        crate::frame_cache::lemma_evaluations_bounded(positive_cache, data.frames.len() as nat);
        crate::frame_cache::lemma_evaluations_bounded(negative_cache, data.frames.len() as nat);
    }
    matched
}

/// The frames of the backtrace `id` of `data`, as an answer shows them;
/// none where the capture has no such backtrace.
pub fn find_backtrace(data: &Data, format: &BacktraceFormat, id: BacktraceId) -> (r: Option<
    Vec<ResponseFrame>,
>)
    requires
        data.wf(),
    ensures
        r is Some <==> id < data.backtraces.len(),
        r matches Some(frames) ==> shows_backtrace(data, format, data.backtraces[id as int]@, frames@),
{
    if (id as usize) < data.backtraces.len() {
        Some(get_backtrace_of(data, format, id))
    } else {
        None
    }
}

} // verus!
