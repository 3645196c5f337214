//! The allocations of a capture written down densely: of each one the
//! addresses of its backtrace, and nothing else.

use vstd::prelude::*;
use crate::capture::{AllocationId, Data, FrameId};
use crate::text::{append_text, digits_of, text_of, to_hex_u64};

verus! {

/// The address of a frame between quotation marks.
pub open spec fn raw_frame(data: &Data, frame: FrameId) -> Seq<char> {
    seq!['"'] + digits_of(data.frames[frame as int].address, 16, 16, true) + seq!['"']
}

/// The addresses of some frames, with commas in between.
pub open spec fn raw_frames(data: &Data, frames: Seq<FrameId>) -> Seq<char>
    decreases frames.len(),
{
    if frames.len() == 0 {
        Seq::empty()
    } else if frames.len() == 1 {
        raw_frame(data, frames.last())
    } else {
        raw_frames(data, frames.drop_last()) + seq![','] + raw_frame(data, frames.last())
    }
}

/// What is written of one allocation.
pub open spec fn raw_allocation(data: &Data, id: AllocationId) -> Seq<char> {
    "{\"backtrace\":["@ + raw_frames(
        data,
        data.backtraces[data.allocations[id as int].backtrace as int]@,
    ) + "]}"@
}

/// What is written of some allocations, with commas in between.
pub open spec fn raw_list(data: &Data, ids: Seq<AllocationId>) -> Seq<char>
    decreases ids.len(),
{
    if ids.len() == 0 {
        Seq::empty()
    } else if ids.len() == 1 {
        raw_allocation(data, ids.last())
    } else {
        raw_list(data, ids.drop_last()) + seq![','] + raw_allocation(data, ids.last())
    }
}

/// The allocations of a capture, in the order in which they were made, as
/// one JSON array.
pub open spec fn raw_allocations_of(data: &Data) -> Seq<char> {
    seq!['['] + raw_list(data, data.sorted_by_timestamp@) + seq![']']
}

/// Writes the allocations of a capture down densely.
pub fn raw_allocations(data: &Data) -> (r: String)
    requires
        data.wf(),
    ensures
        r@ == raw_allocations_of(data),
{
    let mut output: Vec<char> = Vec::new();
    output.push('[');
    let ids = &data.sorted_by_timestamp;
    let mut i: usize = 0;
    while i < ids.len()
        invariant
            data.wf(),
            ids == &data.sorted_by_timestamp,
            0 <= i <= ids.len(),
            output@ == seq!['['] + raw_list(data, ids@.take(i as int)),
        decreases ids.len() - i,
    {
        let ghost listed = raw_list(data, ids@.take(i as int));
        assert(ids@.take(i + 1).drop_last() =~= ids@.take(i as int));
        if i != 0 {
            output.push(',');
        }
        let ghost opened = output@;
        append_text(&mut output, "{\"backtrace\":[");
        let allocation = data.get_allocation(ids[i]);
        assert(data.allocation_wf(*allocation));
        let frames = &data.backtraces[allocation.backtrace as usize];
        let ghost before = output@;
        let mut k: usize = 0;
        while k < frames.len()
            invariant
                data.wf(),
                frames == &data.backtraces[allocation.backtrace as int],
                allocation.backtrace < data.backtraces.len(),
                0 <= k <= frames.len(),
                output@ == before + raw_frames(data, frames@.take(k as int)),
            decreases frames.len() - k,
        {
            assert(frames@.take(k + 1).drop_last() =~= frames@.take(k as int));
            let ghost written = output@;
            if k != 0 {
                output.push(',');
            }
            let frame_id: FrameId = frames[k];
            assert(data.backtraces[allocation.backtrace as int][k as int] < data.frames.len());
            let address: u64 = data.frames[frame_id].address;
            output.push('"');
            let hex = to_hex_u64(address);
            append_text(&mut output, hex.as_str());
            output.push('"');
            proof {
                let frame = raw_frame(data, frame_id);
                if k == 0 {
                    assert(raw_frames(data, frames@.take(0)) =~= Seq::<char>::empty());
                    assert(output@ =~= before + frame);
                } else {
                    assert(output@ =~= written + seq![','] + frame);
                    assert(output@ =~= before + (raw_frames(data, frames@.take(k as int)) + seq![',']
                        + frame));
                }
            }
            k += 1;
        }
        assert(frames@.take(frames.len() as int) =~= frames@);
        append_text(&mut output, "]}");
        proof {
            let one = raw_allocation(data, ids[i as int]);
            assert(output@ =~= opened + one);
            if i == 0 {
                assert(raw_list(data, ids@.take(0)) =~= Seq::<char>::empty());
                assert(output@ =~= seq!['['] + one);
            } else {
                assert(output@ =~= seq!['['] + (listed + seq![','] + one));
            }
        }
        i += 1;
    }
    assert(ids@.take(ids.len() as int) =~= ids@);
    output.push(']');
    let ghost inner = raw_list(data, ids@);
    assert(output@ =~= seq!['['] + inner + seq![']']);
    text_of(output.as_slice())
}

} // verus!
