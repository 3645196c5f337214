//! How fragmented the main heap was, second by second.
//!
//! The operations of a capture are replayed once, in their recorded order.
//! Of the allocations that live in the main arena the replay keeps the number
//! of bytes in use and the lowest and highest address in use; what lies
//! between the two and is not in use is the fragmentation.

use std::collections::BTreeMap;
use vstd::prelude::*;
use crate::capture::{Allocation, Data, Operation, OPERATION_LIMIT};
use crate::timestamp::{Timestamp, USECS_PER_SEC};

verus! {

/// Two aligned sequences: a time in milliseconds since the capture began,
/// and the fragmentation in bytes at that time.
pub struct ResponseFragmentationTimeline {
    pub xs: Vec<u64>,
    pub fragmentation: Vec<u64>,
}

/// Only allocations of the main arena that were neither mapped nor served
/// by jemalloc take part in the timeline.
pub open spec fn takes_part(allocation: Allocation) -> bool {
    allocation.in_main_arena && !allocation.is_mmaped && !allocation.is_jemalloc
}

/// The address space as the replay sees it after some operations.
pub struct AddressSpace {
    /// Bytes in use: what was allocated less what was given back.
    pub used: int,
    /// For each address, how many live ranges begin or end there.
    /// An address that the map lacks counts as zero.
    pub counts: Map<u64, int>,
    /// The lowest address in use, `u64::MAX` where none is.
    pub min: u64,
    /// The highest address in use, zero where none is.
    pub max: u64,
}

impl AddressSpace {
    pub open spec fn empty() -> AddressSpace {
        AddressSpace { used: 0, counts: Map::empty(), min: u64::MAX, max: 0 }
    }

    pub open spec fn count(self, address: u64) -> int {
        if self.counts.contains_key(address) {
            self.counts[address]
        } else {
            0
        }
    }

    pub open spec fn bump(self, address: u64, by: int) -> AddressSpace {
        AddressSpace { counts: self.counts.insert(address, self.count(address) + by), ..self }
    }

    /// `address` is the lowest one whose count is not zero.
    pub open spec fn is_lowest(self, address: u64) -> bool {
        &&& self.count(address) != 0
        &&& forall|below: u64| below < address ==> self.count(below) == 0
    }

    /// `address` is the highest one whose count is not zero.
    pub open spec fn is_highest(self, address: u64) -> bool {
        &&& self.count(address) != 0
        &&& forall|above: u64| above > address ==> self.count(above) == 0
    }

    pub open spec fn lowest(self) -> u64 {
        if exists|address: u64| self.is_lowest(address) {
            choose|address: u64| self.is_lowest(address)
        } else {
            u64::MAX
        }
    }

    pub open spec fn highest(self) -> u64 {
        if exists|address: u64| self.is_highest(address) {
            choose|address: u64| self.is_highest(address)
        } else {
            0
        }
    }

    /// A range comes to life: both its ends are counted, its length is in
    /// use, and the bounds widen to hold it.
    pub open spec fn allocate(self, start: u64, end: u64) -> AddressSpace {
        AddressSpace {
            used: self.used + (end - start),
            counts: self.bump(start, 1).bump(end, 1).counts,
            min: if start < self.min { start } else { self.min },
            max: if end > self.max { end } else { self.max },
        }
    }

    /// A range dies: both its ends are discounted and its length is no longer
    /// in use. A bound that the range touched moves to the nearest address
    /// that is still counted.
    pub open spec fn deallocate(self, start: u64, end: u64) -> AddressSpace {
        let counted = self.bump(start, -1).bump(end, -1);
        AddressSpace {
            used: self.used - (end - start),
            counts: counted.counts,
            min: if start == self.min { counted.lowest() } else { self.min },
            max: if end == self.max { counted.highest() } else { self.max },
        }
    }

    /// The distance between the bounds; zero where nothing is in use.
    pub open spec fn span(self) -> int {
        if self.max == 0 || self.max < self.min {
            0
        } else {
            self.max - self.min
        }
    }

    /// The part of the span that is not in use, held within `u64`.
    pub open spec fn fragmentation(self) -> u64 {
        let free = self.span() - self.used;
        if free < 0 {
            0
        } else if free > u64::MAX {
            u64::MAX
        } else {
            free as u64
        }
    }

    /// The address space after one more operation.
    pub open spec fn apply(self, data: &Data, operation: Operation) -> AddressSpace {
        match operation {
            Operation::Allocation { allocation } => {
                let new = data.allocations[allocation as int];
                self.allocate(new.start(), new.end())
            },
            Operation::Deallocation { allocation } => {
                let old = data.allocations[allocation as int];
                self.deallocate(old.start(), old.end())
            },
            Operation::Reallocation { new_allocation, old_allocation } => {
                let new = data.allocations[new_allocation as int];
                let old = data.allocations[old_allocation as int];
                let without = if takes_part(old) {
                    self.deallocate(old.start(), old.end())
                } else {
                    self
                };
                if takes_part(new) {
                    without.allocate(new.start(), new.end())
                } else {
                    without
                }
            },
        }
    }
}

/// Whether an operation touches an allocation that takes part.
pub open spec fn is_relevant(data: &Data, operation: Operation) -> bool {
    match operation {
        Operation::Allocation { allocation } => takes_part(data.allocations[allocation as int]),
        Operation::Deallocation { allocation } => takes_part(data.allocations[allocation as int]),
        Operation::Reallocation { new_allocation, old_allocation } => takes_part(
            data.allocations[new_allocation as int],
        ) || takes_part(data.allocations[old_allocation as int]),
    }
}

/// Milliseconds between the second in which the capture began and `second`.
pub open spec fn millis(origin: u64, second: u64) -> u64 {
    ((second - origin) * 1000) as u64
}

/// The timeline as far as the replay has written it.
pub struct Timeline {
    pub space: AddressSpace,
    /// The second of the last point, if there is one.
    pub second: Option<u64>,
    pub xs: Seq<u64>,
    pub fragmentation: Seq<u64>,
}

impl Timeline {
    pub open spec fn start() -> Timeline {
        Timeline { space: AddressSpace::empty(), second: None, xs: Seq::empty(), fragmentation: Seq::empty() }
    }

    pub open spec fn push(self, x: u64, value: u64) -> Timeline {
        Timeline { xs: self.xs.push(x), fragmentation: self.fragmentation.push(value), ..self }
    }

    /// Where two or more seconds passed without a point, the last value is
    /// repeated right after the last point and right before the next one, so
    /// that a chart of the timeline stays flat in between.
    pub open spec fn fill_gap(self, origin: u64, second: u64) -> Timeline {
        match self.second {
            Some(last) if last + 1 != second => {
                let value = self.fragmentation.last();
                let after = self.push(millis(origin, (last + 1) as u64), value);
                if last + 2 != second {
                    after.push(millis(origin, (second - 1) as u64), value)
                } else {
                    after
                }
            },
            _ => self,
        }
    }

    /// The point of `second` exists and is the last one.
    pub open spec fn open_second(self, origin: u64, second: u64) -> Timeline {
        if self.second == Some(second) {
            self
        } else {
            Timeline { second: Some(second), ..self.fill_gap(origin, second).push(millis(origin, second), 0) }
        }
    }

    /// The last point takes the fragmentation of the address space.
    pub open spec fn record(self, origin: u64, second: u64) -> Timeline {
        let opened = self.open_second(origin, second);
        Timeline {
            fragmentation: opened.fragmentation.update(
                opened.fragmentation.len() - 1,
                self.space.fragmentation(),
            ),
            ..opened
        }
    }

    /// The points are as many as their values, stand in the order of their
    /// times, and the last of them is the point of the last second.
    pub open spec fn tidy(self, origin: u64) -> bool {
        &&& self.xs.len() == self.fragmentation.len()
        &&& self.second is None ==> self.xs.len() == 0
        &&& self.second matches Some(second) ==> {
            &&& self.xs.len() > 0
            &&& origin <= second <= u64::MAX / USECS_PER_SEC
            &&& self.xs.last() == millis(origin, second)
        }
        &&& forall|i: int, j: int| 0 <= i <= j < self.xs.len() ==> self.xs[i] <= self.xs[j]
    }

    /// The timeline after one more operation.
    pub open spec fn step(self, data: &Data, operation: Operation) -> Timeline {
        if is_relevant(data, operation) {
            Timeline { space: self.space.apply(data, operation), ..self }.record(
                data.initial_timestamp.secs(),
                data.operation_timestamp(operation).secs(),
            )
        } else {
            self
        }
    }

    /// The timeline after the first `count` operations of a capture.
    pub open spec fn after(data: &Data, count: nat) -> Timeline
        decreases count,
    {
        if count == 0 {
            Timeline::start()
        } else {
            Timeline::after(data, (count - 1) as nat).step(data, data.operations[count - 1])
        }
    }
}

/// How often `address` is counted in the replay's map.
pub open spec fn counted(map: Map<u64, i64>, address: u64) -> int {
    if map.contains_key(address) {
        map[address] as int
    } else {
        0
    }
}

/// The entry of the lowest address in `map`, if it has any.
///
/// Calls `BTreeMap::first_key_value`, which std documents to return the
/// entry of the minimum key, and `None` for an empty map.
#[verifier::external_body]
fn first_entry(map: &BTreeMap<u64, i64>) -> (r: Option<(u64, i64)>)
    ensures
        match r {
            Some((address, count)) => {
                &&& map@.contains_key(address)
                &&& map@[address] == count
                &&& forall|other: u64| map@.contains_key(other) ==> address <= other
            },
            None => forall|other: u64| !map@.contains_key(other),
        },
{
    map.first_key_value().map(|(address, count)| (*address, *count))
}

/// The entry of the highest address in `map`, if it has any.
///
/// Calls `BTreeMap::last_key_value`, which std documents to return the
/// entry of the maximum key, and `None` for an empty map.
#[verifier::external_body]
fn last_entry(map: &BTreeMap<u64, i64>) -> (r: Option<(u64, i64)>)
    ensures
        match r {
            Some((address, count)) => {
                &&& map@.contains_key(address)
                &&& map@[address] == count
                &&& forall|other: u64| map@.contains_key(other) ==> other <= address
            },
            None => forall|other: u64| !map@.contains_key(other),
        },
{
    map.last_key_value().map(|(address, count)| (*address, *count))
}

/// The replay's state: what it keeps of the address space.
struct Replay {
    used: i128,
    map: BTreeMap<u64, i64>,
    min: u64,
    max: u64,
}

impl Replay {
    /// The replay's map counts as `space` does, and no count is beyond `bound`.
    spec fn counts(&self, space: AddressSpace, bound: int) -> bool {
        &&& forall|address: u64| counted(self.map@, address) == #[trigger] space.count(address)
        &&& forall|address: u64| -bound <= #[trigger] space.count(address) <= bound
    }

    /// The replay holds `space`, and has come there in at most `steps` steps.
    spec fn holds(&self, space: AddressSpace, steps: int) -> bool {
        &&& self.min == space.min
        &&& self.max == space.max
        &&& self.counts(space, 4 * steps)
        &&& self.uses(space, 2 * steps)
    }

    fn new() -> (r: Replay)
        ensures
            r.holds(AddressSpace::empty(), 0),
    {
        Replay { used: 0, map: BTreeMap::new(), min: u64::MAX, max: 0 }
    }

    fn bump(&mut self, address: u64, by: i64, Ghost(space): Ghost<AddressSpace>, Ghost(bound): Ghost<int>)
        requires
            -1 <= by <= 1,
            0 <= bound <= 4 * OPERATION_LIMIT + 1,
            old(self).counts(space, bound),
        ensures
            final(self).counts(space.bump(address, by as int), bound + 1),
            final(self).used == old(self).used,
            final(self).min == old(self).min,
            final(self).max == old(self).max,
    {
        let current: i64 = match self.map.get(&address) {
            Some(count) => *count,
            None => 0,
        };
        assert(current == space.count(address));
        self.map.insert(address, current + by);
        let ghost bumped = space.bump(address, by as int);
        assert forall|other: u64| counted(self.map@, other) == #[trigger] bumped.count(other) by {
            assert(counted(old(self).map@, other) == space.count(other));
        }
        assert forall|other: u64| -(bound + 1) <= #[trigger] bumped.count(other) <= bound + 1 by {
            assert(-bound <= space.count(other) <= bound);
        }
    }

    /// Drops the entries at the low end of the map that count zero, and
    /// returns the lowest address that is still counted.
    fn lowest(&mut self, Ghost(space): Ghost<AddressSpace>, Ghost(bound): Ghost<int>) -> (r: u64)
        requires
            old(self).counts(space, bound),
        ensures
            final(self).counts(space, bound),
            r == space.lowest(),
            final(self).used == old(self).used,
            final(self).min == old(self).min,
            final(self).max == old(self).max,
    {
        loop
            invariant
                self.counts(space, bound),
                self.used == old(self).used,
                self.min == old(self).min,
                self.max == old(self).max,
            decreases self.map@.len(),
        {
            match first_entry(&self.map) {
                Some((address, count)) => {
                    if count == 0 {
                        let ghost before = self.map@;
                        self.map.remove(&address);
                        assert forall|other: u64| counted(self.map@, other) == #[trigger] space.count(other) by {
                            assert(counted(before, other) == space.count(other));
                        }
                    } else {
                        proof {
                            assert(space.count(address) == counted(self.map@, address));
                            assert forall|below: u64| below < address implies space.count(below) == 0 by {
                                assert(counted(self.map@, below) == space.count(below));
                            }
                            assert(space.is_lowest(address));
                            let chosen = space.lowest();
                            assert(space.is_lowest(chosen));
                        }
                        return address;
                    }
                },
                None => {
                    proof {
                        assert forall|address: u64| !space.is_lowest(address) by {
                            assert(counted(self.map@, address) == space.count(address));
                        }
                    }
                    return u64::MAX;
                },
            }
        }
    }

    /// Drops the entries at the high end of the map that count zero, and
    /// returns the highest address that is still counted.
    fn highest(&mut self, Ghost(space): Ghost<AddressSpace>, Ghost(bound): Ghost<int>) -> (r: u64)
        requires
            old(self).counts(space, bound),
        ensures
            final(self).counts(space, bound),
            r == space.highest(),
            final(self).used == old(self).used,
            final(self).min == old(self).min,
            final(self).max == old(self).max,
    {
        loop
            invariant
                self.counts(space, bound),
                self.used == old(self).used,
                self.min == old(self).min,
                self.max == old(self).max,
            decreases self.map@.len(),
        {
            match last_entry(&self.map) {
                Some((address, count)) => {
                    if count == 0 {
                        let ghost before = self.map@;
                        self.map.remove(&address);
                        assert forall|other: u64| counted(self.map@, other) == #[trigger] space.count(other) by {
                            assert(counted(before, other) == space.count(other));
                        }
                    } else {
                        proof {
                            assert(space.count(address) == counted(self.map@, address));
                            assert forall|above: u64| above > address implies space.count(above) == 0 by {
                                assert(counted(self.map@, above) == space.count(above));
                            }
                            assert(space.is_highest(address));
                            let chosen = space.highest();
                            assert(space.is_highest(chosen));
                        }
                        return address;
                    }
                },
                None => {
                    proof {
                        assert forall|address: u64| !space.is_highest(address) by {
                            assert(counted(self.map@, address) == space.count(address));
                        }
                    }
                    return 0;
                },
            }
        }
    }

    /// The replay's byte count is `space`'s, and `moves` ranges at most have
    /// gone into it.
    spec fn uses(&self, space: AddressSpace, moves: int) -> bool {
        &&& self.used == space.used
        &&& -moves * 0x1_0000_0000_0000_0000 <= self.used <= moves * 0x1_0000_0000_0000_0000
    }

    fn allocate(
        &mut self,
        start: u64,
        end: u64,
        Ghost(space): Ghost<AddressSpace>,
        Ghost(bound): Ghost<int>,
        Ghost(moves): Ghost<int>,
    )
        requires
            start <= end,
            0 <= bound <= 4 * OPERATION_LIMIT,
            0 <= moves <= 2 * OPERATION_LIMIT,
            old(self).counts(space, bound),
            old(self).uses(space, moves),
            old(self).min == space.min,
            old(self).max == space.max,
        ensures
            final(self).counts(space.allocate(start, end), bound + 2),
            final(self).uses(space.allocate(start, end), moves + 1),
            final(self).min == space.allocate(start, end).min,
            final(self).max == space.allocate(start, end).max,
    {
        self.bump(start, 1, Ghost(space), Ghost(bound));
        self.bump(end, 1, Ghost(space.bump(start, 1)), Ghost(bound + 1));
        self.used = self.used + (end - start) as i128;
        if start < self.min {
            self.min = start;
        }
        if end > self.max {
            self.max = end;
        }
        proof {
            let counted = space.bump(start, 1).bump(end, 1);
            let after = space.allocate(start, end);
            assert(after.counts == counted.counts);
            assert forall|address: u64| counted.count(address) == #[trigger] after.count(address) by {}
        }
    }

    fn deallocate(
        &mut self,
        start: u64,
        end: u64,
        Ghost(space): Ghost<AddressSpace>,
        Ghost(bound): Ghost<int>,
        Ghost(moves): Ghost<int>,
    )
        requires
            start <= end,
            0 <= bound <= 4 * OPERATION_LIMIT,
            0 <= moves <= 2 * OPERATION_LIMIT,
            old(self).counts(space, bound),
            old(self).uses(space, moves),
            old(self).min == space.min,
            old(self).max == space.max,
        ensures
            final(self).counts(space.deallocate(start, end), bound + 2),
            final(self).uses(space.deallocate(start, end), moves + 1),
            final(self).min == space.deallocate(start, end).min,
            final(self).max == space.deallocate(start, end).max,
    {
        self.bump(start, -1, Ghost(space), Ghost(bound));
        self.bump(end, -1, Ghost(space.bump(start, -1)), Ghost(bound + 1));
        let ghost counted = space.bump(start, -1).bump(end, -1);
        self.used = self.used - (end - start) as i128;
        if start == self.min {
            let lowest: u64 = self.lowest(Ghost(counted), Ghost(bound + 2));
            self.min = lowest;
        }
        if end == self.max {
            let highest: u64 = self.highest(Ghost(counted), Ghost(bound + 2));
            self.max = highest;
        }
        proof {
            let after = space.deallocate(start, end);
            assert(after.counts == counted.counts);
            assert forall|address: u64| counted.count(address) == #[trigger] after.count(address) by {}
        }
    }

    /// The part of the span that is not in use.
    fn fragmentation(&self, Ghost(space): Ghost<AddressSpace>) -> (r: u64)
        requires
            self.uses(space, 2 * OPERATION_LIMIT),
            self.min == space.min,
            self.max == space.max,
        ensures
            r == space.fragmentation(),
    {
        let span: u64 = if self.max == 0 || self.max < self.min {
            0
        } else {
            self.max - self.min
        };
        let free: i128 = span as i128 - self.used;
        if free < 0 {
            0
        } else if free > u64::MAX as i128 {
            u64::MAX
        } else {
            free as u64
        }
    }
}

fn is_matched(allocation: &Allocation) -> (r: bool)
    ensures
        r == takes_part(*allocation),
{
    allocation.in_main_arena && !allocation.is_mmaped && !allocation.is_jemalloc
}

impl Replay {
    /// Replays one operation. Returns the moment at which it took place, or
    /// `None` for an operation that leaves the address space as it is.
    fn apply(
        &mut self,
        data: &Data,
        operation: Operation,
        Ghost(space): Ghost<AddressSpace>,
        Ghost(steps): Ghost<int>,
    ) -> (r: Option<Timestamp>)
        requires
            data.wf(),
            data.operation_wf(operation),
            0 <= steps < OPERATION_LIMIT,
            old(self).holds(space, steps),
        ensures
            r is Some == is_relevant(data, operation),
            r matches Some(timestamp) ==> {
                &&& timestamp == data.operation_timestamp(operation)
                &&& final(self).holds(space.apply(data, operation), steps + 1)
            },
            r is None ==> final(self).holds(space, steps + 1),
    {
        match operation {
            Operation::Allocation { allocation } => {
                let new = data.get_allocation(allocation);
                if !is_matched(new) {
                    return None;
                }
                self.allocate(
                    new.range_start(),
                    new.range_end(),
                    Ghost(space),
                    Ghost(4 * steps),
                    Ghost(2 * steps),
                );
                Some(new.timestamp)
            },
            Operation::Deallocation { allocation } => {
                let old = data.get_allocation(allocation);
                if !is_matched(old) {
                    return None;
                }
                self.deallocate(
                    old.range_start(),
                    old.range_end(),
                    Ghost(space),
                    Ghost(4 * steps),
                    Ghost(2 * steps),
                );
                match old.deallocation {
                    Some(deallocation) => Some(deallocation.timestamp),
                    None => None,
                }
            },
            Operation::Reallocation { new_allocation, old_allocation } => {
                let new = data.get_allocation(new_allocation);
                let old = data.get_allocation(old_allocation);
                if !is_matched(new) && !is_matched(old) {
                    return None;
                }
                let ghost mut now = space;
                let ghost mut bound = 4 * steps;
                let ghost mut moves = 2 * steps;
                if is_matched(old) {
                    self.deallocate(
                        old.range_start(),
                        old.range_end(),
                        Ghost(now),
                        Ghost(bound),
                        Ghost(moves),
                    );
                    proof {
                        now = now.deallocate(old.start(), old.end());
                        bound = bound + 2;
                        moves = moves + 1;
                    }
                }
                if is_matched(new) {
                    self.allocate(
                        new.range_start(),
                        new.range_end(),
                        Ghost(now),
                        Ghost(bound),
                        Ghost(moves),
                    );
                }
                Some(new.timestamp)
            },
        }
    }
}

/// Writes the point of `second`, and the points before it that fill a gap.
fn record(
    xs: &mut Vec<u64>,
    fragmentation: &mut Vec<u64>,
    last: Option<u64>,
    origin: u64,
    second: u64,
    value: u64,
    Ghost(timeline): Ghost<Timeline>,
)
    requires
        old(xs)@ == timeline.xs,
        old(fragmentation)@ == timeline.fragmentation,
        last == timeline.second,
        value == timeline.space.fragmentation(),
        timeline.tidy(origin),
        origin <= second <= u64::MAX / USECS_PER_SEC,
        last matches Some(before) ==> before <= second,
    ensures
        final(xs)@ == timeline.record(origin, second).xs,
        final(fragmentation)@ == timeline.record(origin, second).fragmentation,
        timeline.record(origin, second).second == Some(second),
        timeline.record(origin, second).tidy(origin),
{
    if last != Some(second) {
        match last {
            Some(before) => {
                if before + 1 != second {
                    let value: u64 = fragmentation[fragmentation.len() - 1];
                    xs.push((before + 1 - origin) * 1000);
                    fragmentation.push(value);
                    if before + 2 != second {
                        xs.push((second - 1 - origin) * 1000);
                        fragmentation.push(value);
                    }
                }
            },
            None => {},
        }
        xs.push((second - origin) * 1000);
        fragmentation.push(0);
    }
    let at: usize = fragmentation.len() - 1;
    fragmentation.set(at, value);
}

/// The fragmentation of the main heap over the time of a capture.
///
/// There is one point for each second in which an operation touched the
/// main heap; its value is the fragmentation after the last such operation
/// of that second. Where two or more seconds passed without one, the value
/// before the gap is repeated at both ends of the gap.
pub fn get_fragmentation_timeline(data: &Data) -> (r: ResponseFragmentationTimeline)
    requires
        data.wf(),
    ensures
        r.xs@ == Timeline::after(data, data.operations.len() as nat).xs,
        r.fragmentation@ == Timeline::after(data, data.operations.len() as nat).fragmentation,
        r.xs.len() == r.fragmentation.len(),
        forall|i: int, j: int| 0 <= i <= j < r.xs.len() ==> r.xs[i] <= r.xs[j],
{
    let origin: u64 = data.initial_timestamp.as_secs();
    let mut xs: Vec<u64> = Vec::new();
    let mut fragmentation: Vec<u64> = Vec::new();
    let mut last: Option<u64> = None;
    let mut replay = Replay::new();
    let mut i: usize = 0;
    while i < data.operations.len()
        invariant
            data.wf(),
            origin == data.initial_timestamp.secs(),
            0 <= i <= data.operations.len(),
            replay.holds(Timeline::after(data, i as nat).space, i as int),
            last == Timeline::after(data, i as nat).second,
            xs@ == Timeline::after(data, i as nat).xs,
            fragmentation@ == Timeline::after(data, i as nat).fragmentation,
            Timeline::after(data, i as nat).tidy(origin),
            last matches Some(before) ==> forall|j: int|
                i <= j < data.operations.len() ==> before <= data.operation_timestamp(
                    #[trigger] data.operations[j],
                ).secs(),
        decreases data.operations.len() - i,
    {
        let operation = data.operations[i];
        let ghost before = Timeline::after(data, i as nat);
        assert(data.operation_wf(data.operations[i as int]));
        let moment = replay.apply(data, operation, Ghost(before.space), Ghost(i as int));
        match moment {
            Some(timestamp) => {
                let ghost applied = Timeline { space: before.space.apply(data, operation), ..before };
                let second: u64 = timestamp.as_secs();
                let value: u64 = replay.fragmentation(Ghost(applied.space));
                assert(data.covers(timestamp));
                assert(last matches Some(earlier) ==> earlier <= second) by {
                    assert(data.operations[i as int] == operation);
                }
                record(&mut xs, &mut fragmentation, last, origin, second, value, Ghost(applied));
                last = Some(second);
                assert forall|j: int| i + 1 <= j < data.operations.len() implies second
                    <= data.operation_timestamp(#[trigger] data.operations[j]).secs() by {
                    assert(data.operation_timestamp(data.operations[i as int]).usecs
                        <= data.operation_timestamp(data.operations[j]).usecs);
                }
            },
            None => {},
        }
        i += 1;
    }
    ResponseFragmentationTimeline { xs, fragmentation }
}

} // verus!
