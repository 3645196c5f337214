//! The captures that the server holds.

use std::sync::Arc;
use ahash::AHashMap;
use vstd::prelude::*;
use crate::capture::{Data, DataId};
use crate::text::{chars_of, decimal_width, digits_of, to_decimal};
use crate::timestamp::Timestamp;

verus! {

/// The captures that a map holds, by id.
pub uninterp spec fn captures(map: AHashMap<DataId, Arc<Data>>) -> Map<DataId, Arc<Data>>;

/// An empty map, made with `AHashMap::new`.
#[verifier::external_body]
fn empty() -> (r: AHashMap<DataId, Arc<Data>>)
    ensures
        captures(r).dom() == Set::<DataId>::empty(),
{
    AHashMap::new()
}

/// Asks `AHashMap::contains_key` whether a capture is held under an id.
#[verifier::external_body]
fn knows(map: &AHashMap<DataId, Arc<Data>>, id: DataId) -> (r: bool)
    ensures
        r == captures(*map).contains_key(id),
{
    map.contains_key(&id)
}

/// The capture that is held under an id, looked up with `AHashMap::get`.
#[verifier::external_body]
fn find<'a>(map: &'a AHashMap<DataId, Arc<Data>>, id: DataId) -> (r: Option<&'a Arc<Data>>)
    ensures
        match r {
            Some(data) => captures(*map).contains_key(id) && captures(*map)[id] == *data,
            None => !captures(*map).contains_key(id),
        },
{
    map.get(&id)
}

/// Holds a capture under an id with `AHashMap::insert`; no other capture
/// is touched.
#[verifier::external_body]
fn hold(map: &mut AHashMap<DataId, Arc<Data>>, id: DataId, data: Arc<Data>)
    ensures
        captures(*final(map)) == captures(*old(map)).insert(id, data),
{
    map.insert(id, data);
}

/// The captures that the server holds, and the order in which they came.
pub struct State {
    data: AHashMap<DataId, Arc<Data>>,
    data_ids: Vec<DataId>,
}

/// No capture is there under this id.
#[derive(Clone, Copy, Debug, PartialEq, Eq, Structural)]
pub struct NotFound;

impl NotFound {
    /// What the client is told.
    pub fn message(&self) -> (r: &'static str)
        ensures
            r@ == "data not found"@,
    {
        "data not found"
    }
}

/// The number that a text of digits stands for, if the text is one.
pub open spec fn decimal_value(text: Seq<char>) -> Option<int>
    decreases text.len(),
{
    if text.len() == 0 {
        None
    } else {
        match (digit_value(text.last()), text.len() == 1, decimal_value(text.drop_last())) {
            (Some(digit), true, _) => Some(digit),
            (Some(digit), false, Some(front)) => Some(front * 10 + digit),
            _ => None,
        }
    }
}

/// The number that a digit stands for.
pub open spec fn digit_value(ch: char) -> Option<int> {
    match ch {
        '0' => Some(0),
        '1' => Some(1),
        '2' => Some(2),
        '3' => Some(3),
        '4' => Some(4),
        '5' => Some(5),
        '6' => Some(6),
        '7' => Some(7),
        '8' => Some(8),
        '9' => Some(9),
        _ => None,
    }
}

fn digit(ch: char) -> (r: Option<u64>)
    ensures
        match r {
            Some(value) => digit_value(ch) == Some(value as int),
            None => digit_value(ch) is None,
        },
{
    match ch {
        '0' => Some(0),
        '1' => Some(1),
        '2' => Some(2),
        '3' => Some(3),
        '4' => Some(4),
        '5' => Some(5),
        '6' => Some(6),
        '7' => Some(7),
        '8' => Some(8),
        '9' => Some(9),
        _ => None,
    }
}

proof fn lemma_decimal_value_grows(text: Seq<char>)
    requires
        text.len() > 0,
    ensures
        decimal_value(text) matches Some(value) ==> value >= 0 && (decimal_value(
            text.drop_last(),
        ) matches Some(front) ==> front <= value),
    decreases text.len(),
{
    if text.len() > 1 {
        lemma_decimal_value_grows(text.drop_last());
    }
}

/// The id that a text names: the text is made of digits, and the number
/// that they stand for is an id.
pub open spec fn id_named_by(text: Seq<char>) -> Option<DataId> {
    match decimal_value(text) {
        Some(value) if value <= u64::MAX => Some(value as u64),
        _ => None,
    }
}

/// Reads the id of a capture.
pub fn parse_data_id(text: &str) -> (r: Option<DataId>)
    ensures
        r == id_named_by(text@),
{
    let chars = chars_of(text);
    if chars.len() == 0 {
        return None;
    }
    let mut value: u64 = 0;
    let mut i: usize = 0;
    while i < chars.len()
        invariant
            0 <= i <= chars.len(),
            chars.len() > 0,
            chars@ == text@,
            i > 0 ==> decimal_value(chars@.take(i as int)) == Some(value as int),
            i == 0 ==> value == 0,
        decreases chars.len() - i,
    {
        assert(chars@.take(i + 1).drop_last() =~= chars@.take(i as int));
        let ghost upto = chars@.take(i + 1);
        match digit(chars[i]) {
            Some(digit) => {
                if value > (u64::MAX - digit) / 10 {
                    proof {
                        assert(upto.last() == chars[i as int]);
                        assert(i > 0);
                        assert(decimal_value(upto) == Some(value * 10 + digit));
                        lemma_prefix_too_large(chars@, i + 1);
                    }
                    return None;
                }
                assert(upto.last() == chars[i as int]);
                value = value * 10 + digit;
            },
            None => {
                proof {
                    assert(upto.last() == chars[i as int]);
                    assert(decimal_value(upto) is None);
                    lemma_prefix_no_number(chars@, i + 1);
                }
                return None;
            },
        }
        i += 1;
    }
    assert(chars@.take(chars.len() as int) =~= chars@);
    Some(value)
}

/// The id of a capture, written to the base ten, is read back as that id:
/// the address under which a capture is told of leads to the capture.
pub proof fn lemma_id_reads_back(id: DataId)
    ensures
        id_named_by(digits_of(id, 10, decimal_width(id), false)) == Some(id),
{
    lemma_digits_read_back(id);
}

proof fn lemma_digits_read_back(value: u64)
    ensures
        decimal_value(digits_of(value, 10, decimal_width(value), false)) == Some(value as int),
        digits_of(value, 10, decimal_width(value), false).len() == decimal_width(value),
    decreases value,
{
    let text = digits_of(value, 10, decimal_width(value), false);
    let last = crate::text::digit_of((value % 10) as u8, false);
    assert(digit_value(last) == Some((value % 10) as int));
    if value < 10 {
        reveal_with_fuel(digits_of, 2);
        assert(text =~= seq![last]);
    } else {
        let front = digits_of(value / 10, 10, decimal_width(value / 10), false);
        lemma_digits_read_back(value / 10);
        assert(text == front.push(last));
        assert(text.drop_last() =~= front);
        assert(text.last() == last);
    }
}

/// A text is no number if a part at its front is none.
proof fn lemma_prefix_no_number(text: Seq<char>, upto: int)
    requires
        0 < upto <= text.len(),
        decimal_value(text.take(upto)) is None,
    ensures
        decimal_value(text) is None,
    decreases text.len() - upto,
{
    if upto < text.len() {
        assert(text.take(upto + 1).drop_last() =~= text.take(upto));
        lemma_prefix_no_number(text, upto + 1);
    } else {
        assert(text.take(upto) =~= text);
    }
}

/// A text stands for no id if a part at its front stands for more than one.
proof fn lemma_prefix_too_large(text: Seq<char>, upto: int)
    requires
        0 < upto <= text.len(),
        decimal_value(text.take(upto)) matches Some(value) ==> value > u64::MAX,
    ensures
        id_named_by(text) is None,
    decreases text.len() - upto,
{
    if upto < text.len() {
        assert(text.take(upto + 1).drop_last() =~= text.take(upto));
        lemma_decimal_value_grows(text.take(upto + 1));
        lemma_prefix_too_large(text, upto + 1);
    } else {
        assert(text.take(upto) =~= text);
    }
}

impl State {
    /// The captures that are held, by id.
    pub closed spec fn held(&self) -> Map<DataId, Arc<Data>> {
        captures(self.data)
    }

    /// The ids of the captures that are held, in the order in which they
    /// came.
    pub closed spec fn ids(&self) -> Seq<DataId> {
        self.data_ids@
    }

    /// Each id that is listed has a capture, and that capture has this id.
    pub open spec fn wf(&self) -> bool {
        &&& forall|i: int| 0 <= i < self.ids().len() ==> self.held().contains_key(#[trigger] self.ids()[i])
        &&& forall|id: DataId| self.held().contains_key(id) ==> self.ids().contains(id)
        &&& forall|id: DataId| self.held().contains_key(id) ==> (#[trigger] self.held()[id]).id == id
    }

    pub fn new() -> (r: State)
        ensures
            r.wf(),
            r.ids() == Seq::<DataId>::empty(),
    {
        State { data: empty(), data_ids: Vec::new() }
    }

    /// Takes a capture in, unless one with its id is held already.
    pub fn add_data(&mut self, data: Data)
        requires
            old(self).wf(),
        ensures
            final(self).wf(),
            old(self).held().contains_key(data.id) ==> final(self).held() == old(self).held(),
            old(self).held().contains_key(data.id) ==> final(self).ids() == old(self).ids(),
            !old(self).held().contains_key(data.id) ==> final(self).ids() == old(self).ids().push(data.id),
            !old(self).held().contains_key(data.id) ==> final(self).held().dom()
                == old(self).held().dom().insert(data.id),
            !old(self).held().contains_key(data.id) ==> *(final(self).held()[data.id]) == data,
            forall|id: DataId|
                old(self).held().contains_key(id) ==> final(self).held().contains_key(id)
                    && final(self).held()[id] == old(self).held()[id],
    {
        if knows(&self.data, data.id) {
            return ;
        }
        let id: DataId = data.id;
        self.data_ids.push(id);
        hold(&mut self.data, id, Arc::new(data));
        proof {
            assert forall|i: int| 0 <= i < self.ids().len() implies self.held().contains_key(
                #[trigger] self.ids()[i],
            ) by {
                if i < old(self).ids().len() {
                    assert(self.ids()[i] == old(self).ids()[i]);
                }
            }
            assert forall|other: DataId| self.held().contains_key(other) implies self.ids().contains(
                other,
            ) by {
                if other == id {
                    assert(self.ids()[self.ids().len() - 1] == id);
                } else {
                    assert(old(self).ids().contains(other));
                    let at = choose|at: int| 0 <= at < old(self).ids().len() && old(self).ids()[at] == other;
                    assert(self.ids()[at] == other);
                }
            }
            assert(final(self).held().dom() =~= old(self).held().dom().insert(data.id));
        }
    }

    /// The id of the capture that came last.
    pub fn last_id(&self) -> (r: Option<DataId>)
        ensures
            r == if self.ids().len() > 0 {
                Some(self.ids().last())
            } else {
                None
            },
    {
        if self.data_ids.len() > 0 {
            Some(self.data_ids[self.data_ids.len() - 1])
        } else {
            None
        }
    }

    /// The id that a request means by `segment`: the id of the capture that
    /// came last where the segment is the word `last`, and else the id that
    /// the segment names, if a capture is held under it.
    pub open spec fn meant_by(&self, segment: Seq<char>) -> Option<DataId> {
        if segment == "last"@ {
            if self.ids().len() > 0 {
                Some(self.ids().last())
            } else {
                None
            }
        } else {
            match id_named_by(segment) {
                Some(id) if self.held().contains_key(id) => Some(id),
                _ => None,
            }
        }
    }

    /// Finds the id of the capture that a request means.
    pub fn get_data_id(&self, segment: &str) -> (r: Result<DataId, NotFound>)
        ensures
            match r {
                Ok(id) => self.meant_by(segment@) == Some(id),
                Err(_) => self.meant_by(segment@) is None,
            },
    {
        if crate::text::same_text(segment, "last") {
            return match self.last_id() {
                Some(id) => Ok(id),
                None => Err(NotFound),
            };
        }
        let id: DataId = match parse_data_id(segment) {
            Some(id) => id,
            None => {
                return Err(NotFound);
            },
        };
        if !knows(&self.data, id) {
            return Err(NotFound);
        }
        Ok(id)
    }

    /// Finds the capture that a request means.
    pub fn get_data(&self, segment: &str) -> (r: Result<&Arc<Data>, NotFound>)
        requires
            self.wf(),
        ensures
            match r {
                Ok(data) => self.meant_by(segment@) == Some(data.id) && self.held()[data.id] == *data,
                Err(_) => self.meant_by(segment@) is None,
            },
    {
        let id: DataId = match self.get_data_id(segment) {
            Ok(id) => id,
            Err(error) => {
                return Err(error);
            },
        };
        match find(&self.data, id) {
            Some(data) => Ok(data),
            None => {
                proof {
                    if segment@ == "last"@ {
                        assert(self.held().contains_key(self.ids()[self.ids().len() - 1]));
                    }
                }
                Err(NotFound)
            },
        }
    }

    /// The capture that is held under `id`, if there is one.
    pub fn find(&self, id: DataId) -> (r: Option<&Arc<Data>>)
        ensures
            match r {
                Some(data) => self.held().contains_key(id) && self.held()[id] == *data,
                None => !self.held().contains_key(id),
            },
    {
        find(&self.data, id)
    }

    /// The ids of the captures that are held, in the order in which they
    /// came.
    pub fn data_ids(&self) -> (r: &Vec<DataId>)
        ensures
            r@ == self.ids(),
    {
        &self.data_ids
    }
}

/// What an answer tells of a capture as a whole.
#[derive(Debug)]
pub struct ResponseMetadata {
    pub id: String,
    pub executable: String,
    pub architecture: String,
    pub final_allocated: u64,
    pub final_allocated_count: u64,
    pub runtime: Timestamp,
    pub unique_backtrace_count: u64,
    pub maximum_backtrace_depth: u32,
    pub timestamp: Timestamp,
}

impl ResponseMetadata {
    /// The record tells of `data`: its id written to the base ten, what was
    /// still allocated at its end, and how long it ran.
    pub open spec fn tells(&self, data: &Data) -> bool {
        &&& self.id@ == digits_of(data.id, 10, decimal_width(data.id), false)
        &&& self.executable@ == data.executable@
        &&& self.architecture@ == data.architecture@
        &&& self.final_allocated == data.total_allocated - data.total_freed
        &&& self.final_allocated_count == data.total_allocated_count - data.total_freed_count
        &&& self.runtime.usecs == data.last_timestamp.usecs - data.initial_timestamp.usecs
        &&& self.unique_backtrace_count == data.backtraces.len()
        &&& self.maximum_backtrace_depth == data.maximum_backtrace_depth
        &&& self.timestamp == data.initial_timestamp
    }

    pub fn new(data: &Data) -> (r: ResponseMetadata)
        requires
            data.wf(),
        ensures
            r.tells(data),
    {
        ResponseMetadata {
            id: to_decimal(data.id),
            executable: data.executable.clone(),
            architecture: data.architecture.clone(),
            final_allocated: data.total_allocated - data.total_freed,
            final_allocated_count: data.total_allocated_count - data.total_freed_count,
            runtime: data.last_timestamp.since(data.initial_timestamp),
            unique_backtrace_count: data.backtraces.len() as u64,
            maximum_backtrace_depth: data.maximum_backtrace_depth,
            timestamp: data.initial_timestamp,
        }
    }
}

} // verus!
