//! What is already known of the frames of a capture while one request is
//! being answered.

use vstd::prelude::*;
use ahash::AHashMap;
use crate::capture::FrameId;

verus! {

#[verifier::external_type_specification]
#[verifier::external_body]
#[verifier::reject_recursive_types(K)]
#[verifier::reject_recursive_types(V)]
#[verifier::reject_recursive_types(S)]
pub struct ExAHashMap<K, V, S>(AHashMap<K, V, S>);

#[verifier::external_type_specification]
#[verifier::external_body]
pub struct ExRandomState(ahash::RandomState);

/// The verdicts that a map of frames holds, by frame.
pub uninterp spec fn verdicts(map: AHashMap<FrameId, bool>) -> Map<FrameId, bool>;

/// An empty map, made with `AHashMap::new`.
#[verifier::external_body]
fn empty() -> (r: AHashMap<FrameId, bool>)
    ensures
        verdicts(r).dom() == Set::<FrameId>::empty(),
{
    AHashMap::new()
}

/// Looks a frame up with `AHashMap::get`: the verdict that was stored for
/// the frame last, if any was.
#[verifier::external_body]
fn lookup(map: &AHashMap<FrameId, bool>, frame: FrameId) -> (r: Option<bool>)
    ensures
        r == (if verdicts(*map).contains_key(frame) {
            Some(verdicts(*map)[frame])
        } else {
            None
        }),
{
    map.get(&frame).copied()
}

/// Stores a verdict with `AHashMap::insert`: it replaces the one that the
/// frame had, and leaves all other frames as they were.
#[verifier::external_body]
fn store(map: &mut AHashMap<FrameId, bool>, frame: FrameId, verdict: bool)
    ensures
        verdicts(*final(map)) == verdicts(*old(map)).insert(frame, verdict),
{
    map.insert(frame, verdict);
}

/// The verdicts reached so far, by frame, and how many times one had to be
/// worked out.
pub struct FrameCache {
    known: AHashMap<FrameId, bool>,
    evaluations: usize,
}

impl View for FrameCache {
    type V = Map<FrameId, bool>;

    closed spec fn view(&self) -> Map<FrameId, bool> {
        verdicts(self.known)
    }
}

impl FrameCache {
    /// How many times a verdict was worked out, not looked up.
    pub closed spec fn spec_evaluations(&self) -> usize {
        self.evaluations
    }

    /// The cache holds verdicts of frames below `frames` only, and one for
    /// each time that a verdict was worked out.
    pub open spec fn wf(&self, frames: nat) -> bool {
        &&& self@.dom().finite()
        &&& forall|frame: FrameId| self@.contains_key(frame) ==> frame < frames
        &&& self.spec_evaluations() == self@.dom().len()
    }

    pub fn new() -> (r: FrameCache)
        ensures
            r@ == Map::<FrameId, bool>::empty(),
            r.spec_evaluations() == 0,
            forall|frames: nat| r.wf(frames),
    {
        let known = empty();
        assert(verdicts(known) =~= Map::<FrameId, bool>::empty());
        FrameCache { known, evaluations: 0 }
    }

    /// How many times a verdict was worked out, not looked up.
    #[verifier::when_used_as_spec(spec_evaluations)]
    pub fn evaluations(&self) -> (r: usize)
        ensures
            r == self.spec_evaluations(),
    {
        self.evaluations
    }

    /// The verdict that is known of `frame`, if one is.
    pub fn get(&self, frame: FrameId) -> (r: Option<bool>)
        ensures
            r == (if self@.contains_key(frame) {
                Some(self@[frame])
            } else {
                None
            }),
    {
        lookup(&self.known, frame)
    }

    /// Notes a verdict that was worked out just now.
    pub(crate) fn insert(&mut self, frame: FrameId, verdict: bool, Ghost(frames): Ghost<nat>)
        requires
            old(self).wf(frames),
            frame < frames,
            frames <= usize::MAX,
            !old(self)@.contains_key(frame),
        ensures
            final(self).wf(frames),
            final(self)@ == old(self)@.insert(frame, verdict),
            final(self).spec_evaluations() == old(self).spec_evaluations() + 1,
    {
        proof {
            lemma_bounded_set_len(self@.dom().insert(frame), frames);
        }
        store(&mut self.known, frame, verdict);
        self.evaluations = self.evaluations + 1;
    }
}

/// A finite set of numbers below `bound` has at most `bound` members.
pub proof fn lemma_bounded_set_len(set: Set<usize>, bound: nat)
    requires
        set.finite(),
        forall|member: usize| set.contains(member) ==> member < bound,
    ensures
        set.len() <= bound,
    decreases bound,
{
    if bound == 0 {
        assert(set =~= Set::empty());
    } else {
        let top = (bound - 1) as usize;
        lemma_bounded_set_len(set.remove(top), (bound - 1) as nat);
    }
}

/// No more verdicts were worked out than there are frames: each frame that
/// a verdict was worked out for has an entry in the cache, and one only.
pub proof fn lemma_evaluations_bounded(cache: &FrameCache, frames: nat)
    requires
        cache.wf(frames),
    ensures
        cache.evaluations() <= frames,
{
    lemma_bounded_set_len(cache@.dom(), frames);
}

/// A cache that knows of frames of `scanned` alone has worked out no more
/// verdicts than there are different frames in `scanned`.
pub proof fn lemma_evaluations_within(cache: &FrameCache, frames: nat, scanned: Set<FrameId>)
    requires
        cache.wf(frames),
        scanned.finite(),
        forall|frame: FrameId| cache@.contains_key(frame) ==> scanned.contains(frame),
    ensures
        cache.evaluations() <= scanned.len(),
{
    vstd::set_lib::lemma_len_subset(cache@.dom(), scanned);
}

} // verus!
