//! Identifier generation.
//!
//! A generator hands out unique, strictly increasing 64-bit identifiers for
//! nodes, elements and layout entries. Identifiers are generated once, never
//! reused and never mutated.

use vstd::prelude::*;

verus! {

/// Generator of unique, strictly increasing 64-bit identifiers.
///
/// The view of a generator is the identifier that the next call to `next`
/// returns.
pub struct IdGenerator {
    counter: u64,
}

impl View for IdGenerator {
    type V = u64;

    closed spec fn view(&self) -> u64 {
        self.counter
    }
}

impl IdGenerator {
    /// Creates a generator whose first identifier is 1.
    pub fn new() -> (r: IdGenerator)
        ensures
            r@ == 1,
    {
        IdGenerator { counter: 1 }
    }

    /// Creates a generator whose first identifier is `start`.
    pub fn with_start(start: u64) -> (r: IdGenerator)
        ensures
            r@ == start,
    {
        IdGenerator { counter: start }
    }

    /// Returns the next identifier and advances the counter.
    pub fn next(&mut self) -> (r: u64)
        requires
            old(self)@ < u64::MAX,
        ensures
            r == old(self)@,
            final(self)@ == old(self)@ + 1,
    {
        let id = self.counter;
        self.counter = self.counter + 1;
        id
    }

    /// Returns the identifier the next call to `next` would return, without
    /// advancing the counter.
    pub fn current(&self) -> (r: u64)
        ensures
            r == self@,
    {
        self.counter
    }

    /// Resets the counter so that the next identifier is `value`.
    pub fn reset(&mut self, value: u64)
        ensures
            final(self)@ == value,
    {
        self.counter = value;
    }
}

impl Default for IdGenerator {
    /// The default generator starts at 1, like `new`.
    fn default() -> (r: IdGenerator)
        ensures
            r@ == 1,
    {
        IdGenerator::new()
    }
}

/// One call of `next`: from state `pre` it returns `id` and leaves state
/// `post`.
pub open spec fn next_step(pre: IdGenerator, post: IdGenerator, id: u64) -> bool {
    id == pre@ && post@ == pre@ + 1
}

proof fn lemma_run_offset(states: Seq<IdGenerator>, ids: Seq<u64>, k: int)
    requires
        states.len() == ids.len() + 1,
        forall|m: int| 0 <= m < ids.len() ==> #[trigger] next_step(states[m], states[m + 1], ids[m]),
        0 <= k < ids.len(),
    ensures
        ids[k] == states[0]@ + k,
    decreases k,
{
    assert(next_step(states[k], states[k + 1], ids[k]));
    if k > 0 {
        lemma_run_offset(states, ids, k - 1);
        assert(next_step(states[k - 1], states[(k - 1) + 1], ids[k - 1]));
    }
}

/// Law: over any run of sequential calls to `next` (state `states[k]` yields
/// identifier `ids[k]` and leaves state `states[k + 1]`), the returned
/// identifiers are strictly increasing, and so pairwise distinct.
pub proof fn lemma_identifier_uniqueness(states: Seq<IdGenerator>, ids: Seq<u64>)
    requires
        states.len() == ids.len() + 1,
        forall|k: int| 0 <= k < ids.len() ==> #[trigger] next_step(states[k], states[k + 1], ids[k]),
    ensures
        forall|i: int, j: int| 0 <= i < j < ids.len() ==> ids[i] < ids[j],
        forall|i: int, j: int|
            0 <= i < ids.len() && 0 <= j < ids.len() && i != j ==> ids[i] != ids[j],
{
    assert forall|i: int, j: int| 0 <= i < j < ids.len() implies ids[i] < ids[j] by {
        lemma_run_offset(states, ids, i);
        lemma_run_offset(states, ids, j);
    }
}

} // verus!
