//! Monotonic id generation for dataflow handles, coroutines and lowered
//! blocks: a plain counter handed out in a single increasing sequence.

use vstd::prelude::*;

verus! {

/// A monotonic counter. Every call of [`Generator::get`] hands out the
/// current value and advances by one, so the ids produced by one generator
/// are pairwise distinct and increase in the order they were drawn.
pub struct Generator {
    counter: u64,
}

impl Generator {
    /// The next id this generator will hand out.
    pub closed spec fn spec_counter(&self) -> u64 {
        self.counter
    }

    pub fn new() -> (r: Self)
        ensures
            r.spec_counter() == 0,
    {
        Self { counter: 0 }
    }

    /// Draw the next id: returns the current counter and advances it.
    pub fn get(&mut self) -> (r: u64)
        requires
            old(self).spec_counter() < u64::MAX,
        ensures
            r == old(self).spec_counter(),
            final(self).spec_counter() == old(self).spec_counter() + 1,
    {
        let id = self.counter;
        self.counter = self.counter + 1;
        id
    }
}

} // verus!
