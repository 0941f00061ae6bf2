//! What the script front-end counts: the numbers that tell apart the
//! choices and rules that a script builds.

use vstd::prelude::*;

verus! {

/// A counter that hands out the numbers 1, 2, 3, and so on, one by one. It
/// belongs to one evaluation of a script.
pub struct Nonce {
    pub last: usize,
}

impl Nonce {
    /// A counter that has handed out nothing yet.
    pub fn new() -> (nonce: Self)
        ensures
            nonce.last == 0,
    {
        Nonce { last: 0 }
    }

    /// The next number: one more than the last one.
    pub fn next_index(&mut self) -> (index: usize)
        requires
            old(self).last < usize::MAX,
        ensures
            index == old(self).last + 1,
            final(self).last == index,
    {
        self.last = self.last + 1;
        self.last
    }
}

} // verus!
