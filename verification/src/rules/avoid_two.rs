//! The policy that leaves out two anchors at once: one counted from the
//! newest entry of the history, one from the entry before it.

use vstd::prelude::*;
use crate::rules::Choice;
use crate::rules::choice::{AvoidChoice, avoid_index, skip_offset};
use crate::rules::ring::{lemma_ring_add_injective, ring_add, ring_step};
use crate::rules::rng::{RuleRng, uniform_below};

verus! {

/// The number of draws after which the policy stops asking its generator
/// and takes the first anchor that passes instead.
pub const MAX_DRAWS: u64 = 0xFFFF_FFFF_FFFF_FFFF;

/// The entry before the newest one, or the newest itself where the history
/// holds no other.
pub open spec fn previous_entry(history: Seq<usize>) -> usize {
    if history.len() > 1 {
        history[1]
    } else {
        history[0]
    }
}

/// The anchor that a draw leads to, if it passes: the draw never leads to
/// the anchor `diff` places after `current`, and it passes unless it leads
/// to the anchor `diff2` places after `last`.
pub open spec fn avoid_two_index(
    current: int,
    last: int,
    drawn: int,
    diff: int,
    diff2: int,
    len: int,
) -> Option<int> {
    let index = avoid_index(current, drawn, diff, len);
    if index != ring_add(last, diff2, len) {
        Some(index)
    } else {
        None
    }
}

/// Whether some draw passes.
pub open spec fn avoid_two_open(current: int, last: int, diff: int, diff2: int, len: int) -> bool {
    exists|drawn: int|
        0 <= drawn < len - 1 && (#[trigger] avoid_two_index(
            current,
            last,
            drawn,
            diff,
            diff2,
            len,
        )) is Some
}

/// The least draw from `from` on that passes, or `len - 1` where none
/// does.
pub open spec fn first_passing(
    current: int,
    last: int,
    diff: int,
    diff2: int,
    len: int,
    from: int,
) -> int
    decreases len - 1 - from,
{
    if from >= len - 1 {
        len - 1
    } else if avoid_two_index(current, last, from, diff, diff2, len) is Some {
        from
    } else {
        first_passing(current, last, diff, diff2, len, from + 1)
    }
}

/// What at most `draws` draws from `state` find: the anchor of the first
/// draw that passes, if there is one among them, and the state after the
/// last draw made.
pub open spec fn avoid_two_search(
    state: Seq<u64>,
    current: int,
    last: int,
    diff: int,
    diff2: int,
    len: int,
    draws: nat,
) -> (Option<int>, Seq<u64>)
    decreases draws,
{
    if draws == 0 {
        (None, state)
    } else {
        let (drawn, next) = uniform_below(state, (len - 1) as u64);
        match avoid_two_index(current, last, drawn as int, diff, diff2, len) {
            Some(index) => (Some(index), next),
            None => avoid_two_search(next, current, last, diff, diff2, len, (draws - 1) as nat),
        }
    }
}

/// On a ring of three or more anchors some draw always passes: two draws
/// lead to two anchors, and only one anchor is left out by the older entry.
pub proof fn lemma_avoid_two_open(current: int, last: int, diff: int, diff2: int, len: int)
    requires
        len >= 3,
    ensures
        avoid_two_open(current, last, diff, diff2, len),
{
    let excluded = diff % len;
    vstd::arithmetic::div_mod::lemma_mod_bound(diff, len);
    let a = skip_offset(0, excluded);
    let b = skip_offset(1, excluded);
    if avoid_two_index(current, last, 0, diff, diff2, len) is None && avoid_two_index(
        current,
        last,
        1,
        diff,
        diff2,
        len,
    ) is None {
        lemma_ring_add_injective(current, a, b, len);
    }
}

/// Every anchor but the one `diff` places after the newest, drawn again
/// until it is not the one `diff2` places after the entry before.
pub struct AvoidTwoChoice {
    pub rng: RuleRng,
    pub diff: isize,
    pub diff2: isize,
}

impl AvoidTwoChoice {
    /// A policy that leaves out the anchor `diff` places after the newest
    /// and the anchor `diff2` places after the one before, with a generator
    /// of its own, seeded by the operating system.
    pub fn new(diff: isize, diff2: isize) -> (choice: Self)
        ensures
            choice.diff == diff,
            choice.diff2 == diff2,
            choice.rng.fresh(),
    {
        AvoidTwoChoice { rng: RuleRng::from_entropy(), diff, diff2 }
    }

    /// The anchor that the draw `drawn` stands for after `current`, if it
    /// passes. An anchor that passes is neither of the two left out.
    pub fn pick(
        &self,
        current: usize,
        last: usize,
        drawn: usize,
        len: usize,
    ) -> (index: Option<usize>)
        requires
            len >= 2,
            drawn < len - 1,
        ensures
            match avoid_two_index(
                current as int,
                last as int,
                drawn as int,
                self.diff as int,
                self.diff2 as int,
                len as int,
            ) {
                Some(i) => index == Some(i as usize) && i < len,
                None => index is None,
            },
            index matches Some(i) ==> {
                &&& i != ring_add(current as int, self.diff as int, len as int)
                &&& i != ring_add(last as int, self.diff2 as int, len as int)
            },
    {
        let first = AvoidChoice::pick_with(self.diff, current, drawn, len);
        let second: usize = ring_step(last, self.diff2 as i128, len);
        if first != second {
            Some(first)
        } else {
            None
        }
    }

    /// The anchor of the least draw that passes.
    fn first_open(&self, current: usize, last: usize, len: usize) -> (index: usize)
        requires
            len >= 2,
            avoid_two_open(
                current as int,
                last as int,
                self.diff as int,
                self.diff2 as int,
                len as int,
            ),
        ensures
            index == avoid_index(
                current as int,
                first_passing(
                    current as int,
                    last as int,
                    self.diff as int,
                    self.diff2 as int,
                    len as int,
                    0,
                ),
                self.diff as int,
                len as int,
            ),
            index < len,
            index != ring_add(current as int, self.diff as int, len as int),
            index != ring_add(last as int, self.diff2 as int, len as int),
    {
        let mut drawn: usize = 0;
        while drawn < len - 1
            invariant
                len >= 2,
                drawn <= len - 1,
                forall|j: int|
                    0 <= j < drawn ==> (#[trigger] avoid_two_index(
                        current as int,
                        last as int,
                        j,
                        self.diff as int,
                        self.diff2 as int,
                        len as int,
                    )) is None,
                first_passing(
                    current as int,
                    last as int,
                    self.diff as int,
                    self.diff2 as int,
                    len as int,
                    0,
                ) == first_passing(
                    current as int,
                    last as int,
                    self.diff as int,
                    self.diff2 as int,
                    len as int,
                    drawn as int,
                ),
            decreases len - 1 - drawn,
        {
            match self.pick(current, last, drawn, len) {
                Some(index) => {
                    return index;
                },
                None => {},
            }
            drawn += 1;
        }
        proof {
            assert(false);
        }
        current
    }
}

impl Default for AvoidTwoChoice {
    fn default() -> (choice: Self)
        ensures
            choice.diff == 0,
            choice.diff2 == 0,
            choice.rng.fresh(),
    {
        AvoidTwoChoice::new(0, 0)
    }
}

impl Clone for AvoidTwoChoice {
    /// The same policy with a generator that starts anew from the identity
    /// of this one.
    fn clone(&self) -> (copy: Self)
        ensures
            copy.diff == self.diff,
            copy.diff2 == self.diff2,
            copy.rng.cloned_from(&self.rng),
    {
        AvoidTwoChoice { rng: self.rng.clone(), diff: self.diff, diff2: self.diff2 }
    }
}

impl Choice for AvoidTwoChoice {
    open spec fn admits(&self, history: Seq<usize>, len: usize) -> bool {
        &&& len >= 2
        &&& history.len() >= 1
        &&& avoid_two_open(
            history[0] as int,
            previous_entry(history) as int,
            self.diff as int,
            self.diff2 as int,
            len as int,
        )
    }

    open spec fn bound(&self, len: usize) -> nat {
        len as nat
    }

    open spec fn generators(&self) -> Seq<RuleRng> {
        seq![self.rng]
    }

    fn accepts(&self, history: &[usize], len: usize) -> (ok: bool) {
        if len < 2 || history.len() < 1 {
            return false;
        }
        let current: usize = history[0];
        let last: usize = if history.len() > 1 {
            history[1]
        } else {
            current
        };
        if len >= 3 {
            proof {
                lemma_avoid_two_open(
                    current as int,
                    last as int,
                    self.diff as int,
                    self.diff2 as int,
                    len as int,
                );
            }
            return true;
        }
        let only = self.pick(current, last, 0, len);
        proof {
            let open = avoid_two_open(
                current as int,
                last as int,
                self.diff as int,
                self.diff2 as int,
                len as int,
            );
            if only is Some {
                assert(avoid_two_index(
                    current as int,
                    last as int,
                    0,
                    self.diff as int,
                    self.diff2 as int,
                    len as int,
                ) is Some);
            }
        }
        only.is_some()
    }

    fn index_bound(&self, len: usize) -> (limit: Option<usize>) {
        Some(len)
    }

    /// The index is the anchor of the first draw that passes, or, after
    /// `MAX_DRAWS` draws that did not, the anchor of the least draw that
    /// does. It is neither of the two anchors left out.
    open spec fn picked(&self, history: Seq<usize>, len: usize, index: usize, after: &Self) -> bool {
        let current = history[0] as int;
        let last = previous_entry(history) as int;
        let diff = self.diff as int;
        let diff2 = self.diff2 as int;
        let (found, state) = avoid_two_search(
            self.rng.state(),
            current,
            last,
            diff,
            diff2,
            len as int,
            MAX_DRAWS as nat,
        );
        &&& after.diff == self.diff
        &&& after.diff2 == self.diff2
        &&& after.rng.identity() == self.rng.identity()
        &&& after.rng.state() == state
        &&& index == match found {
            Some(i) => i,
            None => avoid_index(
                current,
                first_passing(current, last, diff, diff2, len as int, 0),
                diff,
                len as int,
            ),
        }
        &&& index != ring_add(current, diff, len as int)
        &&& index != ring_add(last, diff2, len as int)
    }

    fn choose_point(&mut self, history: &[usize], len: usize) -> (index: usize)
    {
        let current: usize = history[0];
        let last: usize = if history.len() > 1 {
            history[1]
        } else {
            current
        };
        let mut draws: u64 = 0;
        while draws < MAX_DRAWS
            invariant
                len >= 2,
                draws <= MAX_DRAWS,
                history@.len() >= 1,
                current == history@[0],
                last == previous_entry(history@),
                old(self).admits(history@, len),
                self.diff == old(self).diff,
                self.diff2 == old(self).diff2,
                self.rng.identity() == old(self).rng.identity(),
                avoid_two_search(
                    old(self).rng.state(),
                    current as int,
                    last as int,
                    self.diff as int,
                    self.diff2 as int,
                    len as int,
                    MAX_DRAWS as nat,
                ) == avoid_two_search(
                    self.rng.state(),
                    current as int,
                    last as int,
                    self.diff as int,
                    self.diff2 as int,
                    len as int,
                    (MAX_DRAWS - draws) as nat,
                ),
            decreases MAX_DRAWS - draws,
        {
            let drawn: usize = self.rng.below((len - 1) as u64) as usize;
            match self.pick(current, last, drawn, len) {
                Some(index) => {
                    return index;
                },
                None => {},
            }
            draws += 1;
        }
        self.first_open(current, last, len)
    }

    fn reseed(&mut self, seed: &[u8; 32])
        ensures
            final(self).diff == old(self).diff,
            final(self).diff2 == old(self).diff2,
            final(self).rng.reseeded_from(&old(self).rng, seed@),
    {
        self.rng.reseed(seed);
    }
}

} // verus!
