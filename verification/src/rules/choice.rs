//! The policies that pick an anchor from the newest entry of the history
//! alone, on a ring of `len` anchors.

use vstd::prelude::*;
use crate::rules::Choice;
use crate::rules::ring::{
    lemma_ring_add_injective,
    lemma_ring_add_wraps,
    ring_add,
    ring_step,
};
use crate::rules::rng::{RuleRng, fair_coin, uniform_below, uniform_between};

verus! {

/// Every anchor with the same chance.
pub struct DefaultChoice {
    pub rng: RuleRng,
}

impl DefaultChoice {
    /// A policy with a generator of its own, seeded by the operating
    /// system.
    pub fn new() -> (choice: Self)
        ensures
            choice.rng.fresh(),
    {
        DefaultChoice { rng: RuleRng::from_entropy() }
    }
}

impl Default for DefaultChoice {
    fn default() -> (choice: Self)
        ensures
            choice.rng.fresh(),
    {
        DefaultChoice::new()
    }
}

impl Clone for DefaultChoice {
    /// The same policy with a generator that starts anew from the identity
    /// of this one.
    fn clone(&self) -> (copy: Self)
        ensures
            copy.rng.cloned_from(&self.rng),
    {
        DefaultChoice { rng: self.rng.clone() }
    }
}

impl Choice for DefaultChoice {
    open spec fn admits(&self, history: Seq<usize>, len: usize) -> bool {
        len >= 1
    }

    open spec fn bound(&self, len: usize) -> nat {
        len as nat
    }

    open spec fn generators(&self) -> Seq<RuleRng> {
        seq![self.rng]
    }

    fn accepts(&self, history: &[usize], len: usize) -> (ok: bool) {
        len >= 1
    }

    fn index_bound(&self, len: usize) -> (limit: Option<usize>) {
        Some(len)
    }

    /// The index is what the generator draws below `len`.
    open spec fn picked(&self, history: Seq<usize>, len: usize, index: usize, after: &Self) -> bool {
        &&& after.rng.identity() == self.rng.identity()
        &&& (index as u64, after.rng.state()) == uniform_below(self.rng.state(), len as u64)
    }

    fn choose_point(&mut self, history: &[usize], len: usize) -> (index: usize) {
        self.rng.below(len as u64) as usize
    }

    fn reseed(&mut self, seed: &[u8; 32])
        ensures
            final(self).rng.reseeded_from(&old(self).rng, seed@),
    {
        self.rng.reseed(seed);
    }
}

/// The offset that a draw stands for when one offset is left out: draws
/// from `excluded` on stand for the offset one higher.
pub open spec fn skip_offset(drawn: int, excluded: int) -> int {
    if drawn >= excluded {
        drawn + 1
    } else {
        drawn
    }
}

/// The anchor that a draw below `len - 1` leads to from `current` when the
/// anchor `diff` places after `current` is left out.
pub open spec fn avoid_index(current: int, drawn: int, diff: int, len: int) -> int {
    ring_add(current, skip_offset(drawn, diff % len), len)
}

/// Every anchor but the one that lies `diff` places after the newest, each
/// with the same chance.
pub struct AvoidChoice {
    pub rng: RuleRng,
    pub diff: isize,
}

impl AvoidChoice {
    /// A policy that leaves out the anchor `diff` places after the newest,
    /// with a generator of its own, seeded by the operating system.
    pub fn new(diff: isize) -> (choice: Self)
        ensures
            choice.diff == diff,
            choice.rng.fresh(),
    {
        AvoidChoice { rng: RuleRng::from_entropy(), diff }
    }

    /// The anchor that the draw `drawn` stands for after `current`. It is
    /// never the one that the policy leaves out.
    pub fn pick(&self, current: usize, drawn: usize, len: usize) -> (index: usize)
        requires
            len >= 2,
            drawn < len - 1,
        ensures
            index == avoid_index(current as int, drawn as int, self.diff as int, len as int),
            index < len,
            index != ring_add(current as int, self.diff as int, len as int),
    {
        AvoidChoice::pick_with(self.diff, current, drawn, len)
    }

    /// `pick` for a policy that leaves out the anchor `diff` places after
    /// `current`.
    pub(crate) fn pick_with(diff: isize, current: usize, drawn: usize, len: usize) -> (index: usize)
        requires
            len >= 2,
            drawn < len - 1,
        ensures
            index == avoid_index(current as int, drawn as int, diff as int, len as int),
            index < len,
            index != ring_add(current as int, diff as int, len as int),
    {
        let excluded: usize = ring_step(0, diff as i128, len);
        let offset: usize = if drawn >= excluded {
            drawn + 1
        } else {
            drawn
        };
        let index = ring_step(current, offset as i128, len);
        proof {
            let c = current as int;
            let n = len as int;
            lemma_ring_add_wraps(c, diff as int, n);
            if index == ring_add(c, diff as int, n) {
                lemma_ring_add_injective(c, offset as int, excluded as int, n);
            }
        }
        index
    }
}

impl Default for AvoidChoice {
    fn default() -> (choice: Self)
        ensures
            choice.diff == 0,
            choice.rng.fresh(),
    {
        AvoidChoice::new(0)
    }
}

impl Clone for AvoidChoice {
    /// The same policy with a generator that starts anew from the identity
    /// of this one.
    fn clone(&self) -> (copy: Self)
        ensures
            copy.diff == self.diff,
            copy.rng.cloned_from(&self.rng),
    {
        AvoidChoice { rng: self.rng.clone(), diff: self.diff }
    }
}

impl Choice for AvoidChoice {
    open spec fn admits(&self, history: Seq<usize>, len: usize) -> bool {
        len >= 2 && history.len() >= 1
    }

    open spec fn bound(&self, len: usize) -> nat {
        len as nat
    }

    open spec fn generators(&self) -> Seq<RuleRng> {
        seq![self.rng]
    }

    fn accepts(&self, history: &[usize], len: usize) -> (ok: bool) {
        len >= 2 && history.len() >= 1
    }

    fn index_bound(&self, len: usize) -> (limit: Option<usize>) {
        Some(len)
    }

    /// The index is the anchor that a draw below `len - 1` stands for, and
    /// never the one `diff` places after the newest.
    open spec fn picked(&self, history: Seq<usize>, len: usize, index: usize, after: &Self) -> bool {
        let (drawn, state) = uniform_below(self.rng.state(), (len - 1) as u64);
        &&& after.diff == self.diff
        &&& after.rng.identity() == self.rng.identity()
        &&& after.rng.state() == state
        &&& index == avoid_index(history[0] as int, drawn as int, self.diff as int, len as int)
        &&& index != ring_add(history[0] as int, self.diff as int, len as int)
    }

    fn choose_point(&mut self, history: &[usize], len: usize) -> (index: usize) {
        let drawn: usize = self.rng.below((len - 1) as u64) as usize;
        self.pick(history[0], drawn, len)
    }

    fn reseed(&mut self, seed: &[u8; 32])
        ensures
            final(self).diff == old(self).diff,
            final(self).rng.reseeded_from(&old(self).rng, seed@),
    {
        self.rng.reseed(seed);
    }
}

/// The anchor `dist` places after `current` on a ring of `len` anchors, or
/// `dist` places before it.
pub open spec fn neighbor_index(current: int, dist: int, forward: bool, len: int) -> int {
    if forward {
        ring_add(current, dist, len)
    } else {
        ring_add(current, -dist, len)
    }
}

/// One of the two anchors `dist` places away from the newest, by the flip
/// of a coin.
pub struct NeighborChoice {
    pub rng: RuleRng,
    pub dist: usize,
}

impl NeighborChoice {
    /// A policy that steps `dist` places, with a generator of its own,
    /// seeded by the operating system.
    pub fn new(dist: usize) -> (choice: Self)
        ensures
            choice.dist == dist,
            choice.rng.fresh(),
    {
        NeighborChoice { rng: RuleRng::from_entropy(), dist }
    }

    /// The anchor `dist` places after `current` when `forward`, before it
    /// otherwise.
    pub fn pick(&self, current: usize, forward: bool, len: usize) -> (index: usize)
        requires
            len >= 1,
        ensures
            index == neighbor_index(current as int, self.dist as int, forward, len as int),
            index < len,
    {
        if forward {
            ring_step(current, self.dist as i128, len)
        } else {
            ring_step(current, -(self.dist as i128), len)
        }
    }
}

impl Default for NeighborChoice {
    fn default() -> (choice: Self)
        ensures
            choice.dist == 1,
            choice.rng.fresh(),
    {
        NeighborChoice::new(1)
    }
}

impl Clone for NeighborChoice {
    /// The same policy with a generator that starts anew from the identity
    /// of this one.
    fn clone(&self) -> (copy: Self)
        ensures
            copy.dist == self.dist,
            copy.rng.cloned_from(&self.rng),
    {
        NeighborChoice { rng: self.rng.clone(), dist: self.dist }
    }
}

impl Choice for NeighborChoice {
    open spec fn admits(&self, history: Seq<usize>, len: usize) -> bool {
        len >= 1 && history.len() >= 1
    }

    open spec fn bound(&self, len: usize) -> nat {
        len as nat
    }

    open spec fn generators(&self) -> Seq<RuleRng> {
        seq![self.rng]
    }

    fn accepts(&self, history: &[usize], len: usize) -> (ok: bool) {
        len >= 1 && history.len() >= 1
    }

    fn index_bound(&self, len: usize) -> (limit: Option<usize>) {
        Some(len)
    }

    /// The index lies `dist` places from the newest anchor, after it when
    /// the coin shows heads.
    open spec fn picked(&self, history: Seq<usize>, len: usize, index: usize, after: &Self) -> bool {
        let (forward, state) = fair_coin(self.rng.state());
        &&& after.dist == self.dist
        &&& after.rng.identity() == self.rng.identity()
        &&& after.rng.state() == state
        &&& index == neighbor_index(history[0] as int, self.dist as int, forward, len as int)
    }

    fn choose_point(&mut self, history: &[usize], len: usize) -> (index: usize) {
        let forward: bool = self.rng.coin();
        self.pick(history[0], forward, len)
    }

    fn reseed(&mut self, seed: &[u8; 32])
        ensures
            final(self).dist == old(self).dist,
            final(self).rng.reseeded_from(&old(self).rng, seed@),
    {
        self.rng.reseed(seed);
    }
}

/// One of the anchors at most `max_dist` places away from the newest, the
/// newest itself included, each offset with the same chance.
pub struct NeighborhoodChoice {
    pub rng: RuleRng,
    pub max_dist: usize,
}

impl NeighborhoodChoice {
    /// A policy that steps at most `max_dist` places, with a generator of
    /// its own, seeded by the operating system.
    pub fn new(max_dist: usize) -> (choice: Self)
        ensures
            choice.max_dist == max_dist,
            choice.rng.fresh(),
    {
        NeighborhoodChoice { rng: RuleRng::from_entropy(), max_dist }
    }

    /// The anchor `offset` places after `current`; a negative offset goes
    /// backwards.
    pub fn pick(current: usize, offset: i64, len: usize) -> (index: usize)
        requires
            len >= 1,
        ensures
            index == ring_add(current as int, offset as int, len as int),
            index < len,
    {
        ring_step(current, offset as i128, len)
    }
}

impl Default for NeighborhoodChoice {
    fn default() -> (choice: Self)
        ensures
            choice.max_dist == 1,
            choice.rng.fresh(),
    {
        NeighborhoodChoice::new(1)
    }
}

impl Clone for NeighborhoodChoice {
    /// The same policy with a generator that starts anew from the identity
    /// of this one.
    fn clone(&self) -> (copy: Self)
        ensures
            copy.max_dist == self.max_dist,
            copy.rng.cloned_from(&self.rng),
    {
        NeighborhoodChoice { rng: self.rng.clone(), max_dist: self.max_dist }
    }
}

impl Choice for NeighborhoodChoice {
    open spec fn admits(&self, history: Seq<usize>, len: usize) -> bool {
        len >= 1 && history.len() >= 1 && self.max_dist <= i64::MAX
    }

    open spec fn bound(&self, len: usize) -> nat {
        len as nat
    }

    open spec fn generators(&self) -> Seq<RuleRng> {
        seq![self.rng]
    }

    fn accepts(&self, history: &[usize], len: usize) -> (ok: bool) {
        len >= 1 && history.len() >= 1 && self.max_dist as u64 <= 0x7FFF_FFFF_FFFF_FFFF
    }

    fn index_bound(&self, len: usize) -> (limit: Option<usize>) {
        Some(len)
    }

    /// The index lies as many places after the newest anchor as the
    /// generator draws between `-max_dist` and `max_dist`.
    open spec fn picked(&self, history: Seq<usize>, len: usize, index: usize, after: &Self) -> bool {
        let (offset, state) = uniform_between(
            self.rng.state(),
            (-self.max_dist) as i64,
            self.max_dist as i64,
        );
        &&& after.max_dist == self.max_dist
        &&& after.rng.identity() == self.rng.identity()
        &&& after.rng.state() == state
        &&& index == ring_add(history[0] as int, offset as int, len as int)
    }

    fn choose_point(&mut self, history: &[usize], len: usize) -> (index: usize) {
        let reach: i64 = self.max_dist as i64;
        let offset: i64 = self.rng.between(-reach, reach);
        NeighborhoodChoice::pick(history[0], offset, len)
    }

    fn reseed(&mut self, seed: &[u8; 32])
        ensures
            final(self).max_dist == old(self).max_dist,
            final(self).rng.reseeded_from(&old(self).rng, seed@),
    {
        self.rng.reseed(seed);
    }
}

} // verus!
