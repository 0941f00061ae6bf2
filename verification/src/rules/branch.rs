//! The fork between two rules: which of them takes a step, and how much
//! the step counts.
//!
//! A main step forks with the chance `p`. A scatter step may fork with
//! another chance; its sample is then weighted so that, on average, it
//! counts as if it had forked with `p`.

use vstd::prelude::*;
use crate::rules::probability::Probability;
use crate::rules::rng::{RuleRng, biased_coin};

verus! {

/// How much a sample counts, as a ratio.
#[derive(Clone, Copy, Debug, PartialEq, Eq, Structural)]
pub struct Weight {
    pub numerator: u64,
    pub denominator: u64,
}

/// The cases in favour of a side of the fork: those of the chance for the
/// left side, the others for the right side.
pub open spec fn cases(chance: Probability, left: bool) -> int {
    if left {
        chance.spec_numerator() as int
    } else {
        chance.spec_denominator() - chance.spec_numerator()
    }
}

/// The weight of a sample that took a side with the chance `taken` where
/// the main chain takes it with the chance `p`: the chance of the main
/// chain over the chance taken.
pub open spec fn fork_weight(p: Probability, taken: Probability, left: bool) -> (int, int) {
    (
        cases(p, left) * taken.spec_denominator(),
        p.spec_denominator() * cases(taken, left),
    )
}

/// The weighting is unbiased: the chance with which a side is taken, times
/// the weight of a sample that took it, is the chance with which the main
/// chain takes that side.
pub proof fn lemma_fork_unbiased(p: Probability, taken: Probability, left: bool)
    requires
        p.wf(),
        taken.wf(),
        cases(taken, left) > 0,
    ensures
        ({
            let (weight_numerator, weight_denominator) = fork_weight(p, taken, left);
            &&& weight_denominator > 0
            &&& cases(taken, left) * weight_numerator * p.spec_denominator() == cases(p, left)
                * taken.spec_denominator() * weight_denominator
        }),
{
    let c = cases(taken, left);
    let d = taken.spec_denominator() as int;
    let q = cases(p, left);
    let e = p.spec_denominator() as int;
    assert(e * c > 0) by (nonlinear_arith)
        requires
            e > 0,
            c > 0,
    ;
    assert(c * (q * d) * e == q * d * (e * c)) by (nonlinear_arith);
}

/// The coin of a fork, with the chance of the main chain and that of
/// scatter steps.
pub struct Fork {
    pub rng: RuleRng,
    pub p: Probability,
    pub p_scatter: Probability,
}

impl Fork {
    /// A fork with a generator of its own, seeded by the operating system.
    pub fn new(p: Probability, p_scatter: Probability) -> (fork: Self)
        ensures
            fork.p == p,
            fork.p_scatter == p_scatter,
            fork.rng.fresh(),
    {
        Fork { rng: RuleRng::from_entropy(), p, p_scatter }
    }

    /// The chance with which a step takes the left side.
    pub open spec fn chance(&self, scatter: bool) -> Probability {
        if scatter {
            self.p_scatter
        } else {
            self.p
        }
    }

    /// The weight of a sample that took a side with the chance `taken`.
    pub fn weight(&self, taken: Probability, left: bool) -> (weight: Weight)
        requires
            cases(taken, left) > 0,
        ensures
            (weight.numerator as int, weight.denominator as int) == fork_weight(self.p, taken, left),
            weight.denominator > 0,
    {
        let p_cases: u64 = if left {
            self.p.numerator() as u64
        } else {
            (self.p.denominator() - self.p.numerator()) as u64
        };
        let taken_cases: u64 = if left {
            taken.numerator() as u64
        } else {
            (taken.denominator() - taken.numerator()) as u64
        };
        let p_all: u64 = self.p.denominator() as u64;
        let taken_all: u64 = taken.denominator() as u64;
        assert(p_cases * taken_all <= 0xFFFF_FFFF * 0xFFFF_FFFF && p_all * taken_cases
            <= 0xFFFF_FFFF * 0xFFFF_FFFF && p_all * taken_cases > 0) by (nonlinear_arith)
            requires
                p_cases <= 0xFFFF_FFFF,
                taken_all <= 0xFFFF_FFFF,
                0 < p_all <= 0xFFFF_FFFF,
                0 < taken_cases <= 0xFFFF_FFFF,
        ;
        Weight { numerator: p_cases * taken_all, denominator: p_all * taken_cases }
    }

    /// Flips the coin of a step: whether the left side takes it, and how
    /// much its sample counts. A main step counts once; a scatter step
    /// counts by the chance of the main chain over its own.
    pub fn decide(&mut self, scatter: bool) -> (taken: (bool, Weight))
        ensures
            final(self).p == old(self).p,
            final(self).p_scatter == old(self).p_scatter,
            final(self).rng.identity() == old(self).rng.identity(),
            ({
                let chance = old(self).chance(scatter);
                let (left, state) = biased_coin(
                    old(self).rng.state(),
                    chance.spec_numerator(),
                    chance.spec_denominator(),
                );
                &&& taken.0 == left
                &&& final(self).rng.state() == state
                &&& cases(chance, left) > 0
                &&& scatter ==> (taken.1.numerator as int, taken.1.denominator as int)
                    == fork_weight(old(self).p, chance, left)
                &&& !scatter ==> taken.1 == (Weight { numerator: 1, denominator: 1 })
            }),
    {
        let chance: Probability = if scatter {
            self.p_scatter
        } else {
            self.p
        };
        let left: bool = self.rng.ratio(chance.numerator(), chance.denominator());
        let weight = if scatter {
            self.weight(chance, left)
        } else {
            Weight { numerator: 1, denominator: 1 }
        };
        (left, weight)
    }

    /// Folds `seed` into the identity of the generator and restarts it.
    pub fn reseed(&mut self, seed: &[u8; 32])
        ensures
            final(self).p == old(self).p,
            final(self).p_scatter == old(self).p_scatter,
            final(self).rng.reseeded_from(&old(self).rng, seed@),
    {
        self.rng.reseed(seed);
    }
}

impl Clone for Fork {
    /// The same fork with a generator that starts anew from the identity of
    /// this one.
    fn clone(&self) -> (copy: Self)
        ensures
            copy.p == self.p,
            copy.p_scatter == self.p_scatter,
            copy.rng.cloned_from(&self.rng),
    {
        Fork { rng: self.rng.clone(), p: self.p, p_scatter: self.p_scatter }
    }
}

} // verus!
