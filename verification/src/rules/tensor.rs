//! Product anchor spaces: an index `big * len + small` names a pair of
//! anchors of a shape of `len` points.

use vstd::prelude::*;
use vstd::arithmetic::div_mod::{
    lemma_fundamental_div_mod,
    lemma_fundamental_div_mod_converse,
    lemma_multiply_divide_lt,
};
use crate::rules::{
    Choice,
    all_reseeded,
    lemma_all_reseeded_joined,
    lemma_same_identities_joined,
    same_identities,
};
use crate::rules::choice::DefaultChoice;
use crate::rules::probability::Probability;
use crate::rules::rng::{RuleRng, biased_coin};

verus! {

/// The big components of the entries of a history.
pub open spec fn quotients(history: Seq<usize>, len: usize) -> Seq<usize> {
    Seq::new(history.len(), |i: int| (history[i] / len) as usize)
}

/// The small components of the entries of a history.
pub open spec fn remainders(history: Seq<usize>, len: usize) -> Seq<usize> {
    Seq::new(history.len(), |i: int| (history[i] % len) as usize)
}

/// The history of the big components of a history over a product space.
pub fn quotient_history(history: &[usize], len: usize) -> (big: Vec<usize>)
    requires
        len >= 1,
    ensures
        big@ == quotients(history@, len),
{
    let mut big: Vec<usize> = Vec::with_capacity(history.len());
    let mut i: usize = 0;
    while i < history.len()
        invariant
            len >= 1,
            i <= history@.len(),
            big@ == quotients(history@.take(i as int), len),
        decreases history@.len() - i,
    {
        big.push(history[i] / len);
        i += 1;
        assert(big@ =~= quotients(history@.take(i as int), len));
    }
    assert(history@.take(i as int) =~= history@);
    big
}

/// The history of the small components of a history over a product space.
pub fn remainder_history(history: &[usize], len: usize) -> (small: Vec<usize>)
    requires
        len >= 1,
    ensures
        small@ == remainders(history@, len),
{
    let mut small: Vec<usize> = Vec::with_capacity(history.len());
    let mut i: usize = 0;
    while i < history.len()
        invariant
            len >= 1,
            i <= history@.len(),
            small@ == remainders(history@.take(i as int), len),
        decreases history@.len() - i,
    {
        small.push(history[i] % len);
        i += 1;
        assert(small@ =~= remainders(history@.take(i as int), len));
    }
    assert(history@.take(i as int) =~= history@);
    small
}

/// The index of the pair of a big and a small anchor.
pub fn tensor_index(big: usize, small: usize, len: usize) -> (index: usize)
    requires
        small < len,
        len * big + small <= usize::MAX,
    ensures
        index == len * big + small,
        index / len == big,
        index % len == small,
{
    assert(len * big >= 0) by (nonlinear_arith);
    let index: usize = len * big + small;
    proof {
        assert(index as int == (big as int) * (len as int) + small as int) by (nonlinear_arith)
            requires
                index == len * big + small,
        ;
        lemma_fundamental_div_mod_converse(index as int, len as int, big as int, small as int);
    }
    index
}

/// The big and the small component of an index.
pub fn split_index(index: usize, len: usize) -> (pair: (usize, usize))
    requires
        len >= 1,
    ensures
        pair.0 == index / len,
        pair.1 == index % len,
        pair.1 < len,
        index == len * pair.0 + pair.1,
{
    proof {
        lemma_fundamental_div_mod(index as int, len as int);
    }
    (index / len, index % len)
}

/// Whether a step from `newest` to `index` changes the big anchor.
pub fn jumped(index: usize, newest: usize, len: usize) -> (jump: bool)
    requires
        len >= 1,
    ensures
        jump == (index / len != newest / len),
{
    index / len != newest / len
}

/// The index of a step that only moves the big anchor to `big`: the small
/// component stays that of `newest`.
pub fn tensored_index(big: usize, newest: usize, len: usize) -> (index: usize)
    requires
        len >= 1,
        len * big + len - 1 <= usize::MAX,
    ensures
        index == len * big + newest % len,
        index / len == big,
        index % len == newest % len,
{
    tensor_index(big, newest % len, len)
}

/// Whether a policy over `big` and `small` can pick after `history`: both
/// can pick after their components of the history, `small` stays within
/// the shape, the product space fits the machine, and the newest entry lies
/// in it.
pub open spec fn tensor_admits<CBig: Choice, CSmall: Choice>(
    big: &CBig,
    small: &CSmall,
    history: Seq<usize>,
    len: usize,
) -> bool {
    &&& len >= 1
    &&& history.len() >= 1
    &&& big.admits(quotients(history, len), len)
    &&& small.admits(remainders(history, len), len)
    &&& small.bound(len) <= len
    &&& len * big.bound(len) <= usize::MAX
    &&& history[0] < len * big.bound(len)
}

/// The size of the product space over the indices of `big`.
pub open spec fn tensor_bound<CBig: Choice>(big: &CBig, len: usize) -> nat {
    (len * big.bound(len)) as nat
}

/// A policy over inner policies that stayed the same ones admits and
/// ranges over what it did before.
proof fn lemma_tensor_same_policy<CBig: Choice, CSmall: Choice>(
    big: &CBig,
    small: &CSmall,
    big_before: &CBig,
    small_before: &CSmall,
)
    requires
        forall|h: Seq<usize>, n: usize|
            #![trigger big.admits(h, n)]
            #![trigger big_before.admits(h, n)]
            big.admits(h, n) == big_before.admits(h, n),
        forall|n: usize|
            #![trigger big.bound(n)]
            #![trigger big_before.bound(n)]
            big.bound(n) == big_before.bound(n),
        forall|h: Seq<usize>, n: usize|
            #![trigger small.admits(h, n)]
            #![trigger small_before.admits(h, n)]
            small.admits(h, n) == small_before.admits(h, n),
        forall|n: usize|
            #![trigger small.bound(n)]
            #![trigger small_before.bound(n)]
            small.bound(n) == small_before.bound(n),
    ensures
        forall|h: Seq<usize>, n: usize|
            #![trigger tensor_admits(big, small, h, n)]
            #![trigger tensor_admits(big_before, small_before, h, n)]
            tensor_admits(big, small, h, n) == tensor_admits(big_before, small_before, h, n),
        forall|n: usize|
            #![trigger tensor_bound(big, n)]
            #![trigger tensor_bound(big_before, n)]
            tensor_bound(big, n) == tensor_bound(big_before, n),
{
    assert forall|h: Seq<usize>, n: usize|
        tensor_admits(big, small, h, n) == tensor_admits(big_before, small_before, h, n) by {
        assert(big.admits(quotients(h, n), n) == big_before.admits(quotients(h, n), n));
        assert(small.admits(remainders(h, n), n) == small_before.admits(remainders(h, n), n));
        assert(big.bound(n) == big_before.bound(n));
        assert(small.bound(n) == small_before.bound(n));
    }
    assert forall|n: usize| tensor_bound(big, n) == tensor_bound(big_before, n) by {
        assert(big.bound(n) == big_before.bound(n));
    }
}

/// A policy over a product space. With the chance `jump_prob` it lets
/// `choice_big` move the big anchor, and `choice_small` the small one too
/// where `jump_any` is set. Otherwise the big anchor stays and
/// `choice_small` moves the small one.
pub struct TensorChoice<CBig: Choice, CSmall: Choice> {
    pub choice_big: CBig,
    pub choice_small: CSmall,
    pub rng: RuleRng,
    pub jump_prob: Probability,
    pub jump_any: bool,
}

impl<CBig: Choice, CSmall: Choice> TensorChoice<CBig, CSmall> {
    /// A policy over the two given ones, with a generator of its own,
    /// seeded by the operating system.
    pub fn new(
        choice_big: CBig,
        choice_small: CSmall,
        jump_prob: Probability,
        jump_any: bool,
    ) -> (choice: Self)
        ensures
            choice.choice_big == choice_big,
            choice.choice_small == choice_small,
            choice.jump_prob == jump_prob,
            choice.jump_any == jump_any,
            choice.rng.fresh(),
    {
        TensorChoice {
            choice_big,
            choice_small,
            rng: RuleRng::from_entropy(),
            jump_prob,
            jump_any,
        }
    }
}

impl Default for TensorChoice<DefaultChoice, DefaultChoice> {
    fn default() -> (choice: Self)
        ensures
            choice.jump_prob.spec_numerator() == 1,
            choice.jump_prob.spec_denominator() == 2,
            !choice.jump_any,
            choice.rng.fresh(),
    {
        TensorChoice::new(DefaultChoice::new(), DefaultChoice::new(), Probability::half(), false)
    }
}

impl<CBig: Choice + Clone, CSmall: Choice + Clone> Clone for TensorChoice<CBig, CSmall> {
    /// The same policy over clones of the two inner ones, with a generator
    /// that starts anew from the identity of this one.
    fn clone(&self) -> (copy: Self)
        ensures
            cloned(self.choice_big, copy.choice_big),
            cloned(self.choice_small, copy.choice_small),
            copy.jump_prob == self.jump_prob,
            copy.jump_any == self.jump_any,
            copy.rng.cloned_from(&self.rng),
    {
        TensorChoice {
            choice_big: self.choice_big.clone(),
            choice_small: self.choice_small.clone(),
            rng: self.rng.clone(),
            jump_prob: self.jump_prob,
            jump_any: self.jump_any,
        }
    }
}

impl<CBig: Choice, CSmall: Choice> Choice for TensorChoice<CBig, CSmall> {
    open spec fn admits(&self, history: Seq<usize>, len: usize) -> bool {
        tensor_admits(&self.choice_big, &self.choice_small, history, len)
    }

    open spec fn bound(&self, len: usize) -> nat {
        tensor_bound(&self.choice_big, len)
    }

    open spec fn generators(&self) -> Seq<RuleRng> {
        seq![self.rng] + self.choice_big.generators() + self.choice_small.generators()
    }

    fn accepts(&self, history: &[usize], len: usize) -> (ok: bool) {
        if len < 1 || history.len() < 1 {
            return false;
        }
        let bigs = quotient_history(history, len);
        let smalls = remainder_history(history, len);
        if !self.choice_big.accepts(bigs.as_slice(), len) || !self.choice_small.accepts(
            smalls.as_slice(),
            len,
        ) {
            return false;
        }
        let small_fits: bool = match self.choice_small.index_bound(len) {
            Some(limit) => limit <= len,
            None => false,
        };
        match self.index_bound(len) {
            Some(limit) => small_fits && history[0] < limit,
            None => false,
        }
    }

    fn index_bound(&self, len: usize) -> (limit: Option<usize>) {
        match self.choice_big.index_bound(len) {
            Some(big) => {
                assert(len * big >= 0) by (nonlinear_arith);
                len.checked_mul(big)
            },
            None => {
                if len == 0 {
                    assert(len * self.choice_big.bound(len) == 0) by (nonlinear_arith)
                        requires
                            len == 0,
                    ;
                    Some(0)
                } else {
                    assert(len * self.choice_big.bound(len) > usize::MAX) by (nonlinear_arith)
                        requires
                            len >= 1,
                            self.choice_big.bound(len) > usize::MAX,
                    ;
                    None
                }
            },
        }
    }

    /// The coin of the policy decides who moves. Without a jump the big
    /// component of the index is that of the newest entry, `choice_big` is
    /// not asked, and the small component is what `choice_small` picks
    /// after the small components of the history. With a jump the big
    /// component is what `choice_big` picks after the big components of the
    /// history; the small one is that of the newest entry, and
    /// `choice_small` is not asked, unless `jump_any` is set: then it is
    /// what `choice_small` picks.
    open spec fn picked(&self, history: Seq<usize>, len: usize, index: usize, after: &Self) -> bool {
        let (jump, state) = biased_coin(
            self.rng.state(),
            self.jump_prob.spec_numerator(),
            self.jump_prob.spec_denominator(),
        );
        &&& after.jump_prob == self.jump_prob
        &&& after.jump_any == self.jump_any
        &&& after.rng.identity() == self.rng.identity()
        &&& after.rng.state() == state
        &&& if jump {
            &&& self.choice_big.picked(
                quotients(history, len),
                len,
                (index / len) as usize,
                &after.choice_big,
            )
            &&& if self.jump_any {
                self.choice_small.picked(
                    remainders(history, len),
                    len,
                    (index % len) as usize,
                    &after.choice_small,
                )
            } else {
                index % len == history[0] % len && after.choice_small == self.choice_small
            }
        } else {
            &&& index / len == history[0] / len
            &&& after.choice_big == self.choice_big
            &&& self.choice_small.picked(
                remainders(history, len),
                len,
                (index % len) as usize,
                &after.choice_small,
            )
        }
    }

    fn choose_point(&mut self, history: &[usize], len: usize) -> (index: usize)
    {
        let ghost big_bound = self.choice_big.bound(len);
        let jump: bool = self.rng.ratio(self.jump_prob.numerator(), self.jump_prob.denominator());
        let newest: usize = history[0];
        proof {
            lemma_fundamental_div_mod(newest as int, len as int);
            lemma_multiply_divide_lt(newest as int, len as int, big_bound as int);
        }
        let big: usize;
        let small: usize;
        if jump {
            let bigs = quotient_history(history, len);
            big = self.choice_big.choose_point(bigs.as_slice(), len);
            if self.jump_any {
                let smalls = remainder_history(history, len);
                small = self.choice_small.choose_point(smalls.as_slice(), len);
            } else {
                small = newest % len;
            }
        } else {
            let smalls = remainder_history(history, len);
            small = self.choice_small.choose_point(smalls.as_slice(), len);
            big = newest / len;
        }
        proof {
            assert(len * big + small < len * big_bound) by (nonlinear_arith)
                requires
                    big < big_bound,
                    small < len,
            ;
            lemma_tensor_same_policy(
                &self.choice_big,
                &self.choice_small,
                &old(self).choice_big,
                &old(self).choice_small,
            );
            lemma_same_identities_joined(
                seq![self.rng],
                seq![old(self).rng],
                self.choice_big.generators(),
                old(self).choice_big.generators(),
            );
            lemma_same_identities_joined(
                seq![self.rng] + self.choice_big.generators(),
                seq![old(self).rng] + old(self).choice_big.generators(),
                self.choice_small.generators(),
                old(self).choice_small.generators(),
            );
        }
        tensor_index(big, small, len)
    }

    fn reseed(&mut self, seed: &[u8; 32])
        ensures
            final(self).jump_prob == old(self).jump_prob,
            final(self).jump_any == old(self).jump_any,
            final(self).rng.reseeded_from(&old(self).rng, seed@),
    {
        self.rng.reseed(seed);
        self.choice_big.reseed(seed);
        self.choice_small.reseed(seed);
        proof {
            lemma_tensor_same_policy(
                &self.choice_big,
                &self.choice_small,
                &old(self).choice_big,
                &old(self).choice_small,
            );
            lemma_all_reseeded_joined(
                seq![self.rng],
                seq![old(self).rng],
                self.choice_big.generators(),
                old(self).choice_big.generators(),
                seed@,
            );
            lemma_all_reseeded_joined(
                seq![self.rng] + self.choice_big.generators(),
                seq![old(self).rng] + old(self).choice_big.generators(),
                self.choice_small.generators(),
                old(self).choice_small.generators(),
                seed@,
            );
        }
    }
}

} // verus!
