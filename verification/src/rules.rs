//! Sampling policies: the seeded generator and the choices built on it.

use vstd::prelude::*;

pub mod avoid_two;
pub mod branch;
pub mod choice;
pub mod matrix;
pub mod probability;
pub mod ring;
pub mod rng;
pub mod tensor;

pub use avoid_two::AvoidTwoChoice;
pub use branch::{Fork, Weight};
pub use choice::{AvoidChoice, DefaultChoice, NeighborChoice, NeighborhoodChoice};
pub use matrix::{MatrixChoice, Table};
pub use probability::Probability;
pub use rng::RuleRng;
pub use tensor::TensorChoice;

verus! {

/// Whether the generators `after` are the generators `before` with their
/// identities kept, one by one.
pub open spec fn same_identities(after: Seq<RuleRng>, before: Seq<RuleRng>) -> bool {
    &&& after.len() == before.len()
    &&& forall|i: int|
        0 <= i < after.len() ==> (#[trigger] after[i]).identity() == before[i].identity()
}

/// Whether the generators `after` are the generators `before`, each one
/// reseeded with `seed`.
pub open spec fn all_reseeded(after: Seq<RuleRng>, before: Seq<RuleRng>, seed: Seq<u8>) -> bool {
    &&& after.len() == before.len()
    &&& forall|i: int|
        0 <= i < after.len() ==> (#[trigger] after[i]).reseeded_from(&before[i], seed)
}

/// Keeping identities carries over to generators put in a row.
pub proof fn lemma_same_identities_joined(
    after: Seq<RuleRng>,
    before: Seq<RuleRng>,
    more_after: Seq<RuleRng>,
    more_before: Seq<RuleRng>,
)
    requires
        same_identities(after, before),
        same_identities(more_after, more_before),
    ensures
        same_identities(after + more_after, before + more_before),
{
    assert forall|i: int| 0 <= i < (after + more_after).len() implies (#[trigger] (after
        + more_after)[i]).identity() == (before + more_before)[i].identity() by {
        if i >= after.len() {
            assert(more_after[i - after.len()].identity() == more_before[i
                - before.len()].identity());
        }
    }
}

/// Reseeding carries over to generators put in a row.
pub proof fn lemma_all_reseeded_joined(
    after: Seq<RuleRng>,
    before: Seq<RuleRng>,
    more_after: Seq<RuleRng>,
    more_before: Seq<RuleRng>,
    seed: Seq<u8>,
)
    requires
        all_reseeded(after, before, seed),
        all_reseeded(more_after, more_before, seed),
    ensures
        all_reseeded(after + more_after, before + more_before, seed),
{
    assert forall|i: int| 0 <= i < (after + more_after).len() implies (#[trigger] (after
        + more_after)[i]).reseeded_from(&(before + more_before)[i], seed) by {
        if i >= after.len() {
            assert(more_after[i - after.len()].reseeded_from(
                &more_before[i - before.len()],
                seed,
            ));
        }
    }
}

/// Policies whose generators have the same identities, reseeded with the
/// same bytes, run alike: their generators start from the same states.
pub proof fn lemma_policies_reseed_alike(
    first: Seq<RuleRng>,
    second: Seq<RuleRng>,
    first_reseeded: Seq<RuleRng>,
    second_reseeded: Seq<RuleRng>,
    seed: Seq<u8>,
)
    requires
        same_identities(first, second),
        all_reseeded(first_reseeded, first, seed),
        all_reseeded(second_reseeded, second, seed),
    ensures
        first_reseeded.len() == second_reseeded.len(),
        forall|i: int|
            0 <= i < first_reseeded.len() ==> (#[trigger] first_reseeded[i]).state()
                == second_reseeded[i].state(),
{
    assert forall|i: int| 0 <= i < first_reseeded.len() implies (#[trigger] first_reseeded[i]).state()
        == second_reseeded[i].state() by {
        assert(first[i].identity() == second[i].identity());
        assert(first_reseeded[i].reseeded_from(&first[i], seed));
        assert(second_reseeded[i].reseeded_from(&second[i], seed));
    }
}

/// A policy that picks the next anchor of a shape from the anchors picked
/// before.
///
/// `history` holds the indices of the anchors picked last, newest first;
/// `len` is the number of points of the shape.
pub trait Choice {
    /// Whether the policy can pick an anchor of a shape of `len` points
    /// after `history`. A policy that does not say so can pick none.
    open spec fn admits(&self, history: Seq<usize>, len: usize) -> bool {
        false
    }

    /// The number of indices that the policy ranges over for a shape of
    /// `len` points: every index it returns lies below. A policy that does
    /// not say otherwise ranges over the anchors of the shape.
    open spec fn bound(&self, len: usize) -> nat {
        len as nat
    }

    /// Whether picking after `history` can give `index` and leave the
    /// policy as `after`: the index is what the rule of the policy makes of
    /// the draws of its generators, and `after` holds the generators as the
    /// draws left them. A policy that does not say so picks nothing.
    open spec fn picked(&self, history: Seq<usize>, len: usize, index: usize, after: &Self) -> bool {
        false
    }

    /// The generators that the policy draws from, its own first and then
    /// those of the policies it is made of.
    open spec fn generators(&self) -> Seq<RuleRng> {
        Seq::empty()
    }

    /// Tests whether the policy can pick an anchor of a shape of `len`
    /// points after `history`.
    fn accepts(&self, history: &[usize], len: usize) -> (ok: bool)
        ensures
            ok == self.admits(history@, len),
    ;

    /// The bound of the indices for a shape of `len` points, where it is a
    /// machine number.
    fn index_bound(&self, len: usize) -> (limit: Option<usize>)
        ensures
            limit == if self.bound(len) <= usize::MAX {
                Some(self.bound(len) as usize)
            } else {
                None
            },
    ;

    /// Picks the index of the next anchor, as `picked` says. The policy
    /// stays the same one: it admits and ranges over what it did before,
    /// and its generators keep their identities.
    fn choose_point(&mut self, history: &[usize], len: usize) -> (index: usize)
        requires
            old(self).admits(history@, len),
        ensures
            old(self).picked(history@, len, index, final(self)),
            index < old(self).bound(len),
            same_identities(final(self).generators(), old(self).generators()),
            forall|h: Seq<usize>, n: usize|
                #![trigger final(self).admits(h, n)]
                #![trigger old(self).admits(h, n)]
                final(self).admits(h, n) == old(self).admits(h, n),
            forall|n: usize|
                #![trigger final(self).bound(n)]
                #![trigger old(self).bound(n)]
                final(self).bound(n) == old(self).bound(n),
    ;

    /// Folds `seed` into the identity of every generator of the policy and
    /// restarts them. The policy stays the same one.
    fn reseed(&mut self, seed: &[u8; 32])
        ensures
            all_reseeded(final(self).generators(), old(self).generators(), seed@),
            forall|h: Seq<usize>, n: usize|
                #![trigger final(self).admits(h, n)]
                #![trigger old(self).admits(h, n)]
                final(self).admits(h, n) == old(self).admits(h, n),
            forall|n: usize|
                #![trigger final(self).bound(n)]
                #![trigger old(self).bound(n)]
                final(self).bound(n) == old(self).bound(n),
    ;
}

/// Picks the index of the next anchor where the policy can, and leaves the
/// policy untouched where it cannot.
pub fn choose_checked<C: Choice>(
    choice: &mut C,
    history: &[usize],
    len: usize,
) -> (index: Option<usize>)
    ensures
        index is Some <==> old(choice).admits(history@, len),
        index matches Some(i) ==> i < old(choice).bound(len) && old(choice).picked(
            history@,
            len,
            i,
            final(choice),
        ),
        index is None ==> *final(choice) == *old(choice),
        same_identities(final(choice).generators(), old(choice).generators()),
        forall|h: Seq<usize>, n: usize|
            #![trigger final(choice).admits(h, n)]
            #![trigger old(choice).admits(h, n)]
            final(choice).admits(h, n) == old(choice).admits(h, n),
        forall|n: usize|
            #![trigger final(choice).bound(n)]
            #![trigger old(choice).bound(n)]
            final(choice).bound(n) == old(choice).bound(n),
{
    if choice.accepts(history, len) {
        Some(choice.choose_point(history, len))
    } else {
        None
    }
}

} // verus!
