//! The generator behind every policy: a xoshiro256+ stream together with the
//! identity seed it was last derived from.

use vstd::prelude::*;
use vstd::bytes::{
    lemma_auto_spec_u64_to_from_le_bytes,
    spec_u64_from_le_bytes,
    spec_u64_to_le_bytes,
};
use rand::{Rng, RngCore, SeedableRng};
use rand::rngs::OsRng;
use rand_xoshiro::Xoshiro256Plus;

verus! {

/// The xoshiro256+ generator of the `rand_xoshiro` crate. Nothing of its
/// inside is visible here; `xoshiro_state` names what it holds.
#[verifier::external_type_specification]
#[verifier::external_body]
pub struct ExXoshiro256Plus(Xoshiro256Plus);

/// The state words that a generator holds.
pub uninterp spec fn xoshiro_state(rng: Xoshiro256Plus) -> Seq<u64>;

/// The state words that `Xoshiro256Plus::from_seed` derives from seed bytes.
pub uninterp spec fn xoshiro_seeded(seed: Seq<u8>) -> Seq<u64>;

/// What one step of the generator hands out from four state words, and
/// the words it leaves: the number is the sum of the first and the last
/// word, as far as it fits; the words are then mixed by shifts and
/// exclusive ors, and the last one is turned by 45 bits.
pub open spec fn xoshiro_next(state: Seq<u64>) -> (u64, Seq<u64>) {
    let out = ((state[0] + state[3]) % 0x1_0000_0000_0000_0000) as u64;
    let shifted = state[1] << 17;
    let third = state[2] ^ state[0];
    let fourth = state[3] ^ state[1];
    let second = state[1] ^ third;
    let first = state[0] ^ fourth;
    (out, seq![first, second, third ^ shifted, (fourth << 45) | (fourth >> 19)])
}

/// What `Rng::gen_range(0..bound)` returns from a state, and the state it
/// leaves.
pub uninterp spec fn uniform_below(state: Seq<u64>, bound: u64) -> (u64, Seq<u64>);

/// What `Rng::gen_range(low..=high)` returns from a state, and the state it
/// leaves.
pub uninterp spec fn uniform_between(state: Seq<u64>, low: i64, high: i64) -> (i64, Seq<u64>);

/// What the flip of a coin makes of a state: one step of the generator,
/// of which the highest bit decides.
pub open spec fn fair_coin(state: Seq<u64>) -> (bool, Seq<u64>) {
    let (out, next) = xoshiro_next(state);
    (out >> 63 == 1, next)
}

/// What `Rng::gen_ratio(numerator, denominator)` returns from a state, and
/// the state it leaves.
pub uninterp spec fn biased_coin(state: Seq<u64>, numerator: u32, denominator: u32) -> (
    bool,
    Seq<u64>,
);

/// Whether every byte of a seed is zero.
pub open spec fn all_zero(seed: Seq<u8>) -> bool {
    forall|i: int| 0 <= i < seed.len() ==> seed[i] == 0
}

/// The four words that 32 seed bytes spell, eight bytes a word, lowest byte
/// first.
pub open spec fn le_words(seed: Seq<u8>) -> Seq<u64> {
    Seq::new(4, |i: int| spec_u64_from_le_bytes(seed.subrange(8 * i, 8 * i + 8)))
}

/// Whether `state` is the state of a generator that was just seeded with
/// `seed`.
pub open spec fn seeded_state(seed: Seq<u8>, state: Seq<u64>) -> bool {
    &&& state == xoshiro_seeded(seed)
    &&& !all_zero(seed) ==> state == le_words(seed)
}

/// `Xoshiro256Plus::from_seed`: the generator is a function of the seed
/// bytes alone. Its state words are the seed bytes, lowest byte first,
/// unless all of them are zero: such a seed is mapped to another one.
#[verifier::external_body]
fn seeded_generator(seed: &[u8; 32]) -> (rng: Xoshiro256Plus)
    ensures
        xoshiro_state(rng) == xoshiro_seeded(seed@),
        !all_zero(seed@) ==> xoshiro_state(rng) == le_words(seed@),
{
    Xoshiro256Plus::from_seed(*seed)
}

/// `OsRng::fill_bytes` on a fresh 32-byte buffer: bytes from the operating
/// system, of which nothing is known beforehand.
#[verifier::external_body]
fn entropy_seed() -> (seed: [u8; 32]) {
    let mut seed = [0u8; 32];
    OsRng.fill_bytes(&mut seed);
    seed
}

/// `Xoshiro256Plus::next_u64`: output and next state are what one step of
/// xoshiro256+ makes of the four state words.
#[verifier::external_body]
fn draw_u64(rng: &mut Xoshiro256Plus) -> (out: u64)
    ensures
        (out, xoshiro_state(*final(rng))) == xoshiro_next(xoshiro_state(*old(rng))),
{
    rng.next_u64()
}

/// `Rng::gen_range` on `0..bound`: the value lies in the range; value and
/// next state are functions of the state before the call and the bound.
#[verifier::external_body]
fn draw_below(rng: &mut Xoshiro256Plus, bound: u64) -> (out: u64)
    requires
        bound > 0,
    ensures
        out < bound,
        (out, xoshiro_state(*final(rng))) == uniform_below(xoshiro_state(*old(rng)), bound),
{
    rng.gen_range(0..bound)
}

/// `Rng::gen_range` on `low..=high`: the value lies in the range; value and
/// next state are functions of the state before the call and the bounds.
#[verifier::external_body]
fn draw_between(rng: &mut Xoshiro256Plus, low: i64, high: i64) -> (out: i64)
    requires
        low <= high,
    ensures
        low <= out <= high,
        (out, xoshiro_state(*final(rng))) == uniform_between(xoshiro_state(*old(rng)), low, high),
{
    rng.gen_range(low..=high)
}

/// `Rng::gen::<bool>`: the sign of the next 32 bits, which for this
/// generator are the upper half of its next 64 bits; the state moves by
/// that one step.
#[verifier::external_body]
fn draw_bool(rng: &mut Xoshiro256Plus) -> (out: bool)
    ensures
        (out, xoshiro_state(*final(rng))) == fair_coin(xoshiro_state(*old(rng))),
{
    rng.gen::<bool>()
}

/// `Rng::gen_ratio`: always true for a ratio of one, always false for a
/// ratio of zero; value and next state are functions of the state before the
/// call and the ratio.
#[verifier::external_body]
fn draw_ratio(rng: &mut Xoshiro256Plus, numerator: u32, denominator: u32) -> (out: bool)
    requires
        denominator > 0,
        numerator <= denominator,
    ensures
        numerator == denominator ==> out,
        numerator == 0 ==> !out,
        (out, xoshiro_state(*final(rng))) == biased_coin(
            xoshiro_state(*old(rng)),
            numerator,
            denominator,
        ),
{
    rng.gen_ratio(numerator, denominator)
}

/// Byte-wise exclusive or of two byte strings, as long as the first.
pub open spec fn xor_fold(identity: Seq<u8>, seed: Seq<u8>) -> Seq<u8> {
    Seq::new(identity.len(), |i: int| identity[i] ^ seed[i])
}

/// The number that a generator in `state` hands out after `skipped` others.
pub open spec fn stream(state: Seq<u64>, skipped: nat) -> u64
    decreases skipped,
{
    let (out, next) = xoshiro_next(state);
    if skipped == 0 {
        out
    } else {
        stream(next, (skipped - 1) as nat)
    }
}

/// A generator that remembers the seed it stands for.
///
/// `instance_seed` is the identity of this instance. A clone starts again
/// from it, and a reseed folds new bytes into it, so that equal identities
/// reseeded alike run alike.
pub struct RuleRng {
    pub instance_seed: [u8; 32],
    pub rng: Xoshiro256Plus,
}

impl RuleRng {
    /// The identity seed, as a byte string.
    pub open spec fn identity(&self) -> Seq<u8> {
        self.instance_seed@
    }

    /// The state words of the stream at this moment.
    pub open spec fn state(&self) -> Seq<u64> {
        xoshiro_state(self.rng)
    }

    /// Whether the stream stands at the start of what its identity seeds.
    pub open spec fn fresh(&self) -> bool {
        seeded_state(self.identity(), self.state())
    }

    /// Whether this generator is a clone of `origin`: it has the identity
    /// of `origin` and stands at the start of its stream.
    pub open spec fn cloned_from(&self, origin: &RuleRng) -> bool {
        self.identity() == origin.identity() && self.fresh()
    }

    /// Whether this generator is what reseeding `before` with `seed` makes:
    /// its identity is that of `before` with the seed folded in, and it
    /// stands at the start of its stream.
    pub open spec fn reseeded_from(&self, before: &RuleRng, seed: Seq<u8>) -> bool {
        self.identity() == xor_fold(before.identity(), seed) && self.fresh()
    }

    /// A generator with the given identity, at the start of its stream.
    pub fn from_seed(seed: [u8; 32]) -> (rng: RuleRng)
        ensures
            rng.identity() == seed@,
            rng.fresh(),
    {
        let rng = seeded_generator(&seed);
        RuleRng { instance_seed: seed, rng }
    }

    /// A generator whose identity comes from the operating system.
    pub fn from_entropy() -> (rng: RuleRng)
        ensures
            rng.fresh(),
    {
        RuleRng::from_seed(entropy_seed())
    }

    /// Folds `seed` into the identity and restarts the stream from the
    /// result.
    pub fn reseed(&mut self, seed: &[u8; 32])
        ensures
            final(self).reseeded_from(old(self), seed@),
    {
        let mut i: usize = 0;
        while i < 32
            invariant
                i <= 32,
                self.instance_seed@.len() == 32,
                forall|j: int| 0 <= j < i ==> self.instance_seed@[j] == old(self).instance_seed@[j] ^ seed@[j],
                forall|j: int| i <= j < 32 ==> self.instance_seed@[j] == old(self).instance_seed@[j],
            decreases 32 - i,
        {
            let folded: u8 = self.instance_seed[i] ^ seed[i];
            self.instance_seed[i] = folded;
            i += 1;
        }
        assert(self.instance_seed@ =~= xor_fold(old(self).instance_seed@, seed@));
        self.rng = seeded_generator(&self.instance_seed);
    }

    /// A number below `bound`, each with the same chance.
    pub fn below(&mut self, bound: u64) -> (out: u64)
        requires
            bound > 0,
        ensures
            out < bound,
            final(self).identity() == old(self).identity(),
            (out, final(self).state()) == uniform_below(old(self).state(), bound),
    {
        draw_below(&mut self.rng, bound)
    }

    /// A number from `low` to `high`, both included, each with the same
    /// chance.
    pub fn between(&mut self, low: i64, high: i64) -> (out: i64)
        requires
            low <= high,
        ensures
            low <= out <= high,
            final(self).identity() == old(self).identity(),
            (out, final(self).state()) == uniform_between(old(self).state(), low, high),
    {
        draw_between(&mut self.rng, low, high)
    }

    /// Heads or tails, with even chances.
    pub fn coin(&mut self) -> (out: bool)
        ensures
            final(self).identity() == old(self).identity(),
            (out, final(self).state()) == fair_coin(old(self).state()),
    {
        draw_bool(&mut self.rng)
    }

    /// True with a chance of `numerator` in `denominator`.
    pub fn ratio(&mut self, numerator: u32, denominator: u32) -> (out: bool)
        requires
            denominator > 0,
            numerator <= denominator,
        ensures
            numerator == denominator ==> out,
            numerator == 0 ==> !out,
            final(self).identity() == old(self).identity(),
            (out, final(self).state()) == biased_coin(old(self).state(), numerator, denominator),
    {
        draw_ratio(&mut self.rng, numerator, denominator)
    }

    /// The next 64 bits of the stream.
    pub fn next_u64(&mut self) -> (out: u64)
        ensures
            final(self).identity() == old(self).identity(),
            (out, final(self).state()) == xoshiro_next(old(self).state()),
            out == stream(old(self).state(), 0),
            forall|skipped: nat|
                stream(final(self).state(), skipped) == #[trigger] stream(
                    old(self).state(),
                    skipped + 1,
                ),
    {
        draw_u64(&mut self.rng)
    }
}

impl Clone for RuleRng {
    /// A second generator with the same identity. It starts at the beginning
    /// of the identity's stream, wherever the first one stands.
    fn clone(&self) -> (copy: Self)
        ensures
            copy.cloned_from(self),
    {
        RuleRng { instance_seed: self.instance_seed, rng: seeded_generator(&self.instance_seed) }
    }
}

/// Clones that are reseeded with the same bytes run alike: they start from
/// the same state and hand out the same numbers ever after.
pub proof fn lemma_reseed_alike(
    origin: RuleRng,
    first: RuleRng,
    second: RuleRng,
    first_reseeded: RuleRng,
    second_reseeded: RuleRng,
    seed: Seq<u8>,
)
    requires
        first.cloned_from(&origin),
        second.cloned_from(&origin),
        first_reseeded.reseeded_from(&first, seed),
        second_reseeded.reseeded_from(&second, seed),
    ensures
        first_reseeded.identity() == second_reseeded.identity(),
        first_reseeded.state() == second_reseeded.state(),
        forall|skipped: nat|
            stream(first_reseeded.state(), skipped) == stream(second_reseeded.state(), skipped),
{
}

/// Seeds that differ in a byte spell different words.
pub proof fn lemma_le_words_injective(one: Seq<u8>, two: Seq<u8>)
    requires
        one.len() == 32,
        two.len() == 32,
        le_words(one) == le_words(two),
    ensures
        one == two,
{
    lemma_auto_spec_u64_to_from_le_bytes();
    assert forall|k: int| 0 <= k < 32 implies one[k] == two[k] by {
        let i = k / 8;
        let a = one.subrange(8 * i, 8 * i + 8);
        let b = two.subrange(8 * i, 8 * i + 8);
        assert(le_words(one)[i] == spec_u64_from_le_bytes(a));
        assert(le_words(two)[i] == spec_u64_from_le_bytes(b));
        assert(spec_u64_to_le_bytes(spec_u64_from_le_bytes(a)) == a);
        assert(spec_u64_to_le_bytes(spec_u64_from_le_bytes(b)) == b);
        assert(a == b);
        assert(one[k] == a[k - 8 * i]);
        assert(two[k] == b[k - 8 * i]);
    }
    assert(one =~= two);
}

/// Clones that are reseeded with different bytes part ways: their
/// identities differ, and so do the states they start from, unless the
/// bytes of one of the identities are all zero.
pub proof fn lemma_reseed_apart(
    origin: RuleRng,
    first: RuleRng,
    second: RuleRng,
    first_reseeded: RuleRng,
    second_reseeded: RuleRng,
    one: Seq<u8>,
    two: Seq<u8>,
)
    requires
        one.len() == 32,
        two.len() == 32,
        one != two,
        first.cloned_from(&origin),
        second.cloned_from(&origin),
        first_reseeded.reseeded_from(&first, one),
        second_reseeded.reseeded_from(&second, two),
    ensures
        first_reseeded.identity() != second_reseeded.identity(),
        !all_zero(first_reseeded.identity()) && !all_zero(second_reseeded.identity())
            ==> first_reseeded.state() != second_reseeded.state(),
{
    let identity = origin.identity();
    assert(identity.len() == 32);
    assert(!(one =~= two));
    let k = choose|k: int| 0 <= k < 32 && one[k] != two[k];
    let a = identity[k];
    let b = one[k];
    let c = two[k];
    assert(b != c ==> a ^ b != a ^ c) by (bit_vector);
    assert(first_reseeded.identity()[k] == a ^ b);
    assert(second_reseeded.identity()[k] == a ^ c);
    if !all_zero(first_reseeded.identity()) && !all_zero(second_reseeded.identity())
        && first_reseeded.state() == second_reseeded.state() {
        lemma_le_words_injective(first_reseeded.identity(), second_reseeded.identity());
    }
}

} // verus!
