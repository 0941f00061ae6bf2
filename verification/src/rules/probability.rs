//! Chances as ratios of integers.

use vstd::prelude::*;

verus! {

/// A chance of `numerator` in `denominator`, between never and always.
#[derive(Clone, Copy, Debug)]
pub struct Probability {
    numerator: u32,
    denominator: u32,
}

impl Probability {
    #[verifier::type_invariant]
    spec fn valid(self) -> bool {
        self.denominator > 0 && self.numerator <= self.denominator
    }

    /// The number of favourable cases.
    pub closed spec fn spec_numerator(self) -> u32 {
        self.numerator
    }

    /// The number of all cases.
    pub closed spec fn spec_denominator(self) -> u32 {
        self.denominator
    }

    /// Whether the ratio is a chance: there is at least one case, and no
    /// more favourable cases than cases. Every chance that this module
    /// hands out is one.
    pub open spec fn wf(self) -> bool {
        self.spec_denominator() > 0 && self.spec_numerator() <= self.spec_denominator()
    }

    /// The chance of `numerator` in `denominator`, where that is a chance:
    /// there is at least one case, and no more favourable cases than cases.
    pub fn new(numerator: u32, denominator: u32) -> (chance: Option<Self>)
        ensures
            chance is Some <==> denominator > 0 && numerator <= denominator,
            chance matches Some(p) ==> p.spec_numerator() == numerator && p.spec_denominator()
                == denominator && p.wf(),
    {
        if denominator > 0 && numerator <= denominator {
            Some(Probability { numerator, denominator })
        } else {
            None
        }
    }

    /// An even chance.
    pub fn half() -> (chance: Self)
        ensures
            chance.spec_numerator() == 1,
            chance.spec_denominator() == 2,
            chance.wf(),
    {
        Probability { numerator: 1, denominator: 2 }
    }

    /// The number of favourable cases.
    #[verifier::when_used_as_spec(spec_numerator)]
    pub fn numerator(self) -> (n: u32)
        ensures
            n == self.spec_numerator(),
            self.wf(),
    {
        proof {
            use_type_invariant(&self);
        }
        self.numerator
    }

    /// The number of all cases.
    #[verifier::when_used_as_spec(spec_denominator)]
    pub fn denominator(self) -> (d: u32)
        ensures
            d == self.spec_denominator(),
            self.wf(),
    {
        proof {
            use_type_invariant(&self);
        }
        self.denominator
    }
}

} // verus!
