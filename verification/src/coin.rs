//! A coin drawn at given odds. A draw can only come from `coin_flip`, so the
//! odds it reports are the odds it was drawn with.

use vstd::prelude::*;
use rand::Rng;

verus! {

/// One coin draw: the odds it was drawn with (`numerator` in
/// `denominator`) and whether it came up heads. Its fields are private: the
/// only way to obtain a draw is to flip one.
#[derive(Clone, Copy, PartialEq, Eq, Debug)]
pub struct CoinDraw {
    heads: bool,
    numerator: u32,
    denominator: u32,
}

impl CoinDraw {
    /// The draw came up heads.
    pub closed spec fn came_up_heads(self) -> bool {
        self.heads
    }

    /// The numerator of the odds of heads the coin was drawn with.
    pub closed spec fn odds_numerator(self) -> u32 {
        self.numerator
    }

    /// The denominator of the odds of heads the coin was drawn with.
    pub closed spec fn odds_denominator(self) -> u32 {
        self.denominator
    }

    /// Whether the draw came up heads.
    pub fn heads(&self) -> (h: bool)
        ensures
            h == self.came_up_heads(),
    {
        self.heads
    }

    /// The numerator of the odds the coin was drawn with.
    pub fn numerator(&self) -> (n: u32)
        ensures
            n == self.odds_numerator(),
    {
        self.numerator
    }

    /// The denominator of the odds the coin was drawn with.
    pub fn denominator(&self) -> (d: u32)
        ensures
            d == self.odds_denominator(),
    {
        self.denominator
    }
}

/// A random draw that is heads with probability `numerator / denominator`,
/// through rand's `Rng::random_ratio`, returned with the odds it was drawn
/// with. Its documentation guarantees heads when `numerator == denominator`
/// and tails when `numerator == 0`, and says that it panics when
/// `denominator == 0` or `numerator > denominator`; otherwise the outcome is
/// random and not stated.
#[verifier::external_body]
pub(crate) fn coin_flip(rng: &mut rand::rngs::ThreadRng, numerator: u32, denominator: u32) -> (draw: CoinDraw)
    requires
        0 < denominator,
        numerator <= denominator,
    ensures
        draw.odds_numerator() == numerator,
        draw.odds_denominator() == denominator,
        numerator == denominator ==> draw.came_up_heads(),
        numerator == 0 ==> !draw.came_up_heads(),
{
    CoinDraw { heads: rng.random_ratio(numerator, denominator), numerator, denominator }
}

} // verus!
