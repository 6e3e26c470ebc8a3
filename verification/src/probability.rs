//! Win probabilities, scaled to a byte.
use vstd::prelude::*;

verus! {

/// A probability in 256ths, with 255 standing for certainty.
pub type Probability = u8;

pub const TWENTY_FIVE_PERCENT: Probability = 0b0100_0000;
pub const FIFTY_PERCENT: Probability = 0b1000_0000;
pub const SEVENTY_FIVE_PERCENT: Probability = 0b1100_0000;
pub const EIGHTY_SEVEN_POINT_FIVE_PERCENT: Probability = 0b1110_0000;
pub const ONE: Probability = 0b1111_1111;

pub type Count = u32;

/// How often a hand won, out of how many trials.
#[derive(Clone, Copy, Debug)]
pub struct EvalCount {
    pub win_count: Count,
    pub total: Count,
}

/// `256 * wins / total`, rounded to the nearest integer with halves rounded
/// up, and capped at 255.
pub open spec fn scaled_probability(wins: Count, total: Count) -> Probability {
    let scaled = (512 * wins + total) / (2 * total);
    if scaled > 255 {
        255
    } else {
        scaled as Probability
    }
}

impl EvalCount {
    /// The share of wins in 256ths, rounded to the nearest (halves up), and
    /// capped at 255.
    pub fn probability(self) -> (p: Probability)
        requires
            self.total > 0,
        ensures
            p == scaled_probability(self.win_count, self.total),
    {
        let w = self.win_count as u64;
        let t = self.total as u64;
        let scaled = (512 * w + t) / (2 * t);
        if scaled > 255 {
            255
        } else {
            scaled as Probability
        }
    }
}

/// Out of 256 trials, the probability is the number of wins, and certainty
/// is 255.
pub proof fn lemma_probability_of_256ths(wins: Count)
    requires
        wins < 256,
    ensures
        scaled_probability(wins, 256) == wins,
        scaled_probability(256, 256) == ONE,
{
    assert((512 * 256 + 256) / (2 * 256) == 256int) by (nonlinear_arith);
    assert((512 * wins + 256) / (512int) == wins) by (nonlinear_arith)
        requires
            wins < 256,
    ;
}

/// Winning more often never lowers the probability.
pub proof fn lemma_probability_monotone(w1: Count, w2: Count, total: Count)
    requires
        w1 <= w2,
        total > 0,
    ensures
        scaled_probability(w1, total) <= scaled_probability(w2, total),
{
    let d = 2 * total;
    assert((512 * w1 + total) / d <= (512 * w2 + total) / d) by (nonlinear_arith)
        requires
            512 * w1 + total <= 512 * w2 + total,
            d > 0,
    ;
}

} // verus!
