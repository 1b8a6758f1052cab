//! Where the lots come from. The game draws lots for the noise and for the
//! policies that leave their choice to chance; whoever starts a match hands
//! it the source to draw from.

use vstd::prelude::*;
use crate::outside::{draw_below, flip_coin, generator_from_seed, next_below, next_coin};

verus! {

/// The number of lots in a draw of percentages: 0, 1, and so on to 99.
pub const PERCENT_LOTS: i32 = 100;

/// A source of lots.
pub trait RandomSource {
    /// Draws a number out of a hundred, each with the same odds.
    fn percent(&mut self) -> (draw: i32)
        ensures
            0 <= draw < PERCENT_LOTS,
    ;

    /// Flips a fair coin.
    fn coin(&mut self) -> bool;
}

/// The generator of the running thread, seeded by the system. No two runs
/// draw the same lots.
#[derive(Clone, Copy, Debug)]
pub struct ThreadRandom;

impl RandomSource for ThreadRandom {
    fn percent(&mut self) -> (draw: i32) {
        draw_below(PERCENT_LOTS)
    }

    fn coin(&mut self) -> bool {
        flip_coin()
    }
}

/// A generator that draws the same lots whenever it is started from the
/// same seed.
pub struct SeededRandom {
    generator: rand::rngs::StdRng,
}

impl SeededRandom {
    /// A generator started from `seed`.
    pub fn new(seed: u64) -> SeededRandom {
        SeededRandom { generator: generator_from_seed(seed) }
    }
}

impl RandomSource for SeededRandom {
    fn percent(&mut self) -> (draw: i32) {
        next_below(&mut self.generator, PERCENT_LOTS)
    }

    fn coin(&mut self) -> bool {
        next_coin(&mut self.generator)
    }
}

} // verus!
