//! Random choices, by `rand`.
use vstd::prelude::*;

use rand::{Rng, SeedableRng};

use crate::protocol::N_OPTIONS;

verus! {

/// `rand::rngs::StdRng`, of which nothing inside is known here.
#[verifier::external_type_specification]
#[verifier::external_body]
pub struct ExStdRng(rand::rngs::StdRng);

/// `SeedableRng::from_rng` makes a generator with a seed from another one, here
/// from `OsRng`, which is the operating system. It returns an error where the
/// system has no entropy to give, which becomes `None`. Nothing is said of when
/// that is so, nor of what the generator will draw.
#[verifier::external_body]
fn seeded_by_entropy() -> Option<rand::rngs::StdRng> {
    rand::rngs::StdRng::from_rng(rand::rngs::OsRng).ok()
}

/// `Rng::gen_range` draws a number from a range, here from `0..bound`. It
/// panics on an empty range. Which number it draws is left to chance.
#[verifier::external_body]
fn gen_below(rng: &mut rand::rngs::StdRng, bound: u64) -> (n: u64)
    requires
        bound > 0,
    ensures
        n < bound,
{
    rng.gen_range(0..bound)
}

/// A bot's source of random choices.
pub struct Dice {
    rng: rand::rngs::StdRng,
}

impl Dice {
    /// Dice with a seed from the operating system. `None`: it has none to give.
    pub fn new() -> Option<Self> {
        match seeded_by_entropy() {
            Some(rng) => Some(Dice { rng }),
            None => None,
        }
    }

    /// A number below `bound`.
    pub fn below(&mut self, bound: u64) -> (n: u64)
        requires
            bound > 0,
        ensures
            n < bound,
    {
        gen_below(&mut self.rng, bound)
    }

    /// One of the options of the vote.
    pub fn option(&mut self) -> (option: usize)
        ensures
            option < N_OPTIONS,
    {
        gen_below(&mut self.rng, N_OPTIONS as u64) as usize
    }
}

} // verus!
