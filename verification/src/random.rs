use vstd::prelude::*;

verus! {

/// The sequential random source the generator draws from. Implementations
/// must return range draws within bounds; nothing else is promised, so every
/// caller is verified for every admissible outcome.
pub trait RandomSource {
    /// A draw from the half-open interval `[low, high)`.
    fn pick_in_range(&mut self, low: i64, high: i64) -> (r: i64)
        requires
            low < high,
        ensures
            low <= r < high,
    ;

    /// A weighted coin: the event comes up roughly once in `n` draws.
    fn one_in(&mut self, n: u32) -> (r: bool)
        requires
            n >= 1,
    ;
}

#[verifier::external_type_specification]
#[verifier::external_body]
pub struct ExStdRng(rand::rngs::StdRng);

/// A random source backed by rand's standard generator.
pub struct StdRandom {
    rng: rand::rngs::StdRng,
}

impl StdRandom {
    /// Relies on rand's `SeedableRng::from_entropy`: a generator seeded from
    /// the operating system. Nothing is promised of its draws.
    #[verifier::external_body]
    pub fn from_entropy() -> (r: StdRandom) {
        StdRandom { rng: <rand::rngs::StdRng as rand::SeedableRng>::from_entropy() }
    }

    /// Relies on rand's `SeedableRng::seed_from_u64`: a generator whose draw
    /// sequence is a function of the seed alone, so one seed reproduces one
    /// build. Nothing is promised of its draws.
    #[verifier::external_body]
    pub fn from_seed(seed: u64) -> (r: StdRandom) {
        StdRandom { rng: <rand::rngs::StdRng as rand::SeedableRng>::seed_from_u64(seed) }
    }
}

/// Relies on rand's `Rng::gen_range`: a draw uniform over the non-empty
/// half-open range `low..high`, and so within it.
#[verifier::external_body]
fn std_pick_in_range(rng: &mut rand::rngs::StdRng, low: i64, high: i64) -> (r: i64)
    requires
        low < high,
    ensures
        low <= r < high,
{
    rand::Rng::gen_range(rng, low..high)
}

/// Relies on rand's `Rng::gen_ratio`: true with probability `1/n`, for
/// `n >= 1`. Nothing is promised of the outcome.
#[verifier::external_body]
fn std_one_in(rng: &mut rand::rngs::StdRng, n: u32) -> (r: bool)
    requires
        n >= 1,
{
    rand::Rng::gen_ratio(rng, 1, n)
}

impl RandomSource for StdRandom {
    fn pick_in_range(&mut self, low: i64, high: i64) -> (r: i64) {
        std_pick_in_range(&mut self.rng, low, high)
    }

    fn one_in(&mut self, n: u32) -> (r: bool) {
        std_one_in(&mut self.rng, n)
    }
}

/// A deterministic random source for reproducible experiments: it replays a
/// preset list of draws. A range draw out of bounds, and any draw past the
/// end of the list, falls back to the low end; the one-in-`n` event happens
/// exactly when the replayed value is zero.
pub struct SequenceRandom {
    values: Vec<i64>,
    next_index: usize,
}

impl SequenceRandom {
    pub fn new(values: Vec<i64>) -> (r: SequenceRandom) {
        SequenceRandom { values, next_index: 0 }
    }

    fn next_value(&mut self) -> (r: i64) {
        if self.next_index < self.values.len() {
            let v = self.values[self.next_index];
            self.next_index = self.next_index + 1;
            v
        } else {
            0
        }
    }
}

impl RandomSource for SequenceRandom {
    fn pick_in_range(&mut self, low: i64, high: i64) -> (r: i64) {
        let v = self.next_value();
        if low <= v && v < high {
            v
        } else {
            low
        }
    }

    fn one_in(&mut self, n: u32) -> (r: bool) {
        let v = self.next_value();
        v == 0
    }
}

} // verus!
