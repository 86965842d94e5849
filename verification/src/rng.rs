//! A seeded source of the binary choices the connectivity planner consumes.
//!
//! The planner itself is a pure function of the drawn choices; any source of
//! booleans can stand in for this one. Nothing is assumed about the drawn
//! values, only that, with the generator used here, a fixed seed yields the
//! same sequence on every run.

use vstd::prelude::*;

verus! {

/// Relies on `rand::rngs::StdRng` being declarable as an opaque type, so a
/// value of it can live in a field; nothing is assumed about its contents.
#[verifier::external_type_specification]
#[verifier::external_body]
pub struct ExStdRng(rand::rngs::StdRng);

/// A seeded, deterministic source of binary choices.
pub struct CoinSource {
    rng: rand::rngs::StdRng,
}

/// Relies on `rand_core::SeedableRng::seed_from_u64`: it builds the generator
/// from the seed alone, deterministically.
#[verifier::external_body]
fn std_rng_from_seed(seed: u64) -> (r: rand::rngs::StdRng) {
    <rand::rngs::StdRng as rand::SeedableRng>::seed_from_u64(seed)
}

/// Relies on `rand::RngExt::random::<bool>`: it draws one boolean and always
/// returns. Nothing is assumed about the drawn value.
#[verifier::external_body]
fn draw_bit(rng: &mut rand::rngs::StdRng) -> (r: bool) {
    <rand::rngs::StdRng as rand::RngExt>::random::<bool>(rng)
}

impl CoinSource {
    pub fn new(seed: u64) -> (r: CoinSource) {
        CoinSource { rng: std_rng_from_seed(seed) }
    }

    /// One binary choice.
    pub fn flip(&mut self) -> bool {
        draw_bit(&mut self.rng)
    }

    /// The next `n` binary choices, in draw order.
    pub fn draw(&mut self, n: usize) -> (r: Vec<bool>)
        ensures
            r@.len() == n,
    {
        let mut v: Vec<bool> = Vec::new();
        let mut i: usize = 0;
        while i < n
            invariant
                v@.len() == i,
                i <= n,
            decreases n - i,
        {
            let b = self.flip();
            v.push(b);
            i += 1;
        }
        v
    }
}

} // verus!
