use vstd::prelude::*;

use crate::Seed;

verus! {

/// The `index`-th 64-bit word of the ChaCha8 stream for `seed`.  A pure
/// function of the seed and the position; computed by the rand_chacha crate.
pub uninterp spec fn chacha8_word(seed: Seq<u8>, index: int) -> u64;

#[verifier::external_type_specification]
#[verifier::external_body]
pub struct ExChaCha8Rng(rand_chacha::ChaCha8Rng);

/// The deterministic random source handed to a simulation update: a ChaCha8
/// stream cipher seeded from an [`EventData`](crate::EventData)'s seed.  The
/// words it yields are a pure function of the seed and the draw count, which
/// is what makes replaying an update reproducible.
pub struct GameRng {
    inner: rand_chacha::ChaCha8Rng,
    seed: Seed,
    drawn: u64,
}

impl GameRng {
    /// The seed this source was built from.
    pub closed spec fn spec_seed(&self) -> Seq<u8> {
        self.seed@
    }

    /// How many words have been drawn so far.
    pub closed spec fn spec_drawn(&self) -> u64 {
        self.drawn
    }

    /// Relies on ChaCha8Rng::from_seed: the stream is determined by the seed.
    #[verifier::external_body]
    pub fn from_seed(seed: Seed) -> (r: GameRng)
        ensures
            r.spec_seed() == seed@,
            r.spec_drawn() == 0,
    {
        GameRng { inner: rand::SeedableRng::from_seed(seed), seed, drawn: 0 }
    }

    /// Relies on ChaCha8Rng::next_u64: with the private fields only ever set
    /// here and in [`Self::from_seed`], the word drawn is the stream word at
    /// the current position, a pure function of seed and position.
    #[verifier::external_body]
    pub fn next_u64(&mut self) -> (r: u64)
        requires
            old(self).spec_drawn() < u64::MAX,
        ensures
            final(self).spec_seed() == old(self).spec_seed(),
            final(self).spec_drawn() == old(self).spec_drawn() + 1,
            r == chacha8_word(old(self).spec_seed(), old(self).spec_drawn() as int),
    {
        self.drawn += 1;
        rand::RngCore::next_u64(&mut self.inner)
    }
}

} // verus!
