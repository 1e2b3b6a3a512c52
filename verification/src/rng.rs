//! A random number generator that remembers its seed.
use vstd::prelude::*;

verus! {

/// The standard generator of the `rand` crate.
#[verifier::external_type_specification]
#[verifier::external_body]
pub struct ExStdRng(rand::rngs::StdRng);

/// The seed that a generator was made with.
pub uninterp spec fn generator_seed(generator: rand::rngs::StdRng) -> u64;

/// The position of a generator in the stream of its seed, counted in the
/// words of 32 bits that were taken from the stream.
pub uninterp spec fn generator_words(generator: rand::rngs::StdRng) -> nat;

/// The 64 bits that a generator with the given seed gives at the given
/// position of its stream.
pub uninterp spec fn stream_u64(seed: u64, words: nat) -> u64;

/// The byte that a generator with the given seed gives at the given position
/// of its stream.
pub uninterp spec fn stream_byte(seed: u64, words: nat) -> u8;

/// `rand::SeedableRng::seed_from_u64` for the standard generator: the
/// generator of the seed, at the start of its stream.
#[verifier::external_body]
fn seeded(seed: u64) -> (r: rand::rngs::StdRng)
    ensures
        generator_seed(r) == seed,
        generator_words(r) == 0,
{
    rand::SeedableRng::seed_from_u64(seed)
}

/// `rand::RngCore::next_u64` on the standard generator: the 64 bits at the
/// generator's position in the stream of its seed. The draw takes two words
/// from the stream and does not panic.
#[verifier::external_body]
fn draw_u64(rng: &mut rand::rngs::StdRng) -> (r: u64)
    ensures
        r == stream_u64(generator_seed(*old(rng)), generator_words(*old(rng))),
        generator_seed(*final(rng)) == generator_seed(*old(rng)),
        generator_words(*final(rng)) == generator_words(*old(rng)) + 2,
    no_unwind
{
    rand::RngCore::next_u64(rng)
}

/// `rand::Rng::random` for a byte on the standard generator: the byte at the
/// generator's position in the stream of its seed. The draw takes one word
/// from the stream and does not panic.
#[verifier::external_body]
fn draw_byte(rng: &mut rand::rngs::StdRng) -> (r: u8)
    ensures
        r == stream_byte(generator_seed(*old(rng)), generator_words(*old(rng))),
        generator_seed(*final(rng)) == generator_seed(*old(rng)),
        generator_words(*final(rng)) == generator_words(*old(rng)) + 1,
    no_unwind
{
    rand::Rng::random(rng)
}

/// Seedable random number generator.
///
/// What the generator gives depends on its seed and on its position in the
/// stream of that seed alone. A copy made with `clone` takes over the seed
/// and not the position: it starts again from the seed, whatever was drawn
/// from the generator it was made of.
#[derive(Debug)]
pub struct Rng {
    seed: u64,
    rng: rand::rngs::StdRng,
}

impl Rng {
    /// The generator is the one of the seed that is kept beside it.
    #[verifier::type_invariant]
    spec fn seed_kept(&self) -> bool {
        self.seed == generator_seed(self.rng)
    }

    /// The seed that the generator was made with.
    pub closed spec fn spec_seed(&self) -> u64 {
        generator_seed(self.rng)
    }

    /// The position in the stream of the seed, counted in words of 32 bits.
    pub closed spec fn spec_words(&self) -> nat {
        generator_words(self.rng)
    }

    /// Creates a new generator from a seed value, at the start of its stream.
    pub fn from_seed(seed: u64) -> (r: Self)
        ensures
            r.spec_seed() == seed,
            r.spec_words() == 0,
    {
        Rng { seed, rng: seeded(seed) }
    }

    /// The seed that the generator was made with.
    pub fn seed(&self) -> (r: u64)
        ensures
            r == self.spec_seed(),
    {
        proof {
            use_type_invariant(self);
        }
        self.seed
    }

    /// Draws the next 64 bits of the stream: two words.
    pub fn next_u64(&mut self) -> (r: u64)
        ensures
            r == stream_u64(old(self).spec_seed(), old(self).spec_words()),
            final(self).spec_seed() == old(self).spec_seed(),
            final(self).spec_words() == old(self).spec_words() + 2,
    {
        proof {
            use_type_invariant(&*self);
        }
        draw_u64(&mut self.rng)
    }

    /// Draws the next byte of the stream: one word.
    pub fn next_byte(&mut self) -> (r: u8)
        ensures
            r == stream_byte(old(self).spec_seed(), old(self).spec_words()),
            final(self).spec_seed() == old(self).spec_seed(),
            final(self).spec_words() == old(self).spec_words() + 1,
    {
        proof {
            use_type_invariant(&*self);
        }
        draw_byte(&mut self.rng)
    }
}

impl Clone for Rng {
    /// A generator with the same seed at the start of its stream.
    fn clone(&self) -> (r: Self)
        ensures
            r.spec_seed() == self.spec_seed(),
            r.spec_words() == 0,
    {
        Rng::from_seed(self.seed())
    }
}

} // verus!
