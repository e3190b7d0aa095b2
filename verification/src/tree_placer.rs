//! Placement of trees on the terrain.

use vstd::prelude::*;

verus! {

/// The first 32-bit word that an ISAAC generator yields after it has been
/// seeded with the given words.
pub uninterp spec fn isaac_first_word(seed: Seq<u32>) -> u32;

/// Seeds an ISAAC generator of the `rand` crate with the given words
/// (`SeedableRng::from_seed` on `IsaacRng`) and draws one word from it
/// (`Rng::next_u32`). The generator is a function of its seed, so the word
/// drawn is a function of the seed words.
#[verifier::external_body]
fn first_word(seed: &Vec<u32>) -> (word: u32)
    ensures
        word == isaac_first_word(seed@),
{
    let mut rng: rand::IsaacRng = rand::SeedableRng::from_seed(seed.as_slice());
    rand::Rng::next_u32(&mut rng)
}

/// Whether a word drawn for a place calls for a tree there: about one
/// word in five hundred does.
pub open spec fn spec_word_places_tree(word: u32) -> bool {
    word > 0xFF7FFFFF
}

/// Whether a word drawn for a place calls for a tree there.
pub fn word_places_tree(word: u32) -> (place: bool)
    ensures
        place == spec_word_places_tree(word),
{
    word > 0xFF7FFFFF
}

/// Use a seeded generator to place trees.
pub struct TreePlacer {
    seed: u32,
}

impl TreePlacer {
    /// The seed that sets this placer apart from others.
    pub closed spec fn spec_seed(self) -> u32 {
        self.seed
    }

    /// A placer with the given seed.
    pub fn new(seed: u32) -> (placer: TreePlacer)
        ensures
            placer.spec_seed() == seed,
    {
        TreePlacer { seed }
    }

    /// The seed that sets this placer apart from others.
    pub fn seed(&self) -> (seed: u32)
        ensures
            seed == self.spec_seed(),
    {
        self.seed
    }

    /// The words that seed the generator for a place: a word that tells
    /// what the generator is for, the placer's own seed, and the x and z
    /// coordinates of the place in the lattice of the finest level of
    /// detail.
    pub open spec fn spec_seed_at(self, purpose: u32, x: u32, z: u32) -> Seq<u32> {
        seq![purpose, self.spec_seed(), x, z]
    }

    fn seed_at(&self, purpose: u32, x: u32, z: u32) -> (seed: Vec<u32>)
        ensures
            seed@ == self.spec_seed_at(purpose, x, z),
    {
        let mut seed: Vec<u32> = Vec::new();
        seed.push(purpose);
        seed.push(self.seed);
        seed.push(x);
        seed.push(z);
        assert(seed@ =~= self.spec_seed_at(purpose, x, z));
        seed
    }

    /// Whether a tree stands at the place with the given lattice
    /// coordinates.
    pub fn should_place_tree(&self, x: u32, z: u32) -> (place: bool)
        ensures
            place == spec_word_places_tree(isaac_first_word(self.spec_seed_at(0, x, z))),
    {
        let seed = self.seed_at(0, x, z);
        word_places_tree(first_word(&seed))
    }
}

} // verus!
