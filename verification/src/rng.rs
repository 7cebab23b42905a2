//! Randomness used to shuffle chains and collators, from a ChaCha20 generator.

use vstd::prelude::*;
use rand::seq::SliceRandom;
use rand::SeedableRng;
use rand_chacha::ChaCha20Rng;

verus! {

/// The ChaCha20 generator of `rand_chacha`; Verus sees nothing of its state.
#[verifier::external_type_specification]
#[verifier::external_body]
pub struct ExChaCha20Rng(ChaCha20Rng);

/// The order in which `SliceRandom::shuffle` of `rand` puts a slice of `len` elements, with a
/// ChaCha20 generator seeded with `seed` that already shuffled slices of the lengths `earlier`:
/// the element at each position comes from the position given. It depends on these alone, not
/// on the elements.
pub uninterp spec fn shuffle_order(seed: Seq<u8>, earlier: Seq<usize>, len: nat) -> Seq<int>;

/// `v` put in the order `order`.
pub open spec fn permuted<A>(v: Seq<A>, order: Seq<int>) -> Seq<A> {
    Seq::new(v.len(), |i: int| v[order[i]])
}

/// `v` shuffled by a generator seeded with `seed` that already shuffled slices of the lengths
/// `earlier`.
pub open spec fn shuffled<A>(seed: Seq<u8>, earlier: Seq<usize>, v: Seq<A>) -> Seq<A> {
    permuted(v, shuffle_order(seed, earlier, v.len()))
}

/// `v` shuffled by `rng` when there is one, as it is otherwise.
pub open spec fn maybe_shuffled<A>(rng: Option<SeededRng>, v: Seq<A>) -> Seq<A> {
    match rng {
        Some(r) => shuffled(r.seed(), r.lengths(), v),
        None => v,
    }
}

/// A ChaCha20 generator with what determines its state: the seed it was built from and the
/// lengths of the slices it shuffled since, which only this module's functions change.
pub struct SeededRng {
    rng: ChaCha20Rng,
    seed: [u8; 32],
    lengths: Vec<usize>,
}

impl SeededRng {
    /// The seed the generator was built from.
    pub closed spec fn seed(&self) -> Seq<u8> {
        self.seed@
    }

    /// The lengths of the slices the generator shuffled, in order.
    pub closed spec fn lengths(&self) -> Seq<usize> {
        self.lengths@
    }

    /// A generator seeded with `seed`.
    pub fn new(seed: [u8; 32]) -> (r: Self)
        ensures
            r.seed() == seed@,
            r.lengths() == Seq::<usize>::empty(),
    {
        SeededRng { rng: rng_from_seed(seed), seed, lengths: Vec::new() }
    }

    /// Shuffles `v`: the same elements, in the order the generator's seed and past shuffles
    /// determine.
    pub fn shuffle<T>(&mut self, v: &mut Vec<T>)
        ensures
            final(v)@ == shuffled(old(self).seed(), old(self).lengths(), old(v)@),
            final(v)@.to_multiset() == old(v)@.to_multiset(),
            final(self).seed() == old(self).seed(),
            final(self).lengths() == old(self).lengths().push(old(v)@.len() as usize),
    {
        let n = v.len();
        shuffle(self, v);
        self.lengths.push(n);
    }
}

/// Calls `SeedableRng::from_seed` of `rand_chacha::ChaCha20Rng`: a generator seeded with `seed`.
/// Nothing is claimed of the generator, whose state Verus cannot see.
#[verifier::external_body]
fn rng_from_seed(seed: [u8; 32]) -> ChaCha20Rng {
    ChaCha20Rng::from_seed(seed)
}

/// Calls `SliceRandom::shuffle` of `rand` on the whole vector, with the generator of `r`. Its
/// documentation promises a permutation: the same elements remain, each as many times. The
/// Fisher-Yates shuffle of the source swaps positions by indices drawn from the generator, whose
/// state is fixed by the seed and the lengths shuffled before, so the new order is named by
/// `shuffle_order` of these and of the length. The seed and lengths of `r` are left as they
/// are (`SeededRng::shuffle` records the length).
#[verifier::external_body]
fn shuffle<T>(r: &mut SeededRng, v: &mut Vec<T>)
    ensures
        final(v)@ == permuted(old(v)@, shuffle_order(old(r).seed(), old(r).lengths(), old(v)@.len())),
        final(v)@.to_multiset() == old(v)@.to_multiset(),
        final(r).seed() == old(r).seed(),
        final(r).lengths() == old(r).lengths(),
{
    v.shuffle(&mut r.rng);
}

} // verus!
