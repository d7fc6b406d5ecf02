//! The one source of randomness that the backfill draws from: the thread's
//! own generator, or a seeded one whose draws repeat from run to run.

use vstd::prelude::*;

verus! {

/// The handle of `rand`'s thread-local generator. Trusted as an opaque type.
#[verifier::external_type_specification]
#[verifier::external_body]
pub struct ExThreadRng(rand::rngs::ThreadRng);

/// `rand`'s standard seedable generator. Trusted as an opaque type.
#[verifier::external_type_specification]
#[verifier::external_body]
pub struct ExStdRng(rand::rngs::StdRng);

/// `rand::thread_rng` hands out the thread-local generator, which the
/// system seeds on first use. Nothing is claimed of the handle. Should the
/// system have no entropy to give on first use, `rand` panics there.
pub assume_specification[ rand::thread_rng ]() -> (rng: rand::rngs::ThreadRng)
;

/// Calls `SeedableRng::seed_from_u64` for `StdRng`. Nothing is claimed of
/// the generator that comes back.
#[verifier::external_body]
fn std_rng_from_seed(seed: u64) -> (rng: rand::rngs::StdRng) {
    rand::SeedableRng::seed_from_u64(seed)
}

/// Calls `SliceRandom::shuffle` on the pool with the thread-local generator.
/// Trusted: the shuffle only swaps entries, so the pool holds the same
/// indices, each as often as before. Nothing is claimed of their order: it
/// is whatever the generator made it.
#[verifier::external_body]
fn shuffle_with_thread(pool: &mut Vec<usize>, rng: &mut rand::rngs::ThreadRng)
    ensures
        final(pool)@.to_multiset() == old(pool)@.to_multiset(),
{
    rand::seq::SliceRandom::shuffle(pool.as_mut_slice(), rng)
}

/// Calls `SliceRandom::shuffle` on the pool with a seeded generator.
/// Trusted: the shuffle only swaps entries, so the pool holds the same
/// indices, each as often as before. Nothing is claimed of their order: it
/// is whatever the generator made it.
#[verifier::external_body]
fn shuffle_with_seeded(pool: &mut Vec<usize>, rng: &mut rand::rngs::StdRng)
    ensures
        final(pool)@.to_multiset() == old(pool)@.to_multiset(),
{
    rand::seq::SliceRandom::shuffle(pool.as_mut_slice(), rng)
}

/// Where random draws come from.
pub enum RandomSource {
    /// The thread-local generator, seeded by the system.
    Thread(rand::rngs::ThreadRng),
    /// A generator started from a fixed seed.
    Seeded(rand::rngs::StdRng),
}

impl RandomSource {
    /// The thread-local generator.
    pub fn thread() -> (source: RandomSource)
        ensures
            source is Thread,
    {
        RandomSource::Thread(rand::thread_rng())
    }

    /// A generator started from `seed`.
    pub fn seeded(seed: u64) -> (source: RandomSource)
        ensures
            source is Seeded,
    {
        RandomSource::Seeded(std_rng_from_seed(seed))
    }

    /// Puts the pool into a random order. Whatever the order, the pool holds
    /// the same indices as before, each as often as before. The source has
    /// moved on by the draws it gave and is of the kind it was: a seeded one
    /// stays seeded, the thread's stays the thread's.
    pub fn shuffle(&mut self, pool: &mut Vec<usize>)
        ensures
            final(pool)@.to_multiset() == old(pool)@.to_multiset(),
            final(pool)@.len() == old(pool)@.len(),
            forall|x: usize| final(pool)@.contains(x) == old(pool)@.contains(x),
            (*final(self) is Seeded) == (*old(self) is Seeded),
            (*final(self) is Thread) == (*old(self) is Thread),
    {
        let ghost before = pool@;
        match self {
            RandomSource::Thread(rng) => shuffle_with_thread(pool, rng),
            RandomSource::Seeded(rng) => shuffle_with_seeded(pool, rng),
        }
        proof {
            before.to_multiset_ensures();
            pool@.to_multiset_ensures();
            assert forall|x: usize| pool@.contains(x) == before.contains(x) by {
                assert(pool@.contains(x) == (pool@.to_multiset().count(x) > 0));
                assert(before.contains(x) == (before.to_multiset().count(x) > 0));
            }
        }
    }
}

} // verus!
