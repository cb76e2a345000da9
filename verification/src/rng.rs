//! A seeded pseudo-random source with a ghost draw history.
//!
//! Every task of the benchmark reseeds its own generator with the same
//! seed, so all parameter tuples see one identical sequence of synthetic
//! values and probe targets. The generator is deterministic: what a draw
//! returns is a pure function of the seed and of the draws already made.
//! That history is carried as a ghost sequence of events, one per draw:
//! `(0, 0)` a 32-bit draw, `(1, 0)` a coin flip, `(2, 0)` a token-length
//! draw, `(3, n)` a choice among `n` keys, `(4, len)` a token of minimum
//! length `len`.

use vstd::prelude::*;

use rand::Rng;
use rand::SeedableRng;
use rand::seq::IndexedRandom;

verus! {

#[verifier::external_type_specification]
#[verifier::external_body]
pub struct ExStdRng(rand::rngs::StdRng);

/// A seeded generator together with the seed it was built from and the
/// ghost history of the draws made so far.
pub struct DataRng {
    inner: rand::rngs::StdRng,
    seed: u64,
    hist: Ghost<Seq<(int, int)>>,
}

impl DataRng {
    /// The seed this generator was built from.
    pub closed spec fn seed(self) -> u64 {
        self.seed
    }

    /// The draws made so far, as ghost events.
    pub closed spec fn hist(self) -> Seq<(int, int)> {
        self.hist@
    }
}

/// What a 32-bit draw returns after the given history.
pub uninterp spec fn rng_u32(seed: u64, hist: Seq<(int, int)>) -> u32;

/// What a coin flip returns after the given history.
pub uninterp spec fn rng_flip(seed: u64, hist: Seq<(int, int)>) -> bool;

/// What a token-length draw returns after the given history.
pub uninterp spec fn rng_token_len(seed: u64, hist: Seq<(int, int)>) -> usize;

/// Which index a choice among `n` keys lands on after the given history.
pub uninterp spec fn rng_choice(seed: u64, hist: Seq<(int, int)>, n: int) -> int;

/// The bytes of the pseudo-word generated after the given history, for a
/// minimum length `len`.
pub uninterp spec fn rng_token(seed: u64, hist: Seq<(int, int)>, len: usize) -> Seq<u8>;

/// Relies on `rand::rngs::StdRng` (a seeded ChaCha-based generator) and
/// `SeedableRng::seed_from_u64`: both are deterministic in the seed, in
/// every process and on every machine for the pinned library version.
#[verifier::external_body]
pub fn rng_from_seed(seed: u64) -> (r: DataRng)
    ensures
        r.seed() == seed,
        r.hist() == Seq::<(int, int)>::empty(),
{
    DataRng { inner: rand::rngs::StdRng::seed_from_u64(seed), seed, hist: Ghost(Seq::empty()) }
}

/// Relies on `rand::Rng::random::<u32>`: uniform, and a pure function of
/// the generator state, which the seed and the history determine.
#[verifier::external_body]
pub fn next_u32(rng: &mut DataRng) -> (r: u32)
    ensures
        r == rng_u32(old(rng).seed(), old(rng).hist()),
        final(rng).seed() == old(rng).seed(),
        final(rng).hist() == old(rng).hist().push((0int, 0int)),
{
    rng.inner.random()
}

/// Relies on `rand::Rng::random::<bool>`: a fair coin, and a pure
/// function of the generator state.
#[verifier::external_body]
pub fn next_flip(rng: &mut DataRng) -> (r: bool)
    ensures
        r == rng_flip(old(rng).seed(), old(rng).hist()),
        final(rng).seed() == old(rng).seed(),
        final(rng).hist() == old(rng).hist().push((1int, 0int)),
{
    rng.inner.random()
}

/// Relies on `rand::Rng::random_range(3..=15)`: a draw inside the given
/// bounds, and a pure function of the generator state.
#[verifier::external_body]
pub fn next_token_len(rng: &mut DataRng) -> (r: usize)
    ensures
        3 <= r <= 15,
        r == rng_token_len(old(rng).seed(), old(rng).hist()),
        final(rng).seed() == old(rng).seed(),
        final(rng).hist() == old(rng).hist().push((2int, 0int)),
{
    rng.inner.random_range(3..=15)
}

/// Relies on `rand::seq::IndexedRandom::choose`: on a non-empty slice it
/// returns the element at a uniformly drawn valid index, a pure function
/// of the generator state and of the slice length.
#[verifier::external_body]
pub fn choose_key(rng: &mut DataRng, keys: &Vec<Vec<u8>>) -> (r: Vec<u8>)
    requires
        keys@.len() > 0,
    ensures
        ({
            let i = rng_choice(old(rng).seed(), old(rng).hist(), keys@.len() as int);
            0 <= i < keys@.len() && r@ == keys@[i]@
        }),
        final(rng).seed() == old(rng).seed(),
        final(rng).hist() == old(rng).hist().push((3int, keys@.len() as int)),
{
    keys.as_slice().choose(&mut rng.inner).unwrap().clone()
}

/// Relies on `gabble::Gabble::generate` (with `with_length`, which wants
/// a length of at least 3): it builds a pseudo-word of at least `len`
/// letters by drawing from the generator alone, so the word is a pure
/// function of the generator state and of `len`.
#[verifier::external_body]
pub fn next_token(rng: &mut DataRng, len: usize) -> (r: Vec<u8>)
    requires
        3 <= len,
    ensures
        r@ == rng_token(old(rng).seed(), old(rng).hist(), len),
        r@.len() >= len,
        final(rng).seed() == old(rng).seed(),
        final(rng).hist() == old(rng).hist().push((4int, len as int)),
{
    gabble::Gabble::new().with_length(len).generate(&mut rng.inner).into_bytes()
}

} // verus!
