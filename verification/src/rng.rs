//! Seeded and entropy-backed random draws.
//!
//! Every random quantity the index uses — per-table hasher sub-seeds and the
//! projection coefficients inside one hasher — is obtained as a sequence of
//! `u64` draws. A nonzero seed yields one fixed sequence, named by `draw_of`,
//! which is what makes the whole index reproducible from one seed value.

use vstd::prelude::*;

verus! {

/// The `i`-th `u64` drawn from the pseudo-random stream seeded with `seed`.
pub uninterp spec fn draw_of(seed: u64, i: int) -> u64;

/// Relies on `rand::rngs::StdRng` via `rand::SeedableRng::seed_from_u64` and
/// `rand::Rng::next_u64`: a fixed seed yields one fixed sequence of draws
/// (the crate documents changing either as a value-breaking change), so the
/// `i`-th draw is a function of `seed` and `i` alone.
#[verifier::external_body]
pub(crate) fn draw_u64s_seeded(seed: u64, n: usize) -> (r: Vec<u64>)
    ensures
        r@.len() == n as int,
        forall|i: int| 0 <= i < n as int ==> r@[i] == #[trigger] draw_of(seed, i),
{
    let mut rng = <rand::rngs::StdRng as rand::SeedableRng>::seed_from_u64(seed);
    (0..n).map(|_| rand::Rng::next_u64(&mut rng)).collect()
}

/// Relies on `rand::random::<u64>`: some `u64` from the thread-local
/// generator; nothing is promised of its value.
#[verifier::external_body]
fn random_u64() -> (r: u64) {
    rand::random()
}

/// Draws `n` values from the stream seeded with `seed`; with seed zero the
/// stream is replaced by true randomness, of which nothing is known.
pub fn draw_stream(seed: u64, n: usize) -> (r: Vec<u64>)
    ensures
        r@.len() == n as int,
        seed != 0 ==> forall|i: int| 0 <= i < n as int ==> r@[i] == #[trigger] draw_of(seed, i),
{
    if seed != 0 {
        draw_u64s_seeded(seed, n)
    } else {
        let mut out: Vec<u64> = Vec::new();
        let mut i: usize = 0;
        while i < n
            invariant
                out@.len() == i as int,
                i <= n,
            decreases n - i,
        {
            out.push(random_u64());
            i = i + 1;
        }
        out
    }
}

} // verus!
