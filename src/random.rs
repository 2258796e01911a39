//! Random draws for the optimizer, from a seedable generator of `rand`.
use rand::Rng;
use rand::SeedableRng;
use vstd::prelude::*;

verus! {

#[verifier::external_type_specification]
#[verifier::external_body]
pub struct ExStdRng(rand::rngs::StdRng);

/// Relies on `rand::SeedableRng::seed_from_u64` for `StdRng`: a generator
/// whose stream is fixed by the seed.
#[verifier::external_body]
pub(crate) fn rng_from_seed(seed: u64) -> rand::rngs::StdRng {
    rand::rngs::StdRng::seed_from_u64(seed)
}

/// Relies on `rand::SeedableRng::from_entropy` for `StdRng`: a generator
/// seeded from the operating system.
#[verifier::external_body]
pub(crate) fn rng_from_entropy() -> rand::rngs::StdRng {
    rand::rngs::StdRng::from_entropy()
}

/// Relies on `rand::Rng::gen_range` over `0..n`: a value below `n`, which
/// must not be zero.
#[verifier::external_body]
pub(crate) fn draw_below(rng: &mut rand::rngs::StdRng, n: usize) -> (r: usize)
    requires
        n > 0,
    ensures
        r < n,
{
    rng.gen_range(0..n)
}

/// Relies on `rand::Rng::gen_range` over `0..=hi` on `u128`: a value in
/// `[0, hi]`.
#[verifier::external_body]
pub(crate) fn draw_up_to(rng: &mut rand::rngs::StdRng, hi: u128) -> (r: u128)
    ensures
        r <= hi,
{
    rng.gen_range(0..=hi)
}

/// Relies on `rand::Rng::gen_range` over `lo..=hi` on `i64`: a value in
/// `[lo, hi]`, which must not be empty.
#[verifier::external_body]
pub(crate) fn draw_between(rng: &mut rand::rngs::StdRng, lo: i64, hi: i64) -> (r: i64)
    requires
        lo <= hi,
    ensures
        lo <= r <= hi,
{
    rng.gen_range(lo..=hi)
}

} // verus!
