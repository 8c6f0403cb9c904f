//! Random draws, through the `rand` crate.
use rand::rngs::SmallRng;
use rand::Rng;
use rand::SeedableRng;
use vstd::prelude::*;

verus! {

#[verifier::external_type_specification]
#[verifier::external_body]
pub struct ExSmallRng(SmallRng);

/// Relies on `rand::thread_rng` and `Rng::gen_range`: a value drawn from `[lo, hi)`.
#[verifier::external_body]
pub(crate) fn random_range(lo: i64, hi: i64) -> (r: i64)
    requires
        lo < hi,
    ensures
        lo <= r < hi,
{
    rand::thread_rng().gen_range(lo..hi)
}

/// Relies on `rand::thread_rng` and `Rng::gen_ratio`: `true` with probability
/// `num / den`.
#[verifier::external_body]
pub(crate) fn random_ratio(num: u32, den: u32) -> (r: bool)
    requires
        0 < den,
        num <= den,
{
    rand::thread_rng().gen_ratio(num, den)
}

/// Relies on `SeedableRng::seed_from_u64` for `SmallRng`: a generator whose stream is
/// fixed by the seed.
#[verifier::external_body]
pub(crate) fn seeded_rng(seed: u64) -> (r: SmallRng) {
    SmallRng::seed_from_u64(seed)
}

/// Relies on `Rng::gen_range` on a `SmallRng`: the next value of its stream, in `[lo, hi)`.
#[verifier::external_body]
pub(crate) fn rng_range(rng: &mut SmallRng, lo: i64, hi: i64) -> (r: i64)
    requires
        lo < hi,
    ensures
        lo <= r < hi,
{
    rng.gen_range(lo..hi)
}

} // verus!
