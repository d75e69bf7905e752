//! The pseudorandom source behind layout generation. The generator is
//! dependency-injected: callers seed one `StdRng` and thread it through every
//! call, so a given seed reproduces a given layout. Nothing in the library's
//! correctness argument depends on the values drawn, only on their ranges.

use vstd::prelude::*;

verus! {

#[verifier::external_type_specification]
#[verifier::external_body]
pub struct ExStdRng(rand::rngs::StdRng);

/// Relies on rand's `SeedableRng::seed_from_u64` for `StdRng`: constructs a
/// deterministic generator from the given seed.
#[verifier::external_body]
pub fn rng_seeded(seed: u64) -> rand::rngs::StdRng {
    <rand::rngs::StdRng as rand::SeedableRng>::seed_from_u64(seed)
}

/// Relies on rand's `Rng::gen_range` on a `Range<u64>`: it panics on an empty
/// range (ruled out here) and otherwise returns a value in `[lo, hi)`.
#[verifier::external_body]
pub(crate) fn rand_range(rng: &mut rand::rngs::StdRng, lo: u64, hi: u64) -> (r: u64)
    requires
        lo < hi,
    ensures
        lo <= r < hi,
{
    rand::Rng::gen_range(rng, lo..hi)
}

/// Relies on rand's `Rng::gen_ratio`: true with probability `num/den`; it
/// panics when `den == 0` or `num > den` (ruled out here), returns `true`
/// whenever `num == den` and `false` whenever `num == 0`.
#[verifier::external_body]
pub(crate) fn rand_ratio(rng: &mut rand::rngs::StdRng, num: u32, den: u32) -> (r: bool)
    requires
        0 < den,
        num <= den,
    ensures
        num == den ==> r,
        num == 0 ==> !r,
{
    rand::Rng::gen_ratio(rng, num, den)
}

} // verus!
