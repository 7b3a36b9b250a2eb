//! Trusted boundary to the `fastrand` pseudo-random generator. The automaton
//! promises nothing about which values come out of a draw beyond its range;
//! everything the engine guarantees holds for every outcome.

use vstd::prelude::*;

verus! {

/// `fastrand::Rng` declared for Verus: an opaque generator state.
#[verifier::external_type_specification]
#[verifier::external_body]
pub struct ExRng(fastrand::Rng);

/// Relies on `fastrand::Rng::with_seed`, which builds a generator from the
/// given seed alone and never fails.
#[verifier::external_body]
pub(crate) fn rng_from_seed(seed: u64) -> fastrand::Rng {
    fastrand::Rng::with_seed(seed)
}

/// Relies on `fastrand::Rng::new`, which seeds a generator from the
/// thread-local entropy source and never fails (it falls back to a fixed
/// seed when no entropy is available).
#[verifier::external_body]
pub(crate) fn rng_from_entropy() -> fastrand::Rng {
    fastrand::Rng::new()
}

/// Relies on `fastrand::Rng::bool`: a coin flip that may come out either
/// way; nothing is promised of it.
#[verifier::external_body]
pub(crate) fn rng_coin(rng: &mut fastrand::Rng) -> bool {
    rng.bool()
}

/// Relies on `fastrand::Rng::u32` over the range `0..n`: for `n >= 1` the
/// range is nonempty, so the call does not panic and yields a value below
/// `n`.
#[verifier::external_body]
pub(crate) fn rng_below(rng: &mut fastrand::Rng, n: u32) -> (r: u32)
    requires
        n >= 1,
    ensures
        r < n,
{
    rng.u32(0..n)
}

} // verus!
