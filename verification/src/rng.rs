//! The engine's pseudo-random bit source: fastrand's small deterministic
//! generator, seeded once from the board's entropy value.
//!
//! Nothing is assumed of the generated values: the game is correct for
//! every sequence of bits the generator may produce.

use vstd::prelude::*;

verus! {

/// fastrand's generator type, declared so the engine can hold one.
#[verifier::external_type_specification]
#[verifier::external_body]
pub struct ExRng(fastrand::Rng);

/// Relies on `fastrand::Rng::with_seed`: builds a generator from the
/// given seed. The generator's state is opaque here, so nothing is
/// stated of the result.
#[verifier::external_body]
pub(crate) fn rng_with_seed(seed: u64) -> fastrand::Rng {
    fastrand::Rng::with_seed(seed)
}

/// Relies on `fastrand::Rng::bool`: one pseudo-random bit, advancing the
/// generator. Nothing is stated of the value: callers must be correct
/// for both outcomes.
#[verifier::external_body]
pub(crate) fn rng_bool(rng: &mut fastrand::Rng) -> bool {
    rng.bool()
}

} // verus!
