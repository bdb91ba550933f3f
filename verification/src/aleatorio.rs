//! The engine's pseudo-random source: `rand`'s `StdRng`, seeded once at
//! engine construction, behind trusted wrappers. Nothing is assumed of
//! the drawn values beyond their range, so everything proved about the
//! engine holds for every sequence of draws.

use vstd::prelude::*;

verus! {

#[verifier::external_type_specification]
#[verifier::external_body]
pub struct ExStdRng(rand::rngs::StdRng);

/// Relies on rand's `SeedableRng::seed_from_u64`: builds a generator
/// whose state is determined by the seed alone.
#[verifier::external_body]
pub fn crear_rng(semilla: u64) -> rand::rngs::StdRng {
    <rand::rngs::StdRng as rand::SeedableRng>::seed_from_u64(semilla)
}

/// Relies on rand's `RngExt::random_range`: a value uniform in `[0, n)`;
/// it panics only on an empty range, which the precondition excludes.
#[verifier::external_body]
pub fn rango_aleatorio(rng: &mut rand::rngs::StdRng, n: usize) -> (r: usize)
    requires
        n >= 1,
    ensures
        r < n,
{
    rand::RngExt::random_range(rng, 0..n)
}

} // verus!
