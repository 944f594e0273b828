use vstd::prelude::*;

verus! {

/// rand's standard generator, held by every population for survivor
/// selection and peer choice.  Opaque to the verifier: nothing is assumed
/// about the values it produces beyond the ranges stated below.
#[verifier::external_type_specification]
#[verifier::external_body]
pub struct ExStdRng(rand::rngs::StdRng);

/// Relies on rand's `SeedableRng::from_entropy`: a fresh generator seeded
/// from system entropy.  Nothing is assumed about its state.
#[verifier::external_body]
pub(crate) fn rng_from_entropy() -> rand::rngs::StdRng {
    <rand::rngs::StdRng as rand::SeedableRng>::from_entropy()
}

/// Relies on rand's `Rng::gen_range`, which panics only on an empty range
/// and otherwise returns a value of the range.  Which value comes back is
/// left open: every caller must be correct for all of them.
#[verifier::external_body]
pub(crate) fn rng_gen_range(rng: &mut rand::rngs::StdRng, start: usize, end: usize) -> (r: usize)
    requires
        start < end,
    ensures
        start <= r < end,
{
    rand::Rng::gen_range(rng, start..end)
}

/// nanorand's WyRand generator, which drives the random moves of the
/// bundled example individual.
#[verifier::external_type_specification]
#[verifier::external_body]
pub struct ExWyRand(nanorand::WyRand);

/// Relies on nanorand's `WyRand::new`: a generator seeded from system
/// entropy.  Nothing is assumed about its state.
#[verifier::external_body]
pub(crate) fn wyrand_from_entropy() -> nanorand::WyRand {
    nanorand::WyRand::new()
}

/// Relies on nanorand's `Rng::generate_range`, which asserts that the
/// bounds are not reversed and, for a nonempty range, returns a value of
/// it.  Which value comes back is left open.
#[verifier::external_body]
pub(crate) fn wyrand_range(rng: &mut nanorand::WyRand, start: usize, end: usize) -> (r: usize)
    requires
        start < end,
    ensures
        start <= r < end,
{
    nanorand::Rng::generate_range(rng, start..end)
}

} // verus!
