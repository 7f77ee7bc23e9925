use vstd::prelude::*;

verus! {

/// Relies on `rand::random`: a pseudo-random value drawn from the
/// thread-local generator.  Nothing is promised of it; callers state
/// what holds of every outcome.
#[verifier::external_body]
pub(crate) fn random_u64() -> u64 {
    rand::random::<u64>()
}

} // verus!
