use vstd::prelude::*;
use rand::seq::SliceRandom;
use rand::SeedableRng;

verus! {

#[verifier::external_type_specification]
#[verifier::external_body]
pub struct ExStdRng(rand::rngs::StdRng);

/// Relies on rand::SeedableRng::seed_from_u64: builds a deterministic
/// pseudo-random generator from a 64-bit seed. Nothing is claimed of the
/// generator's state.
#[verifier::external_body]
pub(crate) fn seeded_rng(seed: u64) -> rand::rngs::StdRng {
    rand::rngs::StdRng::seed_from_u64(seed)
}

/// Relies on rand::seq::SliceRandom::choose: on a non-empty slice it returns
/// `Some` of a reference to one of the slice's elements. Which element comes
/// back depends on the generator, so only membership is claimed.
#[verifier::external_body]
pub(crate) fn pick_from<T: Copy>(rng: &mut rand::rngs::StdRng, v: &Vec<T>) -> (r: T)
    requires
        v@.len() > 0,
    ensures
        v@.contains(r),
{
    *v.choose(rng).unwrap()
}

} // verus!
