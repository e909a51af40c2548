use vstd::prelude::*;

verus! {

#[verifier::external_type_specification]
#[verifier::external_body]
pub struct ExSmallRng(rand::rngs::SmallRng);

/// Relies on rand's `RngCore::next_u64` for one draw. The result is random:
/// nothing is assumed of it.
#[verifier::external_body]
pub(crate) fn rng_next_u64(rng: &mut rand::rngs::SmallRng) -> u64 {
    rand::RngCore::next_u64(rng)
}

/// One uniform fixed-point draw from the half-open unit interval, with the
/// granularity of the representation.
pub fn rand_unit(rng: &mut rand::rngs::SmallRng) -> (r: i64)
    ensures
        0 <= r < 65536,
{
    (rng_next_u64(rng) % 65536) as i64
}

} // verus!
