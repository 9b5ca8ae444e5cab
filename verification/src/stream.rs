//! The crate's border with the `rand` crate: the one place where random
//! values enter. Nothing is promised of any drawn value; the engines state
//! what holds of every outcome, whatever was drawn.
use vstd::prelude::*;
use rand::RngCore;

verus! {

#[verifier::external_type_specification]
#[verifier::external_body]
pub struct ExStdRng(rand::rngs::StdRng);

/// Relies on rand's `RngCore::next_u32` for `StdRng`: yields the generator's
/// next 32-bit value; nothing is promised of it.
#[verifier::external_body]
pub(crate) fn next_draw(rng: &mut rand::rngs::StdRng) -> u32 {
    rng.next_u32()
}

} // verus!
