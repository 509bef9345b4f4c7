//! Randomness for mob wandering and player spawn positions. The draw is
//! taken on trust; every decision made from it is verified for all
//! possible outcomes.

use vstd::prelude::*;
use rand::Rng;

verus! {

/// Relies on `rand::Rng::gen_range` over `0..n`, which returns a uniform
/// draw from that range and panics only when the range is empty. Nothing
/// is assumed of the draw beyond its bound; two calls on the same input
/// may differ.
#[verifier::external_body]
pub fn random_below(n: u32) -> (r: u32)
    requires
        n > 0,
    ensures
        r < n,
{
    let mut rng = rand::thread_rng();
    rng.gen_range(0..n)
}

} // verus!
