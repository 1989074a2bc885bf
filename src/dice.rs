use vstd::prelude::*;
use rand::rngs::StdRng;
use rand::Rng;

verus! {

/// rand's seedable generator, carried through the engine unopened.
#[verifier::external_type_specification]
#[verifier::external_body]
pub struct ExStdRng(StdRng);

/// Relies on rand's `Rng::gen_range`: a value of `0..n`; it panics only on
/// an empty range.
#[verifier::external_body]
pub(crate) fn roll(rng: &mut StdRng, n: u32) -> (r: u32)
    requires
        n > 0,
    ensures
        r < n,
{
    rng.gen_range(0..n)
}

} // verus!
