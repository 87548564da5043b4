//! The source of randomness: the standard generator of the `rand` crate.

use rand::rngs::StdRng;
use rand::Rng;
use vstd::prelude::*;

verus! {

/// `rand::rngs::StdRng`, the generator that the board is filled from. Nothing
/// of its state is known here.
#[verifier::external_type_specification]
#[verifier::external_body]
pub struct ExStdRng(rand::rngs::StdRng);

/// Draws one `bool` from the generator, by `rand::Rng::gen`.
///
/// Nothing is claimed of the value: either may come back, whatever was drawn
/// before. The call moves the generator on and does not fail.
#[verifier::external_body]
pub(crate) fn random_bool(rng: &mut StdRng) -> bool {
    rng.gen()
}

} // verus!
