//! The source of random numbers for backend selection.

use tower::util::rng::{HasherRng, Rng};
use vstd::prelude::*;

verus! {

/// `tower::util::rng::HasherRng`, the generator of random words that the
/// balancer of `tower` draws from. Its inside is not looked into: a value of
/// it is only made, kept and handed to `draw`.
#[verifier::external_type_specification]
#[verifier::external_body]
#[verifier::reject_recursive_types(H)]
pub struct ExHasherRng<H>(HasherRng<H>);

/// `tower::util::rng::HasherRng::new`: a generator seeded by the process.
/// Nothing is claimed of the generator that comes back.
#[verifier::external_body]
pub(crate) fn fresh_generator() -> HasherRng {
    HasherRng::new()
}

/// `tower::util::rng::Rng::next_u64` on a `HasherRng`: the next random word.
/// Which word it is depends on chance, so nothing is claimed of it.
#[verifier::external_body]
pub(crate) fn draw(generator: &mut HasherRng) -> u64 {
    generator.next_u64()
}

} // verus!
