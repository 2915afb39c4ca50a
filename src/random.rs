//! Random draws, from rand's seedable standard generator.
use vstd::prelude::*;

verus! {

/// rand's standard seedable generator, held opaque.
#[verifier::external_type_specification]
#[verifier::external_body]
pub struct ExStdRng(rand::rngs::StdRng);

/// Relies on rand::Rng::gen_range on `0..n`: a value below `n`; it panics
/// only on an empty range, which `requires` leaves out.
#[verifier::external_body]
pub(crate) fn draw_below(rng: &mut rand::rngs::StdRng, n: u32) -> (r: u32)
    requires
        n > 0,
    ensures
        r < n,
{
    rand::Rng::gen_range(rng, 0..n)
}

/// Relies on rand::Rng::gen_ratio: `true` with probability
/// `numerator / denominator`; it panics when `denominator == 0` or
/// `numerator > denominator`, which `requires` leaves out. Always `false` for
/// a numerator of 0, always `true` for equal numbers.
#[verifier::external_body]
pub(crate) fn draw_ratio(rng: &mut rand::rngs::StdRng, numerator: u32, denominator: u32) -> (r: bool)
    requires
        0 < denominator,
        numerator <= denominator,
    ensures
        numerator == 0 ==> !r,
        numerator == denominator ==> r,
{
    rand::Rng::gen_ratio(rng, numerator, denominator)
}

} // verus!
