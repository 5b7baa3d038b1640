use rand::Rng;
use vstd::prelude::*;

verus! {

/// `rand::rngs::ThreadRng`, the handle to the calling thread's generator. Nothing of its state
/// is visible here: it is only carried from where it is made to where it is drawn from.
#[verifier::external_type_specification]
#[verifier::external_body]
pub struct ExThreadRng(rand::rngs::ThreadRng);

/// `rand::thread_rng`: hands out the calling thread's generator. Nothing is claimed of it.
pub assume_specification[ rand::thread_rng ]() -> (rng: rand::rngs::ThreadRng)
;

/// `Rng::gen_range` on the half-open range `low..high` of `usize`. The crate panics on an
/// empty range, which the precondition rules out; the value drawn lies in the range. Which
/// value is drawn is left open.
#[verifier::external_body]
pub(crate) fn random_index(rng: &mut rand::rngs::ThreadRng, low: usize, high: usize) -> (index:
    usize)
    requires
        low < high,
    ensures
        low <= index < high,
{
    rng.gen_range(low..high)
}

/// `Rng::gen_ratio`: `true` with a chance of `numerator` in `denominator`. The crate panics
/// when the denominator is zero or smaller than the numerator, which the precondition rules
/// out. It documents two certain outcomes: always `true` when the two are equal, always
/// `false` when the numerator is zero. Any other draw is left open.
#[verifier::external_body]
pub(crate) fn random_chance(rng: &mut rand::rngs::ThreadRng, numerator: u32, denominator: u32) -> (hit:
    bool)
    requires
        0 < denominator,
        numerator <= denominator,
    ensures
        numerator == denominator ==> hit,
        numerator == 0 ==> !hit,
{
    rng.gen_ratio(numerator, denominator)
}

} // verus!
