//! The random draws that the pixel-set controller makes, taken from the
//! `rand` crate. Nothing here is proved: each contract states what the
//! crate's own text promises of the call.

use rand::rngs::ThreadRng;
use rand::Rng;
use vstd::prelude::*;

verus! {

#[verifier::external_type_specification]
#[verifier::external_body]
pub struct ExThreadRng(ThreadRng);

/// `rand::thread_rng`: a handle to the calling thread's generator, which the
/// system seeds on first use. Nothing is claimed of the handle. The crate
/// panics where the system has no random bytes to seed it with, which no
/// precondition can leave out.
#[verifier::external_body]
pub(crate) fn thread_rng() -> ThreadRng {
    rand::thread_rng()
}

/// `Rng::gen_range` on the half-open range from `low` to `high`: some value
/// of that range. The crate panics on an empty range, which the
/// precondition leaves out. Which value comes back is not stated, and two
/// calls may differ.
#[verifier::external_body]
pub(crate) fn gen_range(rng: &mut ThreadRng, low: usize, high: usize) -> (value: usize)
    requires
        low < high,
    ensures
        low <= value < high,
{
    rng.gen_range(low..high)
}

/// `Rng::gen_ratio`: true with probability `numerator / denominator`. The
/// crate panics on a zero denominator and on a numerator above the
/// denominator, which the precondition leaves out. It promises `false` for a
/// zero numerator and `true` where numerator and denominator are equal;
/// between the two nothing is stated of the outcome.
#[verifier::external_body]
pub(crate) fn gen_ratio(rng: &mut ThreadRng, numerator: u32, denominator: u32) -> (hit: bool)
    requires
        0 < denominator,
        numerator <= denominator,
    ensures
        numerator == 0 ==> !hit,
        numerator == denominator ==> hit,
{
    rng.gen_ratio(numerator, denominator)
}

} // verus!
