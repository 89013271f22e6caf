//! Random draws. They come from the `rand` crate; this file states, without
//! proof, what holds of every value drawn.

use rand::Rng;
use vstd::prelude::*;

verus! {

/// The generator of the running thread, opaque to the verifier.
#[verifier::external_type_specification]
#[verifier::external_body]
pub struct ExThreadRng(rand::rngs::ThreadRng);

/// `rand::thread_rng`: a handle to the generator of the running thread.
/// Nothing is stated of it. The call panics where the system's source of
/// randomness cannot be read when the thread first asks for its generator.
pub assume_specification[ rand::thread_rng ]() -> (rng: rand::rngs::ThreadRng)
;

/// `Rng::gen_range` on the half-open range `low..high`: a value of that
/// range. The range must not be empty.
#[verifier::external_body]
pub(crate) fn draw_between(rng: &mut rand::rngs::ThreadRng, low: u32, high: u32) -> (drawn: u32)
    requires
        low < high,
    ensures
        low <= drawn < high,
{
    rng.gen_range(low..high)
}

} // verus!
