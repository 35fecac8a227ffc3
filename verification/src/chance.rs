//! The source of chance: the thread's random number generator.

use rand::{Rng, ThreadRng};
use vstd::prelude::*;

verus! {

/// `rand::ThreadRng`, the generator that belongs to the running thread.
/// Nothing of its state is visible here.
#[verifier::external_type_specification]
#[verifier::external_body]
pub struct ExThreadRng(ThreadRng);

/// `rand::thread_rng` hands out the running thread's generator, seeded by the
/// system. Nothing is claimed of it. It panics where the system has no
/// entropy to give.
pub assume_specification[ rand::thread_rng ]() -> (rng: ThreadRng)
;

/// `Rng::gen_range(low, high)` on `u64`: a value drawn evenly from
/// `[low, high)`. Claimed here: the value is at least `low` and below `high`,
/// whatever was drawn. The outside function panics unless `low` is below
/// `high`.
#[verifier::external_body]
pub(crate) fn draw_range(rng: &mut ThreadRng, low: u64, high: u64) -> (r: u64)
    requires
        low < high,
    ensures
        low <= r < high,
{
    rng.gen_range(low, high)
}

} // verus!
