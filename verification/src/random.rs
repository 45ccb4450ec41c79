//! The random choices, all drawn from `rand`'s generator of the thread.

use vstd::prelude::*;
use rand::rngs::ThreadRng;
use rand::seq::SliceRandom;
use rand::Rng;

verus! {

/// `rand::rngs::ThreadRng`, a handle on the generator of the current thread.
/// Nothing of its inside is known here.
#[verifier::external_type_specification]
#[verifier::external_body]
pub struct ExThreadRng(ThreadRng);

/// `rand::thread_rng` hands out the generator of the current thread. Nothing
/// is claimed of it.
pub assume_specification[ rand::thread_rng ]() -> (generator: ThreadRng);

/// Calls `SliceRandom::shuffle` on the path. Not proved: that the path holds
/// the same cities afterwards, each as often as before. In which order they
/// stand is left open.
#[verifier::external_body]
pub(crate) fn shuffle(path: &mut Vec<u16>, generator: &mut ThreadRng)
    ensures
        final(path)@.to_multiset() == old(path)@.to_multiset(),
{
    path.shuffle(generator);
}

/// Calls `Rng::gen_range` on the half-open range from `low` to `high`, which
/// must not be empty. Not proved: that the number drawn lies in the range.
#[verifier::external_body]
pub(crate) fn gen_range(generator: &mut ThreadRng, low: u16, high: u16) -> (drawn: u16)
    requires
        low < high,
    ensures
        low <= drawn < high,
{
    generator.gen_range(low..high)
}

} // verus!
