//! The two places where the library asks the outside world for a number.

use vstd::prelude::*;
use rand::Rng;

verus! {

/// Draws from the thread-local generator of the `rand` crate with
/// `Rng::gen_range(0, bound)`. That method returns a value of the half-open
/// range `[0, bound)` and panics when the range is empty, so the bound must be
/// positive. Which value comes back is left open.
#[verifier::external_body]
pub(crate) fn random_below(bound: u64) -> (drawn: u64)
    requires
        bound > 0,
    ensures
        drawn < bound,
{
    rand::thread_rng().gen_range(0, bound)
}

/// Asks `num_cpus::get()` for the number of processors this process may use.
/// Nothing is claimed of the answer: it depends on the machine.
#[verifier::external_body]
pub(crate) fn available_cores() -> (cores: usize) {
    num_cpus::get()
}

} // verus!
