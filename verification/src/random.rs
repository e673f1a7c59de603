//! The one source of chance in the game: `rand`'s thread-local generator.
use rand::RngExt;
use vstd::prelude::*;

verus! {

/// Draws a number from `0..n` with `rand::rng().random_range(0..n)`.
///
/// `RngExt::random_range` documents that a half-open range `low..high` yields a
/// value in that range, and that an empty range panics; `requires` rules the
/// empty range out. Which value comes back is chance: the contract says only
/// that it lies in the range. `rand::rng()` documents one more panic, which
/// no argument causes: the operating system's random source failing when the
/// thread's generator is first seeded.
#[verifier::external_body]
pub(crate) fn random_below(n: usize) -> (r: usize)
    requires
        n > 0,
    ensures
        r < n,
{
    rand::rng().random_range(0..n)
}

} // verus!
