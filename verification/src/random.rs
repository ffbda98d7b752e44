//! The random number generators that the library draws from.
//!
//! Nothing here is proved: each contract is taken on trust from the
//! generator's documentation and source.

use vstd::prelude::*;

verus! {

/// `fastrand::Rng`, a seedable pseudo-random generator. Its state is opaque
/// to the proofs: a generator is only ever handed on to the draws below.
#[verifier::external_type_specification]
#[verifier::external_body]
pub struct ExRng(fastrand::Rng);

/// Calls `fastrand::Rng::u32` on the half-open range `low..high`.
///
/// Assumed: the draw lies in the range. `fastrand` panics on an empty range,
/// which the precondition rules out.
#[verifier::external_body]
pub(crate) fn draw_u32(rng: &mut fastrand::Rng, low: u32, high: u32) -> (n: u32)
    requires
        low < high,
    ensures
        low <= n < high,
{
    rng.u32(low..high)
}

/// Calls `fastrand::Rng::usize` on the half-open range `low..high`.
///
/// Assumed: the draw lies in the range. `fastrand` panics on an empty range,
/// which the precondition rules out.
#[verifier::external_body]
pub(crate) fn draw_usize(rng: &mut fastrand::Rng, low: usize, high: usize) -> (n: usize)
    requires
        low < high,
    ensures
        low <= n < high,
{
    rng.usize(low..high)
}

/// Calls `rand::seq::SliceRandom::shuffle` on the cells, with the generator
/// of the current thread, `rand::thread_rng`.
///
/// Assumed: the shuffle only swaps entries, so the cells that come out are
/// those that went in, each as often as before. Nothing is said of their
/// order. The thread's generator stops the program if the operating system
/// gives it no seed when it is first used, no fresh seed when it reseeds
/// itself later, or no way to register its handler for forked processes. No
/// argument causes any of these, so no precondition can rule them out.
#[verifier::external_body]
pub(crate) fn shuffle_cells(cells: &mut Vec<(usize, usize)>)
    ensures
        final(cells)@.to_multiset() == old(cells)@.to_multiset(),
{
    rand::seq::SliceRandom::shuffle(cells.as_mut_slice(), &mut rand::thread_rng());
}

} // verus!
