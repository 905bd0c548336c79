use rand::Rng;
use vstd::prelude::*;

verus! {

/// Relies on `rand::Rng::gen_ratio` (thread-local generator): true with probability
/// `numerator / denominator`; always false for a zero numerator and always true
/// when the numerator equals the denominator. It panics on a zero denominator
/// or a numerator above it, which `requires` leaves out.
#[verifier::external_body]
pub(crate) fn chance(numerator: u32, denominator: u32) -> (r: bool)
    requires
        numerator <= denominator,
        denominator > 0,
    ensures
        numerator == 0 ==> !r,
        numerator == denominator ==> r,
{
    rand::thread_rng().gen_ratio(numerator, denominator)
}

/// Relies on `rand::Rng::gen_range` over `low..high` (thread-local generator): a value
/// in the half-open range. It panics on an empty range, which `requires` leaves out.
#[verifier::external_body]
pub(crate) fn random_in_range(low: i32, high: i32) -> (r: i32)
    requires
        low < high,
    ensures
        low <= r < high,
{
    rand::thread_rng().gen_range(low..high)
}

/// Relies on `rand::seq::SliceRandom::shuffle` (thread-local generator): the items are
/// permuted in place, by a series of swaps.
#[verifier::external_body]
pub(crate) fn shuffle_positions(v: &mut Vec<(usize, usize)>)
    ensures
        final(v)@.len() == old(v)@.len(),
        final(v)@.to_multiset() == old(v)@.to_multiset(),
{
    rand::seq::SliceRandom::shuffle(v.as_mut_slice(), &mut rand::thread_rng())
}

} // verus!
