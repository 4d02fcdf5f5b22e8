//! Randomness, from the `rand` crate: every use states only what holds of
//! every outcome.

use vstd::prelude::*;
use crate::card::Card;
use rand::seq::SliceRandom;
use rand::Rng;

verus! {

/// Relies on `rand::rng().random_range(0..n)`: some index below `n`; it
/// panics on an empty range, so `n` is positive.
#[verifier::external_body]
pub(crate) fn random_below(n: usize) -> (r: usize)
    requires
        n > 0,
    ensures
        r < n,
{
    rand::rng().random_range(0..n)
}

/// Relies on `SliceRandom::shuffle` with `rand::rng()`: it only swaps
/// elements, so the same cards remain.
#[verifier::external_body]
pub(crate) fn shuffle_cards(v: &mut Vec<Card>)
    ensures
        final(v)@.len() == old(v)@.len(),
        final(v)@.to_multiset() == old(v)@.to_multiset(),
{
    v.shuffle(&mut rand::rng())
}

} // verus!
