//! The source of randomness for mine placement.

use vstd::prelude::*;

verus! {

/// Draws `amount` distinct indices uniformly from `0..length`.
///
/// Relies on rand::seq::index::sample: it returns exactly `amount` distinct
/// indices from `0..length` in unspecified order, and panics when
/// `amount > length`.
#[verifier::external_body]
pub(crate) fn sample_indices(length: usize, amount: usize) -> (r: Vec<usize>)
    requires
        amount <= length,
    ensures
        r@.len() == amount,
        forall|k: int| 0 <= k < r@.len() ==> r@[k] < length,
        forall|k1: int, k2: int| 0 <= k1 < k2 < r@.len() ==> r@[k1] != r@[k2],
{
    let mut rng = rand::thread_rng();
    rand::seq::index::sample(&mut rng, length, amount).into_vec()
}

} // verus!
