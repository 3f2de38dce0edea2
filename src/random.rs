//! Random draws. Each result depends on chance, so the contracts state only what holds of
//! every outcome; the logic that uses a draw is verified for every value of it.
use vstd::prelude::*;

use rand::Rng;

verus! {

/// A character of the alphabet `[A-Za-z0-9]`.
pub open spec fn is_ascii_alphanumeric(c: char) -> bool {
    ('A' <= c && c <= 'Z') || ('a' <= c && c <= 'z') || ('0' <= c && c <= '9')
}

/// Relies on `rand::Rng::gen_range` on the thread-local generator: a value in `[low, high)`;
/// it panics when `low >= high`.
#[verifier::external_body]
pub(crate) fn random_range(low: usize, high: usize) -> (r: usize)
    requires
        low < high,
    ensures
        low <= r < high,
{
    rand::thread_rng().gen_range(low, high)
}

/// Relies on `rand::random::<usize>`: any machine word.
#[verifier::external_body]
pub(crate) fn random_usize() -> (r: usize) {
    rand::random::<usize>()
}

/// Relies on `rand::Rng::sample_iter` with `rand::distributions::Alphanumeric`, taking `len`
/// samples from the thread-local generator: every character is drawn from `[A-Za-z0-9]`.
#[verifier::external_body]
pub(crate) fn random_alphanumeric(len: usize) -> (r: String)
    ensures
        r@.len() == len,
        forall|i: int| 0 <= i < r@.len() ==> is_ascii_alphanumeric(#[trigger] r@[i]),
{
    rand::thread_rng().sample_iter(&rand::distributions::Alphanumeric).take(len).collect()
}

} // verus!
