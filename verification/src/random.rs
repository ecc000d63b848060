//! Random choices the exchange makes: redeem codes, placeholder names, and
//! which owner absorbs a rounding remainder.  Each is a call into `rand`;
//! the contracts state only what holds of every outcome.
use rand::distributions::Distribution;
use rand::Rng;
use vstd::prelude::*;

verus! {

/// The sum of a list of sampling weights.
pub open spec fn weight_sum(ws: Seq<u128>) -> int
    decreases ws.len(),
{
    if ws.len() == 0 {
        0
    } else {
        weight_sum(ws.drop_last()) + ws.last()
    }
}

/// A uniformly random index below `n`, from `rand::thread_rng().gen_range(0..n)`.
/// The contract claims only that the result is below `n`; `gen_range` panics
/// on an empty range, which `n > 0` rules out.
#[verifier::external_body]
pub(crate) fn random_below(n: usize) -> (r: usize)
    requires
        n > 0,
    ensures
        r < n,
{
    rand::thread_rng().gen_range(0..n)
}

/// A random index chosen with probability proportional to its weight, from
/// `rand::distributions::WeightedIndex::new(weights)` sampled with
/// `rand::thread_rng()`.  The contract claims: `None` exactly when there is
/// no weight or all weights are zero (the constructor's errors for unsigned
/// weights); otherwise an index in range whose weight is positive (the
/// sampler picks the item whose cumulative-weight interval holds a uniform
/// draw below the total).  The weights must not overflow when summed.
#[verifier::external_body]
pub(crate) fn sample_weighted_index(weights: &Vec<u128>) -> (r: Option<usize>)
    requires
        weight_sum(weights@) <= u128::MAX,
    ensures
        r is None <==> forall|i: int| 0 <= i < weights@.len() ==> weights@[i] == 0,
        r matches Some(i) ==> i < weights@.len() && weights@[i as int] > 0,
{
    match rand::distributions::WeightedIndex::new(weights) {
        Ok(dist) => Some(dist.sample(&mut rand::thread_rng())),
        Err(_) => None,
    }
}

/// An ASCII letter or digit, from `rand::distributions::Alphanumeric`
/// sampled with `rand::thread_rng()`: the distribution draws from the 62
/// characters `A-Z`, `a-z`, `0-9`, which is all the contract claims.
#[verifier::external_body]
pub(crate) fn random_alphanumeric() -> (r: char)
    ensures
        ('A' <= r <= 'Z') || ('a' <= r <= 'z') || ('0' <= r <= '9'),
{
    char::from(rand::thread_rng().sample(rand::distributions::Alphanumeric))
}

} // verus!
