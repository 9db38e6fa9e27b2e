use vstd::prelude::*;
use rand::Rng;
use rand::SeedableRng;
use rand::distributions::Distribution;

verus! {

/// The deterministic pseudo-random generator the run draws from. One
/// top-level seed makes a whole run reproducible.
#[verifier::external_type_specification]
#[verifier::external_body]
pub struct ExStdRng(rand::rngs::StdRng);

/// Sum of a weight sequence, as an unbounded integer.
pub open spec fn sum_weights(s: Seq<u64>) -> int
    decreases s.len(),
{
    if s.len() == 0 {
        0
    } else {
        sum_weights(s.drop_last()) + s.last()
    }
}

/// Relies on rand's `StdRng::seed_from_u64`: builds a generator from one
/// 64-bit seed; never fails.
#[verifier::external_body]
pub fn rng_from_seed(seed: u64) -> rand::rngs::StdRng {
    rand::rngs::StdRng::seed_from_u64(seed)
}

/// Relies on rand's `Rng::gen_range` over `0..n`: returns a value of the
/// non-empty range, so strictly below `n`; panics only on an empty range,
/// which the precondition rules out.
#[verifier::external_body]
pub(crate) fn gen_below(rng: &mut rand::rngs::StdRng, n: usize) -> (r: usize)
    requires
        n >= 1,
    ensures
        r < n,
{
    rng.gen_range(0..n)
}

/// Relies on rand's `Rng::gen_range` over `0..=n`: returns a value of the
/// inclusive range, so at most `n`; the range is never empty.
#[verifier::external_body]
pub(crate) fn gen_upto(rng: &mut rand::rngs::StdRng, n: usize) -> (r: usize)
    ensures
        r <= n,
{
    rng.gen_range(0..=n)
}

/// Relies on rand's `WeightedIndex::new` and `Distribution::sample`:
/// `new` fails only on an empty list, a zero total or an overflowing sum,
/// all ruled out here, and `sample` returns an index below the number of
/// weights (a search among the strictly shorter cumulative-weight list).
#[verifier::external_body]
pub(crate) fn weighted_pick(rng: &mut rand::rngs::StdRng, weights: &Vec<u64>) -> (r: usize)
    requires
        weights@.len() >= 1,
        forall|i: int| 0 <= i < weights@.len() ==> #[trigger] weights@[i] >= 1,
        sum_weights(weights@) <= u64::MAX,
    ensures
        r < weights@.len(),
{
    let dist = rand::distributions::WeightedIndex::new(weights.iter()).unwrap();
    dist.sample(rng)
}

} // verus!
