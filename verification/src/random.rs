//! Randomized policy primitives of the scheduler: a weighted index draw, a
//! probability-weighted coin, and the combination-length sample.
//!
//! The only trusted part is the draw of raw random words from `rand`; every
//! decision taken from such a word is verified for all values of it.

use vstd::prelude::*;
use crate::energy::COVERAGE_SCALE;

verus! {

/// Relies on rand::random: one draw from the thread-local generator.
/// Nothing is promised of the value: every caller must be correct for all
/// outcomes.
pub assume_specification<T>[ rand::random::<T> ]() -> (r: T)
    where
        rand::distr::StandardUniform: rand::distr::Distribution<T>,
;

/// The sum of a sequence of weights.
pub open spec fn sum_weights(s: Seq<u64>) -> int
    decreases s.len(),
{
    if s.len() == 0 {
        0
    } else {
        sum_weights(s.drop_last()) + s.last()
    }
}

/// Weight sums are non-negative and bounded by count times the largest
/// weight value.
proof fn lemma_sum_weights_bound(s: Seq<u64>)
    ensures
        0 <= sum_weights(s) <= s.len() * (u64::MAX as int),
    decreases s.len(),
{
    if s.len() == 0 {
    } else {
        lemma_sum_weights_bound(s.drop_last());
        assert((s.len() - 1) * (u64::MAX as int) + (u64::MAX as int) == s.len() * (
        u64::MAX as int)) by {
            vstd::arithmetic::mul::lemma_mul_is_distributive_sub_other_way(
                u64::MAX as int,
                s.len() as int,
                1,
            );
        }
    }
}

/// A sequence with a positive element has a positive sum.
proof fn lemma_sum_weights_pos(s: Seq<u64>, i: int)
    requires
        0 <= i < s.len(),
        s[i] > 0,
    ensures
        sum_weights(s) > 0,
    decreases s.len(),
{
    lemma_sum_weights_bound(s.drop_last());
    if i < s.len() - 1 {
        lemma_sum_weights_pos(s.drop_last(), i);
    }
}

/// A uniformly random choice among `n` alternatives.
pub fn uniform_index(n: usize) -> (i: usize)
    requires
        n > 0,
    ensures
        i < n,
{
    let r: u64 = rand::random::<u64>();
    (r as usize) % n
}

/// Weighted random draw over `weights`: an index is returned whose weight is
/// positive whenever any weight is; when all weights are zero the draw falls
/// back to a uniform choice instead of failing.
pub fn weighted_choose(weights: &Vec<u64>) -> (i: usize)
    requires
        weights.len() > 0,
    ensures
        i < weights.len(),
        sum_weights(weights@) > 0 ==> weights@[i as int] > 0,
{
    let ghost all = weights@;
    let n: usize = weights.len();
    let mut total: u128 = 0;
    let mut j: usize = 0;
    while j < n
        invariant
            j <= n,
            n == all.len(),
            total == sum_weights(all.take(j as int)),
            all == weights@,
        decreases n - j,
    {
        proof {
            lemma_sum_weights_bound(all.take(j as int));
            assert(all.take(j as int).len() * (u64::MAX as int) <= (all.len() - 1) * (
            u64::MAX as int)) by {
                vstd::arithmetic::mul::lemma_mul_inequality(
                    all.take(j as int).len() as int,
                    all.len() - 1,
                    u64::MAX as int,
                );
            }
            assert((all.len() - 1) * (u64::MAX as int) + (u64::MAX as int) <= u128::MAX) by {
                vstd::arithmetic::mul::lemma_mul_inequality(
                    all.len() - 1,
                    u64::MAX as int,
                    u64::MAX as int,
                );
                assert((u64::MAX as int) * (u64::MAX as int) + (u64::MAX as int) <= u128::MAX)
                    by (nonlinear_arith);
            }
            assert(all.take(j as int + 1).drop_last() =~= all.take(j as int));
        }
        total = total + (weights[j] as u128);
        j = j + 1;
    }
    proof {
        assert(all.take(all.len() as int) =~= all);
    }
    if total == 0 {
        return uniform_index(weights.len());
    }
    let r: u128 = (rand::random::<u64>() as u128) % total;
    let mut cum: u128 = 0;
    let mut idx: usize = 0;
    while idx < n
        invariant
            idx <= n,
            n == all.len(),
            all == weights@,
            cum == sum_weights(all.take(idx as int)),
            r >= cum,
            r < total,
            total == sum_weights(all),
        decreases n - idx,
    {
        proof {
            lemma_sum_weights_bound(all.take(idx as int));
            assert(all.take(idx as int + 1).drop_last() =~= all.take(idx as int));
        }
        let next: u128 = cum + (weights[idx] as u128);
        if r < next {
            return idx;
        }
        cum = next;
        idx = idx + 1;
    }
    proof {
        assert(all.take(all.len() as int) =~= all);
        assert(false);
    }
    0
}

/// A coin that comes up true with probability `prob_ppm` parts per million.
/// A probability of zero never fires; one of a full million or more always
/// does.
pub fn prob_coin(prob_ppm: u32) -> (r: bool)
    ensures
        prob_ppm == 0 ==> !r,
        prob_ppm >= COVERAGE_SCALE ==> r,
{
    let draw: u64 = rand::random::<u64>() % COVERAGE_SCALE;
    draw < (prob_ppm as u64)
}

/// How many APIs the next combination should hold: sampled uniformly from
/// `1..=max_len`, independently of any energy.
pub fn rand_comb_len(max_len: usize) -> (r: usize)
    requires
        max_len > 0,
    ensures
        1 <= r <= max_len,
{
    1 + uniform_index(max_len)
}

} // verus!
