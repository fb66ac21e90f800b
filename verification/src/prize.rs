//! Integer-exact prize splitting.
//!
//! Every division here happens once, at unbounded precision, so no
//! intermediate result can overflow and no rounding error compounds:
//! a tier's share is `floor(pool * percentage / 100)`, a winner's share
//! is the tier share divided evenly by the tier quota (remainder kept by
//! the pool), and a prediction payout is `floor(stake * pool / side)`.

use vstd::prelude::*;
use vstd::arithmetic::div_mod::{
    lemma_div_is_ordered, lemma_div_multiples_vanish, lemma_div_pos_is_pos,
    lemma_div_nonincreasing, lemma_fundamental_div_mod, lemma_mod_pos_bound,
};
use vstd::arithmetic::mul::lemma_mul_inequality;
use crate::arith::{mul_div_u128, spec_mul_div};
use crate::lottery::WinnerPool;

verus! {

/// Share of the total prize pool (in percent) paid to each winner tier.
pub open spec fn spec_pool_percentage(pool: WinnerPool) -> int {
    match pool {
        WinnerPool::Pool1 => 20,
        WinnerPool::Pool2 => 25,
        WinnerPool::Pool3 => 30,
        WinnerPool::Pool4 => 25,
        WinnerPool::Complete => 0,
    }
}

/// The slice of the prize pool allocated to one tier, floored once.
pub open spec fn spec_prize_for_pool(prize_pool: int, pool: WinnerPool) -> int {
    prize_pool * spec_pool_percentage(pool) / 100
}

/// The prize of a single winner in a tier: the tier slice divided evenly
/// among the tier's quota of winners, remainder retained by the pool.
pub open spec fn spec_prize_per_winner(prize_pool: int, pool: WinnerPool, winners: int) -> int {
    if winners == 0 {
        0
    } else {
        spec_prize_for_pool(prize_pool, pool) / winners
    }
}

/// Proportional prediction payout: the stake's share of the entire pool.
/// A zero winning side pays nothing to anyone.
pub open spec fn spec_winnings(bet: int, winner_pool: int, total_pool: int) -> int {
    if winner_pool == 0 {
        0
    } else {
        spec_mul_div(bet, total_pool, winner_pool)
    }
}

/// A percentage slice of a nonnegative amount never exceeds the amount.
pub proof fn lemma_pct_share_le(amount: int, pct: int)
    requires
        0 <= amount,
        0 <= pct <= 100,
    ensures
        0 <= amount * pct / 100 <= amount,
{
    lemma_mul_inequality(pct, 100, amount);
    assert(amount * pct == pct * amount) by (nonlinear_arith);
    assert(amount * 100 == 100 * amount) by (nonlinear_arith);
    lemma_div_is_ordered(amount * pct, amount * 100, 100);
    lemma_div_multiples_vanish(amount, 100);
    lemma_div_pos_is_pos(amount * pct, 100);
    assert(amount * pct >= 0) by (nonlinear_arith)
        requires 0 <= amount && 0 <= pct;
}

pub fn pool_percentage(pool: WinnerPool) -> (p: u64)
    ensures
        p == spec_pool_percentage(pool),
{
    match pool {
        WinnerPool::Pool1 => 20,
        WinnerPool::Pool2 => 25,
        WinnerPool::Pool3 => 30,
        WinnerPool::Pool4 => 25,
        WinnerPool::Complete => 0,
    }
}

/// Calculate the slice of the prize pool allocated to one winner tier.
pub fn calculate_prize_for_pool(prize_pool: u128, pool: WinnerPool) -> (r: u128)
    ensures
        r == spec_prize_for_pool(prize_pool as int, pool),
        r <= prize_pool,
{
    let pct = pool_percentage(pool);
    proof {
        lemma_pct_share_le(prize_pool as int, spec_pool_percentage(pool));
    }
    mul_div_u128(prize_pool, pct as u128, 100)
}

/// Calculate the prize paid to each individual winner of a tier.
/// A tier with no winners pays nothing.
pub fn calculate_prize_per_winner(prize_pool: u128, pool: WinnerPool, winners_in_pool: u64) -> (r:
    u128)
    ensures
        r == spec_prize_per_winner(prize_pool as int, pool, winners_in_pool as int),
        r <= prize_pool,
{
    if winners_in_pool == 0 {
        return 0;
    }
    let pool_prize = calculate_prize_for_pool(prize_pool, pool);
    proof {
        lemma_div_nonincreasing(pool_prize as int, winners_in_pool as int);
        lemma_div_pos_is_pos(pool_prize as int, winners_in_pool as int);
    }
    pool_prize / (winners_in_pool as u128)
}

/// Calculate a prediction winner's payout, proportional to their stake:
/// `floor(bet * total_pool / winner_pool)`, computed at unbounded precision.
pub fn calculate_winnings_proportional(
    bet_amount: u128,
    winner_pool: u128,
    total_prize_pool: u128,
) -> (r: u128)
    ensures
        r == spec_winnings(bet_amount as int, winner_pool as int, total_prize_pool as int),
{
    if winner_pool == 0 {
        return 0;
    }
    mul_div_u128(bet_amount, total_prize_pool, winner_pool)
}

/// The sum of two floored quotients with a common divisor never exceeds
/// the floored quotient of the sum.
pub proof fn lemma_div_sum_le(a: int, b: int, d: int)
    requires
        0 <= a,
        0 <= b,
        0 < d,
    ensures
        a / d + b / d <= (a + b) / d,
{
    lemma_fundamental_div_mod(a, d);
    lemma_fundamental_div_mod(b, d);
    lemma_mod_pos_bound(a, d);
    lemma_mod_pos_bound(b, d);
    let q = a / d + b / d;
    assert(a + b == q * d + (a % d + b % d)) by (nonlinear_arith)
        requires a == d * (a / d) + a % d && b == d * (b / d) + b % d && q == a / d + b / d;
    if a % d + b % d < d {
        vstd::arithmetic::div_mod::lemma_fundamental_div_mod_converse_div(a + b, d, q, a % d + b % d);
    } else {
        assert(a + b == (q + 1) * d + (a % d + b % d - d)) by (nonlinear_arith)
            requires a + b == q * d + (a % d + b % d);
        vstd::arithmetic::div_mod::lemma_fundamental_div_mod_converse_div(
            a + b, d, q + 1, a % d + b % d - d);
    }
}

/// Conservation of the prize pool: across the four tiers, the amounts
/// actually disbursed (tier quota times per-winner prize) sum to no more
/// than the pool, and the shortfall is exactly the flooring loss of the
/// percentage split plus the per-tier division remainders.
pub proof fn lemma_prize_conservation(pool: int, q1: int, q2: int, q3: int, q4: int)
    requires
        0 <= pool <= u128::MAX,
        1 <= q1,
        1 <= q2,
        1 <= q3,
        1 <= q4,
    ensures
        ({
            let t1 = spec_prize_for_pool(pool, WinnerPool::Pool1);
            let t2 = spec_prize_for_pool(pool, WinnerPool::Pool2);
            let t3 = spec_prize_for_pool(pool, WinnerPool::Pool3);
            let t4 = spec_prize_for_pool(pool, WinnerPool::Pool4);
            let disbursed = q1 * spec_prize_per_winner(pool, WinnerPool::Pool1, q1) + q2
                * spec_prize_per_winner(pool, WinnerPool::Pool2, q2) + q3 * spec_prize_per_winner(
                pool,
                WinnerPool::Pool3,
                q3,
            ) + q4 * spec_prize_per_winner(pool, WinnerPool::Pool4, q4);
            &&& 0 <= disbursed <= pool
            &&& pool - disbursed == (pool - (t1 + t2 + t3 + t4)) + (t1 % q1 + t2 % q2 + t3 % q3
                + t4 % q4)
        }),
{
    let t1 = spec_prize_for_pool(pool, WinnerPool::Pool1);
    let t2 = spec_prize_for_pool(pool, WinnerPool::Pool2);
    let t3 = spec_prize_for_pool(pool, WinnerPool::Pool3);
    let t4 = spec_prize_for_pool(pool, WinnerPool::Pool4);
    lemma_pct_share_le(pool, 20);
    lemma_pct_share_le(pool, 25);
    lemma_pct_share_le(pool, 30);

    // Each tier disburses its slice minus the division remainder.
    lemma_fundamental_div_mod(t1, q1);
    lemma_fundamental_div_mod(t2, q2);
    lemma_fundamental_div_mod(t3, q3);
    lemma_fundamental_div_mod(t4, q4);
    lemma_mod_pos_bound(t1, q1);
    lemma_mod_pos_bound(t2, q2);
    lemma_mod_pos_bound(t3, q3);
    lemma_mod_pos_bound(t4, q4);
    assert(q1 * (t1 / q1) == t1 - t1 % q1) by (nonlinear_arith)
        requires t1 == q1 * (t1 / q1) + t1 % q1;
    assert(q2 * (t2 / q2) == t2 - t2 % q2) by (nonlinear_arith)
        requires t2 == q2 * (t2 / q2) + t2 % q2;
    assert(q3 * (t3 / q3) == t3 - t3 % q3) by (nonlinear_arith)
        requires t3 == q3 * (t3 / q3) + t3 % q3;
    assert(q4 * (t4 / q4) == t4 - t4 % q4) by (nonlinear_arith)
        requires t4 == q4 * (t4 / q4) + t4 % q4;

    // The four slices together never exceed the whole pool.
    assert(pool * 20 >= 0 && pool * 25 >= 0 && pool * 30 >= 0) by (nonlinear_arith)
        requires pool >= 0;
    assert(pool * 20 + pool * 25 == pool * 45) by (nonlinear_arith);
    assert(pool * 30 + pool * 25 == pool * 55) by (nonlinear_arith);
    assert(pool * 45 + pool * 55 == pool * 100) by (nonlinear_arith);
    lemma_div_sum_le(pool * 20, pool * 25, 100);
    lemma_div_sum_le(pool * 30, pool * 25, 100);
    lemma_div_sum_le(pool * 45, pool * 55, 100);
    lemma_div_multiples_vanish(pool, 100);
    assert(pool * 100 == 100 * pool) by (nonlinear_arith);
    assert(t1 + t2 + t3 + t4 <= pool);
}

} // verus!
