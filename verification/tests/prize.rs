use wager_rounds::lottery::WinnerPool;
use wager_rounds::prize::{
    calculate_prize_for_pool, calculate_prize_per_winner, calculate_winnings_proportional,
};

#[test]
fn test_calculate_winnings_overflow() {
    // 50 tokens with 18 decimals
    let token_amount: u128 = 50_000_000_000_000_000_000;

    let bet_amount = token_amount;
    let winner_pool = token_amount;
    let total_prize_pool = token_amount;

    let winnings = calculate_winnings_proportional(bet_amount, winner_pool, total_prize_pool);

    println!("Winnings: {:?}", winnings);
    assert_eq!(winnings, token_amount, "Winnings calculation overflowed!");
}

#[test]
fn state_test_calculate_winnings_overflow() {
    let token_amount: u128 = 50_000_000_000_000_000_000;

    let winnings = calculate_winnings_proportional(token_amount, token_amount, token_amount);

    println!("Winnings: {:?}", winnings);
    assert_eq!(winnings, token_amount, "Winnings calculation overflowed!");
}

#[test]
fn exact_division_example() {
    // pool = 1000, tier one takes 20% => 200
    let tier_pool = calculate_prize_for_pool(1000, WinnerPool::Pool1);
    assert_eq!(tier_pool, 200);

    // three winners share 200 => 66 each, remainder 2 retained
    let per_winner = calculate_prize_per_winner(1000, WinnerPool::Pool1, 3);
    assert_eq!(per_winner, 66);
    assert_eq!(tier_pool - 3 * per_winner, 2);
}

#[test]
fn proportional_payout_example() {
    // total pool 300, winning side 100, stake 40 => floor(40*300/100) = 120
    let winnings = calculate_winnings_proportional(40, 100, 300);
    assert_eq!(winnings, 120);
}

#[test]
fn tier_percentages() {
    assert_eq!(calculate_prize_for_pool(1000, WinnerPool::Pool1), 200);
    assert_eq!(calculate_prize_for_pool(1000, WinnerPool::Pool2), 250);
    assert_eq!(calculate_prize_for_pool(1000, WinnerPool::Pool3), 300);
    assert_eq!(calculate_prize_for_pool(1000, WinnerPool::Pool4), 250);
    assert_eq!(calculate_prize_for_pool(1000, WinnerPool::Complete), 0);
}

#[test]
fn huge_pool_does_not_overflow() {
    // close to the largest representable amount: the percentage split must
    // not wrap
    let pool = u128::MAX - 17;
    let tier = calculate_prize_for_pool(pool, WinnerPool::Pool3);
    assert_eq!(tier, pool / 10 * 3 + pool % 10 * 3 / 10);
    assert!(tier <= pool);
}

#[test]
fn zero_winner_pool_pays_nothing() {
    assert_eq!(calculate_winnings_proportional(40, 0, 300), 0);
}

#[test]
fn zero_winners_pay_nothing() {
    assert_eq!(calculate_prize_per_winner(1000, WinnerPool::Pool1, 0), 0);
}

#[test]
fn conservation_on_odd_numbers() {
    // quotas 3, 2, 5, 7 on a pool of 12345: the tiers never disburse more
    // than the pool
    let pool: u128 = 12345;
    let quotas: [u64; 4] = [3, 2, 5, 7];
    let tiers = [
        WinnerPool::Pool1,
        WinnerPool::Pool2,
        WinnerPool::Pool3,
        WinnerPool::Pool4,
    ];
    let mut disbursed: u128 = 0;
    for k in 0..4 {
        let per = calculate_prize_per_winner(pool, tiers[k], quotas[k]);
        disbursed += quotas[k] as u128 * per;
    }
    assert!(disbursed <= pool);
}
