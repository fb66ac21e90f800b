use wager_rounds::prediction::{
    Prediction, PredictionError, PredictionState, RoundStatus,
};

const ALICE: u64 = 1;
const BOB: u64 = 2;
const CAROL: u64 = 3;

fn round_with_bets() -> PredictionState {
    let mut s = PredictionState::new();
    let id = s.create_round(1_000);
    assert_eq!(id, 1);
    s.place_bet(ALICE, 100, Prediction::Up, None).unwrap();
    s.place_bet(BOB, 200, Prediction::Down, Some(9)).unwrap();
    s
}

#[test]
fn up_side_resolution() {
    let mut s = round_with_bets();

    // closing freezes pools and opens the successor round
    let new_id = s.close_round(500, 2_000).unwrap();
    assert_eq!(new_id, 2);
    assert_eq!(s.get_active_round(), Some(2));
    let round = s.get_round(1).unwrap();
    assert_eq!(round.status, RoundStatus::Closed);
    assert_eq!(round.closing_price, Some(500));
    assert_eq!(round.up_bets, 1);
    assert_eq!(round.down_bets, 1);
    assert_eq!(round.up_bets_pool, 100);
    assert_eq!(round.down_bets_pool, 200);
    assert_eq!(round.prize_pool, 300);

    // resolution above the closing price: up wins the whole pool
    let outs = s.resolve_round_and_distribute_rewards(1, 600, 3_000).unwrap();
    assert_eq!(outs.len(), 2);
    let alice = outs.iter().find(|o| o.owner == ALICE).unwrap();
    assert_eq!(alice.total_wagered, 100);
    assert_eq!(alice.total_winnings, 300); // floor(100 * 300 / 100)
    assert!(alice.is_win);
    let bob = outs.iter().find(|o| o.owner == BOB).unwrap();
    assert_eq!(bob.total_wagered, 200);
    assert_eq!(bob.total_winnings, 0);
    assert!(!bob.is_win);
    assert_eq!(bob.source_chain_id, Some(9));

    let round = s.get_round(1).unwrap();
    assert_eq!(round.status, RoundStatus::Resolved);
    assert_eq!(round.result, Some(Prediction::Up));
    assert_eq!(round.resolution_price, Some(600));

    // the winner list names the unsettled winner once
    let winners = s.get_round_winners(1).unwrap();
    assert_eq!(winners.len(), 1);
    assert_eq!(winners[0].owner, ALICE);
    assert_eq!(winners[0].bet_amount, 100);
    assert_eq!(winners[0].winnings, 300);
}

#[test]
fn equal_price_resolution() {
    let mut s = round_with_bets();
    let _ = s.close_round(500, 2_000).unwrap();

    // resolved at exactly the closing price: nobody wins, nobody panics
    let outs = s.resolve_round_and_distribute_rewards(1, 500, 3_000).unwrap();
    assert_eq!(outs.len(), 2);
    for o in &outs {
        assert_eq!(o.total_winnings, 0);
        assert!(!o.is_win);
    }
    let round = s.get_round(1).unwrap();
    assert_eq!(round.status, RoundStatus::Resolved);
    assert_eq!(round.result, None);

    // no winners, and claiming is refused
    let winners = s.get_round_winners(1).unwrap();
    assert!(winners.is_empty());
    assert_eq!(s.claim_winnings(1, ALICE), Err(PredictionError::EqualPrices));
}

#[test]
fn down_side_resolution() {
    let mut s = round_with_bets();
    let _ = s.close_round(500, 2_000).unwrap();
    let outs = s.resolve_round_and_distribute_rewards(1, 400, 3_000).unwrap();
    let bob = outs.iter().find(|o| o.owner == BOB).unwrap();
    assert_eq!(bob.total_winnings, 300); // floor(200 * 300 / 200)
    assert!(bob.is_win);
    let alice = outs.iter().find(|o| o.owner == ALICE).unwrap();
    assert_eq!(alice.total_winnings, 0);
}

#[test]
fn bets_merge_additively() {
    let mut s = PredictionState::new();
    let _ = s.create_round(1_000);
    s.place_bet(ALICE, 100, Prediction::Up, None).unwrap();
    s.place_bet(ALICE, 50, Prediction::Up, None).unwrap();
    s.place_bet(ALICE, 25, Prediction::Down, None).unwrap();

    let round = s.get_round(1).unwrap();
    // repeat purchases double the stake, they do not deduplicate;
    // the owner is counted once per side
    assert_eq!(round.up_bets_pool, 150);
    assert_eq!(round.down_bets_pool, 25);
    assert_eq!(round.prize_pool, 175);
    assert_eq!(round.up_bets, 1);
    assert_eq!(round.down_bets, 1);

    let bets = s.get_active_bets();
    assert_eq!(bets.len(), 1);
    assert_eq!(bets[0].amount_up, 150);
    assert_eq!(bets[0].amount_down, 25);
}

#[test]
fn claim_winnings_paths() {
    let mut s = round_with_bets();
    s.place_bet(CAROL, 40, Prediction::Up, None).unwrap();
    let _ = s.close_round(500, 2_000).unwrap();
    let _ = s.resolve_round_and_distribute_rewards(1, 600, 3_000).unwrap();

    // the legacy claim path returns the winning-side stake and flags it
    assert_eq!(s.claim_winnings(1, ALICE), Ok(100));
    assert_eq!(s.claim_winnings(1, ALICE), Err(PredictionError::AlreadyClaimed));
    assert_eq!(s.claim_winnings(1, BOB), Err(PredictionError::NoWinningBets));
    assert_eq!(s.claim_winnings(1, 77), Err(PredictionError::NoBetsFound));
    assert_eq!(s.claim_winnings(9, ALICE), Err(PredictionError::RoundNotFound));
    assert_eq!(s.claim_winnings(2, ALICE), Err(PredictionError::RoundNotResolved));

    // a claimed winner drops off the settlement-owed list
    let winners = s.get_round_winners(1).unwrap();
    assert_eq!(winners.len(), 1);
    assert_eq!(winners[0].owner, CAROL);
}

#[test]
fn resolve_errors() {
    let mut s = round_with_bets();
    assert_eq!(
        s.resolve_round_and_distribute_rewards(1, 600, 3_000),
        Err(PredictionError::RoundNotClosed)
    );
    assert_eq!(
        s.resolve_round_and_distribute_rewards(9, 600, 3_000),
        Err(PredictionError::RoundNotFound)
    );
}

#[test]
fn bet_errors() {
    let mut s = PredictionState::new();
    assert_eq!(
        s.place_bet(ALICE, 100, Prediction::Up, None),
        Err(PredictionError::NoActiveRound)
    );
    let _ = s.create_round(1_000);
    assert_eq!(
        s.place_bet_with_balance(ALICE, 100, Prediction::Up, 99, None),
        Err(PredictionError::InsufficientBalance)
    );
    assert!(s.place_bet_with_balance(ALICE, 100, Prediction::Up, 100, None).is_ok());
}

#[test]
fn prediction_idempotent_read() {
    let s = round_with_bets();
    assert_eq!(s.get_round(1), s.get_round(1));
    assert_eq!(s.get_round(9), None);
    assert_eq!(s.get_all_rounds().len(), 1);
}
