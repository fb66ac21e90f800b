use wager_rounds::abi;
use wager_rounds::leaderboard::LeaderboardState;
use wager_rounds::lottery;
use wager_rounds::prediction::{self, BetOutcome, Prediction, PredictionState};
use wager_rounds::settle::{
    leaderboard_delta, leaderboard_route, plan_prize_settlement, plan_reward_settlement,
    settlement_destination, LeaderboardRoute,
};

const EXEC_CHAIN: u64 = 10;

fn outcome(owner: u64, wagered: u128, winnings: u128, chain: Option<u64>) -> BetOutcome {
    BetOutcome {
        owner,
        total_wagered: wagered,
        total_winnings: winnings,
        is_win: winnings > wagered,
        source_chain_id: chain,
    }
}

#[test]
fn destination_defaults_to_executing_chain() {
    assert_eq!(settlement_destination(EXEC_CHAIN, None), EXEC_CHAIN);
    assert_eq!(settlement_destination(EXEC_CHAIN, Some(3)), 3);
}

#[test]
fn prize_settlement_routing() {
    let mut s = lottery::LotteryState::new();
    let _ = s.create_lottery_round(10, 1_000);
    let _ = s.purchase_tickets(5, 60, Some(3)).unwrap();
    let _ = s.close_lottery_round(2_000).unwrap();
    let out = s.generate_winner(11, 1, 3_000, 10).unwrap();

    let plan = plan_prize_settlement(EXEC_CHAIN, &out).unwrap();
    assert_eq!(plan.recipient, 5);
    assert_eq!(plan.amount, out.prize_amount);
    assert_eq!(plan.target_chain, 3);
    assert!(plan.notify_origin);
}

#[test]
fn zero_prize_needs_no_transfer() {
    let o = outcome(5, 100, 0, None);
    assert!(plan_reward_settlement(EXEC_CHAIN, &o).is_none());
}

#[test]
fn local_reward_needs_no_notify() {
    let o = outcome(5, 100, 300, None);
    let plan = plan_reward_settlement(EXEC_CHAIN, &o).unwrap();
    assert_eq!(plan.target_chain, EXEC_CHAIN);
    assert!(!plan.notify_origin);
}

#[test]
fn leaderboard_delta_is_net() {
    let winner = outcome(5, 100, 300, Some(3));
    let d = leaderboard_delta(EXEC_CHAIN, &winner);
    assert!(d.is_win);
    assert_eq!(d.amount, 200);
    assert_eq!(d.player_chain_id, 3);

    let loser = outcome(6, 200, 0, None);
    let d = leaderboard_delta(EXEC_CHAIN, &loser);
    assert!(!d.is_win);
    assert_eq!(d.amount, 200);
    assert_eq!(d.player_chain_id, EXEC_CHAIN);
}

#[test]
fn leaderboard_routing() {
    assert_eq!(leaderboard_route(EXEC_CHAIN, None), LeaderboardRoute::Local);
    assert_eq!(
        leaderboard_route(EXEC_CHAIN, Some(EXEC_CHAIN)),
        LeaderboardRoute::Local
    );
    assert_eq!(
        leaderboard_route(EXEC_CHAIN, Some(4)),
        LeaderboardRoute::CrossChain(4)
    );
}

#[test]
fn leaderboard_tallies() {
    let mut lb = LeaderboardState::new();
    lb.update_score(5, 3, true, 200);
    lb.update_score(5, 4, false, 50);
    lb.update_score(6, 3, false, 10);

    let p = lb.get_player(5).unwrap();
    assert_eq!(p.wins, 1);
    assert_eq!(p.losses, 1);
    assert_eq!(p.total_won, 200);
    assert_eq!(p.total_lost, 50);
    assert_eq!(p.chain_id, 4);

    let q = lb.get_player(6).unwrap();
    assert_eq!(q.wins, 0);
    assert_eq!(q.losses, 1);
    assert!(lb.get_player(7).is_none());
}

#[test]
fn wire_conversions_lottery() {
    let mut s = lottery::LotteryState::new();
    let _ = s.create_lottery_round(10, 1_000);
    let round = s.get_round(1).unwrap();
    let wire = abi::lottery::lottery_round_to_lib(round);
    assert_eq!(wire.id, 1);
    assert_eq!(wire.status, abi::lottery::RoundStatus::Active);
    assert_eq!(
        wire.current_winner_pool,
        abi::lottery::WinnerPool::Pool1
    );
    assert_eq!(wire.ticket_price, 10);

    assert_eq!(
        abi::lottery::convert_round_status(lottery::RoundStatus::Complete),
        abi::lottery::RoundStatus::Complete
    );
    assert_eq!(
        abi::lottery::convert_status(lottery::RoundStatus::Closed),
        abi::lottery::RoundStatus::Closed
    );
    assert_eq!(
        abi::lottery::convert_winner_pool(lottery::WinnerPool::Pool3),
        abi::lottery::WinnerPool::Pool3
    );
    assert_eq!(
        abi::lottery::winner_pool_to_lib(lottery::WinnerPool::Pool4),
        abi::lottery::WinnerPool::Pool4
    );
    let converted = abi::lottery::convert_round(&round);
    assert_eq!(converted, wire);
    assert_eq!(abi::lottery::lottery_rounds_to_lib(vec![round]).len(), 1);
}

#[test]
fn wire_conversions_prediction() {
    assert_eq!(
        abi::prediction::prediction_from_lib(abi::prediction::Prediction::Up),
        Prediction::Up
    );
    assert_eq!(
        abi::prediction::prediction_to_lib(Prediction::Down),
        abi::prediction::Prediction::Down
    );
    assert_eq!(
        abi::prediction::to_rounds_prediction(abi::prediction::Prediction::Down),
        Prediction::Down
    );
    assert_eq!(
        abi::prediction::round_status_to_lib(prediction::RoundStatus::Resolved),
        abi::prediction::RoundStatus::Resolved
    );

    let mut s = PredictionState::new();
    let _ = s.create_round(1_000);
    s.place_bet(1, 100, Prediction::Up, None).unwrap();
    s.place_bet(1, 30, Prediction::Down, None).unwrap();
    s.place_bet(2, 50, Prediction::Down, None).unwrap();

    // one query entry per nonzero side, in placement order
    let infos = abi::prediction::active_bet_infos(&s.get_active_bets());
    assert_eq!(infos.len(), 3);
    assert_eq!(infos[0].owner, 1);
    assert_eq!(infos[0].prediction, abi::prediction::Prediction::Up);
    assert_eq!(infos[0].amount, 100);
    assert_eq!(infos[1].owner, 1);
    assert_eq!(infos[1].prediction, abi::prediction::Prediction::Down);
    assert_eq!(infos[1].amount, 30);
    assert_eq!(infos[2].owner, 2);

    let wire = abi::prediction::prediction_round_to_lib(s.get_round(1).unwrap());
    assert_eq!(wire.up_bets_pool, 100);
    assert_eq!(wire.down_bets_pool, 80);
    assert_eq!(wire.status, abi::prediction::RoundStatus::Active);
    assert_eq!(wire.result, None);

    // resolve and project the settlement-owed winners onto the wire
    let _ = s.close_round(500, 2_000).unwrap();
    let _ = s.resolve_round_and_distribute_rewards(1, 400, 3_000).unwrap();
    let winners = s.get_round_winners(1).unwrap();
    assert_eq!(winners.len(), 2);
    let info = abi::prediction::round_winner_info(&winners[0]);
    assert_eq!(info.owner, winners[0].owner);
    assert_eq!(info.winnings, winners[0].winnings);
}
