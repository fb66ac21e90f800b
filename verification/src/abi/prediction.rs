//! Wire types of the prediction-market applications: what the betting
//! wrapper, the round manager, the asset ledger and the leaderboard
//! expose to callers, and the conversions from the engine's bookkeeping
//! onto them.

use vstd::prelude::*;
use crate::prediction;

verus! {

/// Direction of a bet, as exposed to callers.
#[derive(Clone, Copy, Debug, PartialEq, Eq, Structural)]
pub enum Prediction {
    Up,
    Down,
}

/// Status of a prediction round, as exposed to callers.
#[derive(Clone, Copy, Debug, PartialEq, Eq, Structural)]
pub enum RoundStatus {
    Active,
    Closed,
    Resolved,
}

/// A prediction round, as exposed to callers.
#[derive(Clone, Copy, Debug, PartialEq, Eq)]
pub struct PredictionRound {
    pub id: u64,
    pub created_at: u64,
    pub closed_at: Option<u64>,
    pub resolved_at: Option<u64>,
    pub status: RoundStatus,
    pub closing_price: Option<u128>,
    pub resolution_price: Option<u128>,
    pub up_bets: u64,
    pub down_bets: u64,
    pub up_bets_pool: u128,
    pub down_bets_pool: u128,
    pub prize_pool: u128,
    pub result: Option<Prediction>,
}

/// One open bet, as reported by queries: one entry per nonzero side.
#[derive(Clone, Copy, Debug, PartialEq, Eq)]
pub struct ActiveBetInfo {
    pub owner: u64,
    pub amount: u128,
    pub prediction: Prediction,
}

/// A winner, as reported by round queries.
#[derive(Clone, Copy, Debug, PartialEq, Eq)]
pub struct RoundWinnerInfo {
    pub owner: u64,
    pub bet_amount: u128,
    pub winnings: u128,
    pub source_chain_id: Option<u64>,
}

/// Configuration of the round manager application: the leaderboard it
/// reports to.
#[derive(Clone, Debug, PartialEq, Eq)]
pub struct RoundsParameters {
    pub leaderboard_app_id: String,
}

/// Configuration of the betting wrapper application: the asset ledger
/// and round manager it forwards to.
#[derive(Clone, Debug, PartialEq, Eq)]
pub struct WinzaParameters {
    pub native_app_id: String,
    pub rounds_app_id: String,
}

/// Protocol marker of the round manager application.
pub struct RoundsAbi;

/// Protocol marker of the betting wrapper application.
pub struct WinzaAbi;

/// Protocol marker of the plain asset-ledger application.
pub struct NativeAbi;

/// Protocol marker of the extended asset-ledger application (the asset
/// ledger with game-integration operations).
pub struct ExtendedNativeFungibleTokenAbi;

/// Protocol marker of the leaderboard application.
pub struct LeaderboardAbi;

/// Cross-chain messages of the round manager.
#[derive(Clone, Copy, Debug, PartialEq, Eq, Structural)]
pub enum Message {
    Notify,
    LeaderboardUpdate { owner: u64, chain_id: u64, is_win: bool, amount: u128 },
}

/// The engine-side image of a wire bet direction.
pub open spec fn spec_prediction_from_lib(p: Prediction) -> prediction::Prediction {
    match p {
        Prediction::Up => prediction::Prediction::Up,
        Prediction::Down => prediction::Prediction::Down,
    }
}

/// The wire image of a bet direction.
pub open spec fn spec_prediction_to_lib(p: prediction::Prediction) -> Prediction {
    match p {
        prediction::Prediction::Up => Prediction::Up,
        prediction::Prediction::Down => Prediction::Down,
    }
}

/// Read a wire bet direction into the engine's own type.
pub fn prediction_from_lib(lib_prediction: Prediction) -> (r: prediction::Prediction)
    ensures
        r == spec_prediction_from_lib(lib_prediction),
{
    match lib_prediction {
        Prediction::Up => prediction::Prediction::Up,
        Prediction::Down => prediction::Prediction::Down,
    }
}

/// Project a bet direction onto the wire.
pub fn prediction_to_lib(p: prediction::Prediction) -> (r: Prediction)
    ensures
        r == spec_prediction_to_lib(p),
{
    match p {
        prediction::Prediction::Up => Prediction::Up,
        prediction::Prediction::Down => Prediction::Down,
    }
}

/// Read a wire bet direction into the engine's own type (wrapper-side
/// alias).
pub fn to_rounds_prediction(pred: Prediction) -> (r: prediction::Prediction)
    ensures
        r == spec_prediction_from_lib(pred),
{
    prediction_from_lib(pred)
}

/// The wire image of a round status.
pub open spec fn spec_round_status_to_lib(status: prediction::RoundStatus) -> RoundStatus {
    match status {
        prediction::RoundStatus::Active => RoundStatus::Active,
        prediction::RoundStatus::Closed => RoundStatus::Closed,
        prediction::RoundStatus::Resolved => RoundStatus::Resolved,
    }
}

/// Project a round status onto the wire.
pub fn round_status_to_lib(status: prediction::RoundStatus) -> (r: RoundStatus)
    ensures
        r == spec_round_status_to_lib(status),
{
    match status {
        prediction::RoundStatus::Active => RoundStatus::Active,
        prediction::RoundStatus::Closed => RoundStatus::Closed,
        prediction::RoundStatus::Resolved => RoundStatus::Resolved,
    }
}

/// The wire image of a round: every bookkeeping field, unchanged.
pub open spec fn spec_prediction_round_to_lib(round: prediction::PredictionRound) -> PredictionRound {
    PredictionRound {
        id: round.id,
        created_at: round.created_at,
        closed_at: round.closed_at,
        resolved_at: round.resolved_at,
        status: spec_round_status_to_lib(round.status),
        closing_price: round.closing_price,
        resolution_price: round.resolution_price,
        up_bets: round.up_bets,
        down_bets: round.down_bets,
        up_bets_pool: round.up_bets_pool,
        down_bets_pool: round.down_bets_pool,
        prize_pool: round.prize_pool,
        result: match round.result {
            Some(p) => Some(spec_prediction_to_lib(p)),
            None => None,
        },
    }
}

/// Project a round onto the wire.
pub fn prediction_round_to_lib(round: prediction::PredictionRound) -> (r: PredictionRound)
    ensures
        r == spec_prediction_round_to_lib(round),
{
    PredictionRound {
        id: round.id,
        created_at: round.created_at,
        closed_at: round.closed_at,
        resolved_at: round.resolved_at,
        status: round_status_to_lib(round.status),
        closing_price: round.closing_price,
        resolution_price: round.resolution_price,
        up_bets: round.up_bets,
        down_bets: round.down_bets,
        up_bets_pool: round.up_bets_pool,
        down_bets_pool: round.down_bets_pool,
        prize_pool: round.prize_pool,
        result: match round.result {
            Some(p) => Some(prediction_to_lib(p)),
            None => None,
        },
    }
}

/// Project an optional round onto the wire.
pub fn prediction_round_option_to_lib(round: Option<prediction::PredictionRound>) -> (r: Option<
    PredictionRound,
>)
    ensures
        r == match round {
            Some(rr) => Some(spec_prediction_round_to_lib(rr)),
            None => Option::<PredictionRound>::None,
        },
{
    match round {
        Some(rr) => Some(prediction_round_to_lib(rr)),
        None => None,
    }
}

/// Project a list of rounds onto the wire, keeping order.
pub fn prediction_rounds_to_lib(rounds_vec: Vec<prediction::PredictionRound>) -> (r: Vec<
    PredictionRound,
>)
    ensures
        r@.len() == rounds_vec@.len(),
        forall|i: int|
            0 <= i < r@.len() ==> r@[i] == spec_prediction_round_to_lib(
                #[trigger] rounds_vec@[i],
            ),
{
    let n = rounds_vec.len();
    let mut out: Vec<PredictionRound> = Vec::new();
    let mut k: usize = 0;
    while k < n
        invariant
            n == rounds_vec@.len(),
            k <= n,
            out@.len() == k,
            forall|i: int|
                0 <= i < k ==> out@[i] == spec_prediction_round_to_lib(
                    #[trigger] rounds_vec@[i],
                ),
        decreases n - k,
    {
        out.push(prediction_round_to_lib(rounds_vec[k]));
        k = k + 1;
    }
    out
}

/// The query view of one merged bet: one entry per nonzero side, the up
/// side first.
pub open spec fn spec_active_entries(bet: prediction::PredictionBet) -> Seq<ActiveBetInfo> {
    let up = if bet.amount_up > 0 {
        seq![ActiveBetInfo { owner: bet.owner, amount: bet.amount_up, prediction: Prediction::Up }]
    } else {
        Seq::empty()
    };
    let down = if bet.amount_down > 0 {
        seq![
            ActiveBetInfo {
                owner: bet.owner,
                amount: bet.amount_down,
                prediction: Prediction::Down,
            },
        ]
    } else {
        Seq::empty()
    };
    up + down
}

/// The query view of a bet ledger, in placement order.
pub open spec fn spec_active_bet_infos(b: Seq<prediction::PredictionBet>) -> Seq<ActiveBetInfo>
    decreases b.len(),
{
    if b.len() == 0 {
        Seq::empty()
    } else {
        spec_active_bet_infos(b.drop_last()) + spec_active_entries(b.last())
    }
}

/// Flatten a bet ledger into the query view: one entry per nonzero side
/// of each merged bet, in placement order.
pub fn active_bet_infos(bets: &Vec<prediction::PredictionBet>) -> (r: Vec<ActiveBetInfo>)
    ensures
        r@ == spec_active_bet_infos(bets@),
{
    let n = bets.len();
    let mut out: Vec<ActiveBetInfo> = Vec::new();
    proof {
        assert(bets@.take(0) =~= Seq::<prediction::PredictionBet>::empty());
        assert(out@ =~= spec_active_bet_infos(bets@.take(0)));
    }
    let mut k: usize = 0;
    while k < n
        invariant
            n == bets@.len(),
            k <= n,
            out@ == spec_active_bet_infos(bets@.take(k as int)),
        decreases n - k,
    {
        let bet = bets[k];
        let ghost pre = out@;
        if bet.amount_up > 0 {
            out.push(ActiveBetInfo { owner: bet.owner, amount: bet.amount_up, prediction: Prediction::Up });
        }
        if bet.amount_down > 0 {
            out.push(
                ActiveBetInfo {
                    owner: bet.owner,
                    amount: bet.amount_down,
                    prediction: Prediction::Down,
                },
            );
        }
        proof {
            assert(bets@.take(k + 1).drop_last() =~= bets@.take(k as int));
            assert(bets@.take(k + 1).last() == bets@[k as int]);
            assert(out@ =~= pre + spec_active_entries(bets@[k as int]));
        }
        k = k + 1;
    }
    proof {
        assert(bets@.take(n as int) =~= bets@);
    }
    out
}

/// Project one settlement-owed winner onto the wire.
pub fn round_winner_info(w: &prediction::RoundWinner) -> (r: RoundWinnerInfo)
    ensures
        r.owner == w.owner,
        r.bet_amount == w.bet_amount,
        r.winnings == w.winnings,
        r.source_chain_id == w.source_chain_id,
{
    RoundWinnerInfo {
        owner: w.owner,
        bet_amount: w.bet_amount,
        winnings: w.winnings,
        source_chain_id: w.source_chain_id,
    }
}

} // verus!
