//! Settlement relay decisions: for each winner, where the payout must be
//! routed (back to the stake's origin chain, or locally), whether the
//! origin chain must be notified, and what the leaderboard sink is told.
//!
//! These functions only decide; the surrounding runtime performs the
//! transfers and sends the messages.

use vstd::prelude::*;
use crate::arith::{sat_sub_u128, spec_sat_sub};
use crate::lottery::DrawOutcome;
use crate::prediction::BetOutcome;

verus! {

/// A value-transfer instruction for the external asset ledger.
#[derive(Clone, Copy, Debug, PartialEq, Eq)]
pub struct PrizeTransfer {
    pub recipient: u64,
    pub amount: u128,
    pub target_chain: u64,
    /// The origin chain differs from the executing chain, so it must be
    /// notified to make the application reachable there.
    pub notify_origin: bool,
}

/// Where a leaderboard update is delivered.
#[derive(Clone, Copy, Debug, PartialEq, Eq, Structural)]
pub enum LeaderboardRoute {
    /// Call the leaderboard application on the executing chain.
    Local,
    /// Send a cross-chain message to the chain hosting the leaderboard.
    CrossChain(u64),
}

/// One post-settlement win/loss delta for the leaderboard sink.
#[derive(Clone, Copy, Debug, PartialEq, Eq)]
pub struct ScoreUpdate {
    pub owner: u64,
    pub player_chain_id: u64,
    pub is_win: bool,
    /// Net profit when the player won, net loss otherwise.
    pub amount: u128,
}

/// The chain a payout is sent to: the stake's recorded origin chain, or
/// the executing chain when the stake had no recorded provenance.
pub fn settlement_destination(executing_chain: u64, source_chain_id: Option<u64>) -> (r: u64)
    ensures
        r == match source_chain_id {
            Some(c) => c,
            None => executing_chain,
        },
{
    match source_chain_id {
        Some(c) => c,
        None => executing_chain,
    }
}

/// Turn one lottery draw outcome into the transfer the asset ledger must
/// perform, if any: a zero prize needs no transfer; a cross-chain winner
/// is paid on their origin chain, which is also notified.
pub fn plan_prize_settlement(executing_chain: u64, out: &DrawOutcome) -> (r: Option<PrizeTransfer>)
    ensures
        out.prize_amount == 0 <==> r is None,
        r matches Some(t) ==> t.recipient == out.owner && t.amount == out.prize_amount
            && t.target_chain == (match out.source_chain_id {
            Some(c) => c,
            None => executing_chain,
        }) && (t.notify_origin <==> t.target_chain != executing_chain),
{
    if out.prize_amount == 0 {
        return None;
    }
    let target_chain = settlement_destination(executing_chain, out.source_chain_id);
    Some(
        PrizeTransfer {
            recipient: out.owner,
            amount: out.prize_amount,
            target_chain,
            notify_origin: target_chain != executing_chain,
        },
    )
}

/// Turn one prediction outcome into the reward transfer owed, if any.
pub fn plan_reward_settlement(executing_chain: u64, out: &BetOutcome) -> (r: Option<PrizeTransfer>)
    ensures
        out.total_winnings == 0 <==> r is None,
        r matches Some(t) ==> t.recipient == out.owner && t.amount == out.total_winnings
            && t.target_chain == (match out.source_chain_id {
            Some(c) => c,
            None => executing_chain,
        }) && (t.notify_origin <==> t.target_chain != executing_chain),
{
    if out.total_winnings == 0 {
        return None;
    }
    let target_chain = settlement_destination(executing_chain, out.source_chain_id);
    Some(
        PrizeTransfer {
            recipient: out.owner,
            amount: out.total_winnings,
            target_chain,
            notify_origin: target_chain != executing_chain,
        },
    )
}

/// The win/loss delta the leaderboard is told about one participant: the
/// net profit of a winner, or the net loss of everyone else, attributed
/// to the chain the player staked from.
pub fn leaderboard_delta(executing_chain: u64, out: &BetOutcome) -> (r: ScoreUpdate)
    ensures
        r.owner == out.owner,
        r.is_win == out.is_win,
        r.amount == if out.is_win {
            spec_sat_sub(out.total_winnings as int, out.total_wagered as int)
        } else {
            spec_sat_sub(out.total_wagered as int, out.total_winnings as int)
        },
        r.player_chain_id == (match out.source_chain_id {
            Some(c) => c,
            None => executing_chain,
        }),
{
    let amount = if out.is_win {
        sat_sub_u128(out.total_winnings, out.total_wagered)
    } else {
        sat_sub_u128(out.total_wagered, out.total_winnings)
    };
    ScoreUpdate {
        owner: out.owner,
        player_chain_id: settlement_destination(executing_chain, out.source_chain_id),
        is_win: out.is_win,
        amount,
    }
}

/// Where a leaderboard update is delivered: cross-chain only when a
/// leaderboard chain is configured and differs from the executing chain.
pub fn leaderboard_route(executing_chain: u64, configured_chain: Option<u64>) -> (r:
    LeaderboardRoute)
    ensures
        r == match configured_chain {
            Some(c) => if c != executing_chain {
                LeaderboardRoute::CrossChain(c)
            } else {
                LeaderboardRoute::Local
            },
            None => LeaderboardRoute::Local,
        },
{
    match configured_chain {
        Some(c) => {
            if c != executing_chain {
                LeaderboardRoute::CrossChain(c)
            } else {
                LeaderboardRoute::Local
            }
        },
        None => LeaderboardRoute::Local,
    }
}

} // verus!
