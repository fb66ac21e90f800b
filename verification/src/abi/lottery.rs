//! Wire types of the lottery applications: what the ticket-purchase
//! wrapper and the round manager expose to callers, and the conversions
//! from the engine's bookkeeping onto them.

use vstd::prelude::*;
use crate::lottery;

verus! {

/// Status of a lottery round, as exposed to callers.
#[derive(Clone, Copy, Debug, PartialEq, Eq, Structural)]
pub enum RoundStatus {
    Active,
    Closed,
    Complete,
}

/// Winner tier identifier, as exposed to callers.
#[derive(Clone, Copy, Debug, PartialEq, Eq, Structural)]
pub enum WinnerPool {
    Pool1,
    Pool2,
    Pool3,
    Pool4,
    Complete,
}

/// A lottery round, as exposed to callers.
#[derive(Clone, Copy, Debug, PartialEq, Eq)]
pub struct LotteryRound {
    pub id: u64,
    pub created_at: u64,
    pub closed_at: Option<u64>,
    pub status: RoundStatus,
    pub ticket_price: u128,
    pub total_tickets_sold: u64,
    pub next_ticket_number: u64,
    pub prize_pool: u128,
    pub current_winner_pool: WinnerPool,
    pub pool1_count: u64,
    pub pool2_count: u64,
    pub pool3_count: u64,
    pub pool4_count: u64,
    pub pool1_winners_drawn: u64,
    pub pool2_winners_drawn: u64,
    pub pool3_winners_drawn: u64,
    pub pool4_winners_drawn: u64,
}

/// A ticket purchase record, as exposed to callers.
#[derive(Clone, Copy, Debug, PartialEq, Eq)]
pub struct TicketPurchase {
    pub owner: u64,
    pub first_ticket: u64,
    pub last_ticket: u64,
    pub total_tickets: u64,
    pub amount_paid: u128,
    pub source_chain_id: Option<u64>,
}

/// A ticket purchase, as reported by round queries.
#[derive(Clone, Copy, Debug, PartialEq, Eq)]
pub struct TicketPurchaseInfo {
    pub owner: u64,
    pub first_ticket: u64,
    pub last_ticket: u64,
    pub total_tickets: u64,
    pub amount_paid: u128,
    pub source_chain_id: Option<u64>,
}

/// A winner, as reported by round queries.
#[derive(Clone, Copy, Debug, PartialEq, Eq)]
pub struct LotteryWinnerInfo {
    pub ticket_number: u64,
    pub owner: u64,
    pub prize_amount: u128,
    pub claimed: bool,
    pub source_chain_id: Option<u64>,
}

/// Configuration of the ticket-purchase wrapper application: the asset
/// ledger and round manager it forwards to.
#[derive(Clone, Debug, PartialEq, Eq)]
pub struct LotteryAppParameters {
    pub native_app_id: String,
    pub lottery_rounds_app_id: String,
}

/// Configuration of the round manager application.
#[derive(Clone, Debug, PartialEq, Eq)]
pub struct LotteryRoundsParameters {
    pub native_app_id: String,
}

/// Protocol marker of the ticket-purchase wrapper application.
pub struct LotteryAppAbi;

/// Protocol marker of the round manager application.
pub struct LotteryRoundsAbi;

/// Response of the ticket-purchase wrapper's operations.
#[derive(Clone, Copy, Debug, PartialEq, Eq, Structural)]
pub enum LotteryAppResponse {
    Accepted,
}

/// Cross-chain messages of the round manager.
#[derive(Clone, Copy, Debug, PartialEq, Eq, Structural)]
pub enum LotteryRoundsMessage {
    Notify,
}

/// Project a round status onto the wire.
pub fn round_status_to_lib(status: lottery::RoundStatus) -> (r: RoundStatus)
    ensures
        r == match status {
            lottery::RoundStatus::Active => RoundStatus::Active,
            lottery::RoundStatus::Closed => RoundStatus::Closed,
            lottery::RoundStatus::Complete => RoundStatus::Complete,
        },
{
    match status {
        lottery::RoundStatus::Active => RoundStatus::Active,
        lottery::RoundStatus::Closed => RoundStatus::Closed,
        lottery::RoundStatus::Complete => RoundStatus::Complete,
    }
}

/// Project a winner tier onto the wire.
pub fn winner_pool_to_lib(pool: lottery::WinnerPool) -> (r: WinnerPool)
    ensures
        r == spec_winner_pool_to_lib(pool),
{
    match pool {
        lottery::WinnerPool::Pool1 => WinnerPool::Pool1,
        lottery::WinnerPool::Pool2 => WinnerPool::Pool2,
        lottery::WinnerPool::Pool3 => WinnerPool::Pool3,
        lottery::WinnerPool::Pool4 => WinnerPool::Pool4,
        lottery::WinnerPool::Complete => WinnerPool::Complete,
    }
}

/// The wire image of a round status.
pub open spec fn spec_round_status_to_lib(status: lottery::RoundStatus) -> RoundStatus {
    match status {
        lottery::RoundStatus::Active => RoundStatus::Active,
        lottery::RoundStatus::Closed => RoundStatus::Closed,
        lottery::RoundStatus::Complete => RoundStatus::Complete,
    }
}

/// The wire image of a winner tier.
pub open spec fn spec_winner_pool_to_lib(pool: lottery::WinnerPool) -> WinnerPool {
    match pool {
        lottery::WinnerPool::Pool1 => WinnerPool::Pool1,
        lottery::WinnerPool::Pool2 => WinnerPool::Pool2,
        lottery::WinnerPool::Pool3 => WinnerPool::Pool3,
        lottery::WinnerPool::Pool4 => WinnerPool::Pool4,
        lottery::WinnerPool::Complete => WinnerPool::Complete,
    }
}

/// The wire image of a round: every bookkeeping field, unchanged.
pub open spec fn spec_lottery_round_to_lib(round: lottery::LotteryRound) -> LotteryRound {
    LotteryRound {
        id: round.id,
        created_at: round.created_at,
        closed_at: round.closed_at,
        status: spec_round_status_to_lib(round.status),
        ticket_price: round.ticket_price,
        total_tickets_sold: round.total_tickets_sold,
        next_ticket_number: round.next_ticket_number,
        prize_pool: round.prize_pool,
        current_winner_pool: spec_winner_pool_to_lib(round.current_winner_pool),
        pool1_count: round.pool1_count,
        pool2_count: round.pool2_count,
        pool3_count: round.pool3_count,
        pool4_count: round.pool4_count,
        pool1_winners_drawn: round.pool1_winners_drawn,
        pool2_winners_drawn: round.pool2_winners_drawn,
        pool3_winners_drawn: round.pool3_winners_drawn,
        pool4_winners_drawn: round.pool4_winners_drawn,
    }
}

/// Project a round onto the wire.
pub fn lottery_round_to_lib(round: lottery::LotteryRound) -> (r: LotteryRound)
    ensures
        r == spec_lottery_round_to_lib(round),
{
    LotteryRound {
        id: round.id,
        created_at: round.created_at,
        closed_at: round.closed_at,
        status: round_status_to_lib(round.status),
        ticket_price: round.ticket_price,
        total_tickets_sold: round.total_tickets_sold,
        next_ticket_number: round.next_ticket_number,
        prize_pool: round.prize_pool,
        current_winner_pool: winner_pool_to_lib(round.current_winner_pool),
        pool1_count: round.pool1_count,
        pool2_count: round.pool2_count,
        pool3_count: round.pool3_count,
        pool4_count: round.pool4_count,
        pool1_winners_drawn: round.pool1_winners_drawn,
        pool2_winners_drawn: round.pool2_winners_drawn,
        pool3_winners_drawn: round.pool3_winners_drawn,
        pool4_winners_drawn: round.pool4_winners_drawn,
    }
}

/// Project an optional round onto the wire.
pub fn lottery_round_option_to_lib(round: Option<lottery::LotteryRound>) -> (r: Option<
    LotteryRound,
>)
    ensures
        r == match round {
            Some(rr) => Some(spec_lottery_round_to_lib(rr)),
            None => Option::<LotteryRound>::None,
        },
{
    match round {
        Some(rr) => Some(lottery_round_to_lib(rr)),
        None => None,
    }
}

/// Project a list of rounds onto the wire, keeping order.
pub fn lottery_rounds_to_lib(rounds: Vec<lottery::LotteryRound>) -> (r: Vec<LotteryRound>)
    ensures
        r@.len() == rounds@.len(),
        forall|i: int|
            0 <= i < r@.len() ==> r@[i] == spec_lottery_round_to_lib(#[trigger] rounds@[i]),
{
    let n = rounds.len();
    let mut out: Vec<LotteryRound> = Vec::new();
    let mut k: usize = 0;
    while k < n
        invariant
            n == rounds@.len(),
            k <= n,
            out@.len() == k,
            forall|i: int|
                0 <= i < k ==> out@[i] == spec_lottery_round_to_lib(#[trigger] rounds@[i]),
        decreases n - k,
    {
        out.push(lottery_round_to_lib(rounds[k]));
        k = k + 1;
    }
    out
}

/// The wire image of a purchase record.
pub open spec fn spec_ticket_purchase_to_lib(purchase: lottery::TicketPurchase) -> TicketPurchase {
    TicketPurchase {
        owner: purchase.owner,
        first_ticket: purchase.first_ticket,
        last_ticket: purchase.last_ticket,
        total_tickets: purchase.total_tickets,
        amount_paid: purchase.amount_paid,
        source_chain_id: purchase.source_chain_id,
    }
}

/// Project a purchase record onto the wire.
pub fn ticket_purchase_to_lib(purchase: lottery::TicketPurchase) -> (r: TicketPurchase)
    ensures
        r == spec_ticket_purchase_to_lib(purchase),
{
    TicketPurchase {
        owner: purchase.owner,
        first_ticket: purchase.first_ticket,
        last_ticket: purchase.last_ticket,
        total_tickets: purchase.total_tickets,
        amount_paid: purchase.amount_paid,
        source_chain_id: purchase.source_chain_id,
    }
}

/// Project a round status onto the wire (query-side alias).
pub fn convert_status(status: lottery::RoundStatus) -> (r: RoundStatus)
    ensures
        r == spec_round_status_to_lib(status),
{
    round_status_to_lib(status)
}

/// Project a round status onto the wire (query-side alias).
pub fn convert_round_status(status: lottery::RoundStatus) -> (r: RoundStatus)
    ensures
        r == spec_round_status_to_lib(status),
{
    round_status_to_lib(status)
}

/// Project a winner tier onto the wire (query-side alias).
pub fn convert_winner_pool(pool: lottery::WinnerPool) -> (r: WinnerPool)
    ensures
        r == spec_winner_pool_to_lib(pool),
{
    winner_pool_to_lib(pool)
}

/// Project a round onto the wire (query-side alias).
pub fn convert_round(round: &lottery::LotteryRound) -> (r: LotteryRound)
    ensures
        r == spec_lottery_round_to_lib(*round),
{
    lottery_round_to_lib(*round)
}

} // verus!
