//! The tiered-pool ticket lottery: round lifecycle, ticket ledger,
//! seeded winner selection without replacement, and tier bookkeeping.
//!
//! A round moves `Active -> Closed -> Complete`. While closed, winners
//! are drawn one at a time through a cursor over four tiers; the cursor
//! only ever advances, and a tier's quota must be met before the next
//! tier is touched.

use vstd::prelude::*;
use crate::arith::{sat_add_u128, spec_sat_add};
use crate::prize::{calculate_prize_per_winner, spec_prize_per_winner};

verus! {

/// Status of a lottery round.
#[derive(Clone, Copy, Debug, PartialEq, Eq, Structural)]
pub enum RoundStatus {
    /// Accepting ticket purchases.
    Active,
    /// Not accepting purchases; winners are being drawn.
    Closed,
    /// All winners drawn.
    Complete,
}

/// Winner tier identifier. Tier sizes are fixed percentages of tickets
/// sold (15%, 7%, 5%, 3%); prize shares are fixed percentages of the
/// pool (20%, 25%, 30%, 25%).
#[derive(Clone, Copy, Debug, PartialEq, Eq, Structural)]
pub enum WinnerPool {
    Pool1,
    Pool2,
    Pool3,
    Pool4,
    /// All tiers drawn.
    Complete,
}

/// One participant's (merged) ticket purchases in one round.
/// A repeat purchase by the same owner merges additively into the
/// existing record rather than creating a duplicate.
#[derive(Clone, Copy, Debug, PartialEq, Eq)]
pub struct TicketPurchase {
    pub owner: u64,
    pub first_ticket: u64,
    pub last_ticket: u64,
    pub total_tickets: u64,
    pub amount_paid: u128,
    /// Chain the stake was purchased from, when not the executing chain.
    pub source_chain_id: Option<u64>,
}

/// One resolved payout obligation of a lottery round.
#[derive(Clone, Copy, Debug, PartialEq, Eq)]
pub struct WinningTicket {
    pub ticket_number: u64,
    pub owner: u64,
    pub prize_amount: u128,
    pub claimed: bool,
    pub source_chain_id: Option<u64>,
}

/// Aggregate bookkeeping of one lottery round.
#[derive(Clone, Copy, Debug, PartialEq, Eq)]
pub struct LotteryRound {
    pub id: u64,
    pub created_at: u64,
    pub closed_at: Option<u64>,
    pub status: RoundStatus,
    pub ticket_price: u128,
    pub total_tickets_sold: u64,
    pub next_ticket_number: u64,
    pub prize_pool: u128,
    pub current_winner_pool: WinnerPool,
    pub pool1_count: u64,
    pub pool2_count: u64,
    pub pool3_count: u64,
    pub pool4_count: u64,
    pub pool1_winners_drawn: u64,
    pub pool2_winners_drawn: u64,
    pub pool3_winners_drawn: u64,
    pub pool4_winners_drawn: u64,
}

/// A round together with its ticket and winner ledgers.
pub struct RoundData {
    pub round: LotteryRound,
    /// One merged record per owner.
    pub purchases: Vec<TicketPurchase>,
    /// Direct index: ticket number `t` (1-indexed) is owned by
    /// `ticket_owner[t - 1]`. Maintained at purchase time.
    pub ticket_owner: Vec<u64>,
    /// Winners in draw order.
    pub winners: Vec<WinningTicket>,
}

/// The lottery application state: all retained rounds and the pointer
/// to the round currently accepting purchases.
pub struct LotteryState {
    /// Monotonic id counter; round ids are never reused.
    pub round_counter: u64,
    /// Retained rounds, in ascending id order.
    pub rounds: Vec<RoundData>,
    pub active_round: Option<u64>,
}

/// Everything that can go wrong in a lottery operation.
#[derive(Clone, Copy, Debug, PartialEq, Eq, Structural)]
pub enum LotteryError {
    /// No round is currently accepting purchases.
    NoActiveRound,
    /// The requested round does not exist (or was purged).
    RoundNotFound,
    /// The round's ticket price is zero, so no amount buys a ticket.
    InvalidTicketPrice,
    /// The amount buys zero whole tickets at the round's price.
    AmountTooSmall,
    /// The buyer's balance does not cover the amount.
    InsufficientBalance,
    /// A round needs at least four tickets sold before it can close.
    InsufficientParticipation,
    /// Winners can only be drawn from a closed round.
    RoundNotClosed,
    /// The sampling loop ran out of attempts (bookkeeping inconsistency).
    ExhaustedAttempts,
    /// No winner record exists for that ticket.
    WinnerNotFound,
}

/// Rounds older than this many ids are purged when a new round is created.
pub const MAX_HISTORY_ROUNDS: u64 = 5;

/// Minimum tickets sold before a round may close.
pub const MIN_TICKETS_TO_CLOSE: u64 = 4;

/// Fallback ticket price when no active round exists: one whole token,
/// at eighteen decimal places.
pub const DEFAULT_TICKET_PRICE: u128 = 1_000_000_000_000_000_000;

/// Upper bound on tickets per round, so that the draw's attempt counter
/// (twice the tickets sold) always fits in a `u64`.
pub const TICKET_CAPACITY: u64 = 0x7fff_ffff_ffff_ffff;

/// Position of a tier in the draw order.
pub open spec fn pool_index(p: WinnerPool) -> int {
    match p {
        WinnerPool::Pool1 => 0,
        WinnerPool::Pool2 => 1,
        WinnerPool::Pool3 => 2,
        WinnerPool::Pool4 => 3,
        WinnerPool::Complete => 4,
    }
}

/// The tier at a given position in the draw order.
pub open spec fn pool_at(i: int) -> WinnerPool {
    if i == 0 {
        WinnerPool::Pool1
    } else if i == 1 {
        WinnerPool::Pool2
    } else if i == 2 {
        WinnerPool::Pool3
    } else if i == 3 {
        WinnerPool::Pool4
    } else {
        WinnerPool::Complete
    }
}

/// Ticket-count percentage that sizes each tier.
pub open spec fn ticket_pct(i: int) -> int {
    if i == 0 {
        15
    } else if i == 1 {
        7
    } else if i == 2 {
        5
    } else {
        3
    }
}

/// A tier's winner quota: its percentage of tickets sold, floored, with
/// a floor of one winner once enough tickets exist to support it.
pub open spec fn spec_quota(total: int, i: int) -> int
    recommends
        total >= 4,
        0 <= i < 4,
{
    if total * ticket_pct(i) / 100 == 0 {
        1
    } else {
        total * ticket_pct(i) / 100
    }
}

pub open spec fn quota_of(r: LotteryRound, i: int) -> int {
    if i == 0 {
        r.pool1_count as int
    } else if i == 1 {
        r.pool2_count as int
    } else if i == 2 {
        r.pool3_count as int
    } else {
        r.pool4_count as int
    }
}

pub open spec fn drawn_of(r: LotteryRound, i: int) -> int {
    if i == 0 {
        r.pool1_winners_drawn as int
    } else if i == 1 {
        r.pool2_winners_drawn as int
    } else if i == 2 {
        r.pool3_winners_drawn as int
    } else {
        r.pool4_winners_drawn as int
    }
}

/// Winners drawn so far across all tiers.
pub open spec fn total_drawn(r: LotteryRound) -> int {
    r.pool1_winners_drawn + r.pool2_winners_drawn + r.pool3_winners_drawn
        + r.pool4_winners_drawn
}

/// The tier quotas match the formula applied to tickets sold.
pub open spec fn quotas_set(r: LotteryRound) -> bool {
    forall|i: int| 0 <= i < 4 ==> quota_of(r, i) == spec_quota(r.total_tickets_sold as int, i)
}

/// Tier-monotonicity of the draw cursor: tiers before the cursor met
/// their quota exactly, the cursor's own tier is strictly unfinished
/// (unless everything is done), and tiers after it are untouched.
pub open spec fn cursor_ok(r: LotteryRound) -> bool {
    let c = pool_index(r.current_winner_pool);
    &&& forall|i: int| 0 <= i < c && i < 4 ==> drawn_of(r, i) == quota_of(r, i)
    &&& (c < 4 ==> drawn_of(r, c) < quota_of(r, c))
    &&& forall|i: int| c < i < 4 ==> drawn_of(r, i) == 0
}

/// Internal consistency of one round's aggregate bookkeeping.
pub open spec fn round_ok(r: LotteryRound) -> bool {
    &&& 1 <= r.id
    &&& r.next_ticket_number == r.total_tickets_sold + 1
    &&& r.total_tickets_sold <= TICKET_CAPACITY
    &&& match r.status {
        RoundStatus::Active => {
            &&& r.current_winner_pool == WinnerPool::Pool1
            &&& r.closed_at is None
            &&& forall|i: int| 0 <= i < 4 ==> quota_of(r, i) == 0
            &&& forall|i: int| 0 <= i < 4 ==> drawn_of(r, i) == 0
        },
        RoundStatus::Closed => {
            &&& r.closed_at is Some
            &&& r.total_tickets_sold >= MIN_TICKETS_TO_CLOSE
            &&& quotas_set(r)
            &&& pool_index(r.current_winner_pool) < 4
            &&& cursor_ok(r)
        },
        RoundStatus::Complete => {
            &&& r.closed_at is Some
            &&& r.total_tickets_sold >= MIN_TICKETS_TO_CLOSE
            &&& quotas_set(r)
            &&& r.current_winner_pool == WinnerPool::Complete
            &&& cursor_ok(r)
        },
    }
}

/// The winner ledger is consistent with the round: one record per drawn
/// winner, every ticket in range and distinct (no ticket ever wins
/// twice), and each record's owner agrees with the ticket index.
pub open spec fn winners_ok(rd: RoundData) -> bool {
    let w = rd.winners@;
    &&& w.len() == total_drawn(rd.round)
    &&& forall|i: int|
        0 <= i < w.len() ==> 1 <= #[trigger] w[i].ticket_number
            <= rd.round.total_tickets_sold
    &&& forall|i: int, j: int|
        0 <= i < j < w.len() ==> w[i].ticket_number != w[j].ticket_number
    &&& forall|i: int|
        0 <= i < w.len() ==> #[trigger] w[i].owner == rd.ticket_owner@[w[i].ticket_number - 1]
}

/// The purchase ledger is consistent: at most one record per owner, each
/// record's ticket range lies within the tickets sold, and nobody holds
/// more tickets than were sold.
pub open spec fn purchases_ok(rd: RoundData) -> bool {
    let p = rd.purchases@;
    &&& forall|i: int, j: int| 0 <= i < j < p.len() ==> p[i].owner != p[j].owner
    &&& forall|i: int|
        0 <= i < p.len() ==> 1 <= #[trigger] p[i].first_ticket && p[i].first_ticket
            <= p[i].last_ticket && p[i].last_ticket <= rd.round.total_tickets_sold
    &&& forall|i: int|
        0 <= i < p.len() ==> (#[trigger] p[i].total_tickets) <= rd.round.total_tickets_sold
}

/// Well-formedness of one round and its ledgers.
pub open spec fn rd_ok(rd: RoundData) -> bool {
    &&& round_ok(rd.round)
    &&& rd.ticket_owner@.len() == rd.round.total_tickets_sold
    &&& winners_ok(rd)
    &&& purchases_ok(rd)
}

/// Two round records hold exactly the same data.
pub open spec fn rd_eq(a: RoundData, b: RoundData) -> bool {
    &&& a.round == b.round
    &&& a.purchases@ == b.purchases@
    &&& a.ticket_owner@ == b.ticket_owner@
    &&& a.winners@ == b.winners@
}

/// Well-formedness of the whole lottery state: every retained round is
/// well formed, ids are unique (ascending) and bounded by the counter,
/// and at most one round is active - exactly the one the active pointer
/// names.
pub open spec fn wf(s: LotteryState) -> bool {
    let r = s.rounds@;
    &&& forall|i: int| 0 <= i < r.len() ==> rd_ok(#[trigger] r[i])
    &&& forall|i: int| 0 <= i < r.len() ==> #[trigger] r[i].round.id <= s.round_counter
    &&& forall|i: int, j: int| 0 <= i < j < r.len() ==> r[i].round.id < r[j].round.id
    &&& (s.active_round matches Some(id) ==> exists|i: int|
        0 <= i < r.len() && (#[trigger] r[i].round.id) == id && r[i].round.status
            == RoundStatus::Active)
    &&& forall|i: int|
        0 <= i < r.len() && (#[trigger] r[i].round.status) == RoundStatus::Active
            ==> s.active_round == Some(r[i].round.id)
}

/// The round with the given id, if it is retained.
pub open spec fn spec_round_at(r: Seq<RoundData>, round_id: u64) -> Option<LotteryRound>
    decreases r.len(),
{
    if r.len() == 0 {
        None
    } else if r[0].round.id == round_id {
        Some(r[0].round)
    } else {
        spec_round_at(r.subrange(1, r.len() as int), round_id)
    }
}

/// The bookkeeping of a round the moment it is created.
pub open spec fn spec_fresh_round(id: u64, ticket_price: u128, timestamp: u64) -> LotteryRound {
    LotteryRound {
        id,
        created_at: timestamp,
        closed_at: None,
        status: RoundStatus::Active,
        ticket_price,
        total_tickets_sold: 0,
        next_ticket_number: 1,
        prize_pool: 0,
        current_winner_pool: WinnerPool::Pool1,
        pool1_count: 0,
        pool2_count: 0,
        pool3_count: 0,
        pool4_count: 0,
        pool1_winners_drawn: 0,
        pool2_winners_drawn: 0,
        pool3_winners_drawn: 0,
        pool4_winners_drawn: 0,
    }
}

/// What one draw call produced: the selected ticket, its owner, the tier
/// it won in, the prize owed, and whether completing the last tier
/// auto-created a successor round.
#[derive(Clone, Copy, Debug, PartialEq, Eq)]
pub struct DrawOutcome {
    pub round_id: u64,
    pub ticket_number: u64,
    pub owner: u64,
    pub prize_amount: u128,
    pub pool: WinnerPool,
    pub new_round_created: bool,
    pub source_chain_id: Option<u64>,
}

/// How one successful draw transforms the drawn round: one winner record
/// is appended, the cursor tier's counter advances, and the cursor moves
/// to the next tier exactly when its quota is met; completing the last
/// tier completes the round. The cursor never moves backwards.
pub open spec fn spec_draw_applied(rd0: RoundData, rd1: RoundData, out: DrawOutcome) -> bool {
    let c = pool_index(rd0.round.current_winner_pool);
    let newly = drawn_of(rd0.round, c) + 1;
    let done = newly == quota_of(rd0.round, c);
    let rec = WinningTicket {
        ticket_number: out.ticket_number,
        owner: out.owner,
        prize_amount: out.prize_amount,
        claimed: false,
        source_chain_id: out.source_chain_id,
    };
    &&& rd1.purchases@ == rd0.purchases@
    &&& rd1.ticket_owner@ == rd0.ticket_owner@
    &&& rd1.winners@ == rd0.winners@.push(rec)
    &&& drawn_of(rd1.round, c) == newly
    &&& forall|q: int| 0 <= q < 4 && q != c ==> drawn_of(rd1.round, q) == drawn_of(rd0.round, q)
    &&& forall|q: int| 0 <= q < 4 ==> quota_of(rd1.round, q) == quota_of(rd0.round, q)
    &&& rd1.round.current_winner_pool == (if done {
        pool_at(c + 1)
    } else {
        rd0.round.current_winner_pool
    })
    &&& pool_index(rd1.round.current_winner_pool) >= c
    &&& rd1.round.status == (if done && c == 3 {
        RoundStatus::Complete
    } else {
        RoundStatus::Closed
    })
    &&& rd1.round.id == rd0.round.id
    &&& rd1.round.created_at == rd0.round.created_at
    &&& rd1.round.closed_at == rd0.round.closed_at
    &&& rd1.round.ticket_price == rd0.round.ticket_price
    &&& rd1.round.total_tickets_sold == rd0.round.total_tickets_sold
    &&& rd1.round.next_ticket_number == rd0.round.next_ticket_number
    &&& rd1.round.prize_pool == rd0.round.prize_pool
}

/// Number of whole tickets an amount buys at a given price; any
/// remainder is retained by the pool, not refunded.
pub open spec fn spec_ticket_count(amount: int, price: int) -> int
    recommends
        price > 0,
{
    amount / price
}

/// The active round has room for the tickets this amount buys.
/// Machine limit: the draw's attempt counter is twice the tickets sold,
/// so a round's ticket count must stay below that capacity.
pub open spec fn spec_purchase_fits(s: LotteryState, amount: u128) -> bool {
    match s.active_round {
        Some(id) => match spec_round_at(s.rounds@, id) {
            Some(r) => r.ticket_price == 0 || r.total_tickets_sold + spec_ticket_count(
                amount as int,
                r.ticket_price as int,
            ) <= TICKET_CAPACITY,
            None => true,
        },
        None => true,
    }
}

/// How a successful purchase transforms one round's ledgers and what the
/// returned (merged) record holds.
pub open spec fn spec_purchase_applied(
    rd0: RoundData,
    rd1: RoundData,
    owner: u64,
    amount: u128,
    chain: Option<u64>,
    p: TicketPurchase,
) -> bool {
    let r0 = rd0.round;
    let count = spec_ticket_count(amount as int, r0.ticket_price as int);
    let first = r0.next_ticket_number as int;
    let last = first + count - 1;
    &&& rd1.round == LotteryRound {
        total_tickets_sold: (r0.total_tickets_sold + count) as u64,
        next_ticket_number: (r0.next_ticket_number + count) as u64,
        prize_pool: spec_sat_add(r0.prize_pool as int, amount as int) as u128,
        ..r0
    }
    &&& rd1.ticket_owner@ == rd0.ticket_owner@ + Seq::new(count as nat, |t: int| owner)
    &&& rd1.winners@ == rd0.winners@
    &&& p.owner == owner
    &&& p.last_ticket == last
    &&& p.source_chain_id == chain
    &&& if (exists|j: int|
        0 <= j < rd0.purchases@.len() && (#[trigger] rd0.purchases@[j].owner) == owner) {
        let j = choose|j: int|
            0 <= j < rd0.purchases@.len() && (#[trigger] rd0.purchases@[j].owner) == owner;
        let oldp = rd0.purchases@[j];
        &&& p.first_ticket == oldp.first_ticket
        &&& p.total_tickets == oldp.total_tickets + count
        &&& p.amount_paid == spec_sat_add(oldp.amount_paid as int, amount as int)
        &&& rd1.purchases@ == rd0.purchases@.update(j, p)
    } else {
        &&& p.first_ticket == first
        &&& p.total_tickets == count
        &&& p.amount_paid == amount
        &&& rd1.purchases@ == rd0.purchases@.push(p)
    }
}

/// Replacing one round by a well-formed round with the same id and
/// status leaves the whole state well formed.
proof fn lemma_wf_update(s0: LotteryState, s1: LotteryState, i: int)
    requires
        wf(s0),
        0 <= i < s0.rounds@.len(),
        s1.rounds@ == s0.rounds@.update(i, s1.rounds@[i]),
        s1.round_counter == s0.round_counter,
        s1.active_round == s0.active_round,
        rd_ok(s1.rounds@[i]),
        s1.rounds@[i].round.id == s0.rounds@[i].round.id,
        s1.rounds@[i].round.status == s0.rounds@[i].round.status,
    ensures
        wf(s1),
{
    let r0 = s0.rounds@;
    let r1 = s1.rounds@;
    assert forall|a: int| 0 <= a < r1.len() implies rd_ok(#[trigger] r1[a]) && r1[a].round.id
        <= s1.round_counter by {
        if a != i {
            assert(r1[a] == r0[a]);
        }
    }
    assert forall|a: int, b: int| 0 <= a < b < r1.len() implies r1[a].round.id < r1[b].round.id by {
        assert(a != i ==> r1[a] == r0[a]);
        assert(b != i ==> r1[b] == r0[b]);
    }
    match s1.active_round {
        Some(id) => {
            let w = choose|w: int|
                0 <= w < r0.len() && (#[trigger] r0[w].round.id) == id && r0[w].round.status
                    == RoundStatus::Active;
            assert(r1[w].round.id == id && r1[w].round.status == RoundStatus::Active);
        },
        None => {},
    }
    assert forall|a: int|
        0 <= a < r1.len() && (#[trigger] r1[a].round.status) == RoundStatus::Active implies
        s1.active_round == Some(r1[a].round.id) by {
        if a != i {
            assert(r1[a] == r0[a]);
        }
    }
}

/// Position of an owner's merged purchase record, if any.
fn find_purchase_index(purchases: &Vec<TicketPurchase>, owner: u64) -> (r: Option<usize>)
    ensures
        match r {
            Some(j) => j < purchases@.len() && purchases@[j as int].owner == owner,
            None => forall|j: int|
                0 <= j < purchases@.len() ==> (#[trigger] purchases@[j].owner) != owner,
        },
{
    let n = purchases.len();
    let mut k: usize = 0;
    while k < n
        invariant
            n == purchases@.len(),
            k <= n,
            forall|j: int| 0 <= j < k ==> (#[trigger] purchases@[j].owner) != owner,
        decreases n - k,
    {
        if purchases[k].owner == owner {
            return Some(k);
        }
        k = k + 1;
    }
    None
}

/// Position of the winner record holding a ticket, if any.
fn find_winner_index(winners: &Vec<WinningTicket>, ticket: u64) -> (r: Option<usize>)
    ensures
        match r {
            Some(k) => k < winners@.len() && winners@[k as int].ticket_number == ticket,
            None => forall|j: int|
                0 <= j < winners@.len() ==> (#[trigger] winners@[j].ticket_number) != ticket,
        },
{
    let n = winners.len();
    let mut k: usize = 0;
    while k < n
        invariant
            n == winners@.len(),
            k <= n,
            forall|j: int| 0 <= j < k ==> (#[trigger] winners@[j].ticket_number) != ticket,
        decreases n - k,
    {
        if winners[k].ticket_number == ticket {
            return Some(k);
        }
        k = k + 1;
    }
    None
}

impl LotteryState {
    /// A fresh state with no rounds.
    pub fn new() -> (s: LotteryState)
        ensures
            wf(s),
            s.round_counter == 0,
            s.rounds@.len() == 0,
            s.active_round is None,
    {
        LotteryState { round_counter: 0, rounds: Vec::new(), active_round: None }
    }

    /// Position of the round with the given id, if retained.
    fn find_round_index(&self, round_id: u64) -> (r: Option<usize>)
        ensures
            match r {
                Some(i) => i < self.rounds@.len() && self.rounds@[i as int].round.id == round_id,
                None => forall|j: int|
                    0 <= j < self.rounds@.len() ==> (#[trigger] self.rounds@[j].round.id)
                        != round_id,
            },
    {
        let n = self.rounds.len();
        let mut k: usize = 0;
        while k < n
            invariant
                n == self.rounds@.len(),
                k <= n,
                forall|j: int|
                    0 <= j < k ==> (#[trigger] self.rounds@[j].round.id) != round_id,
            decreases n - k,
        {
            if self.rounds[k].round.id == round_id {
                return Some(k);
            }
            k = k + 1;
        }
        None
    }

    /// Drop one retained round and all its ticket and winner ledgers.
    /// Part of the bounded-history policy: called when a new round pushes
    /// the oldest one past the retention window.
    fn cleanup_old_round(&mut self, round_id: u64)
        requires
            wf(*old(self)),
            old(self).active_round != Some(round_id),
        ensures
            wf(*final(self)),
            final(self).round_counter == old(self).round_counter,
            final(self).active_round == old(self).active_round,
            ({
                let r0 = old(self).rounds@;
                ||| ((forall|j: int|
                    0 <= j < r0.len() ==> (#[trigger] r0[j].round.id) != round_id)
                    && final(self).rounds@ == r0)
                ||| (exists|i: int|
                    0 <= i < r0.len() && (#[trigger] r0[i].round.id) == round_id
                        && final(self).rounds@ == r0.remove(i))
            }),
    {
        let idx = self.find_round_index(round_id);
        match idx {
            Some(i) => {
                let ghost r0 = self.rounds@;
                let _ = self.rounds.remove(i);
                proof {
                    r0.remove_ensures(i as int);
                    let r1 = self.rounds@;
                    assert forall|a: int| 0 <= a < r1.len() implies rd_ok(#[trigger] r1[a])
                        && r1[a].round.id <= self.round_counter by {
                        if a < i {
                            assert(r1[a] == r0[a]);
                        } else {
                            assert(r1[a] == r0[a + 1]);
                        }
                    }
                    assert forall|a: int, b: int| 0 <= a < b < r1.len() implies r1[a].round.id
                        < r1[b].round.id by {
                        let a0 = if a < i { a } else { a + 1 };
                        let b0 = if b < i { b } else { b + 1 };
                        assert(r1[a] == r0[a0] && r1[b] == r0[b0]);
                    }
                    assert forall|a: int|
                        0 <= a < r1.len() && (#[trigger] r1[a].round.status)
                            == RoundStatus::Active implies self.active_round == Some(
                        r1[a].round.id,
                    ) by {
                        let a0 = if a < i { a } else { a + 1 };
                        assert(r1[a] == r0[a0]);
                    }
                    match self.active_round {
                        Some(id) => {
                            let w = choose|w: int|
                                0 <= w < r0.len() && (#[trigger] r0[w].round.id) == id
                                    && r0[w].round.status == RoundStatus::Active;
                            let w1 = if w < i { w } else { w - 1 };
                            assert(w != i);
                            assert(r1[w1] == r0[w]);
                        },
                        None => {},
                    }
                }
            },
            None => {},
        }
    }

    /// Create a new lottery round with the given ticket price; it becomes
    /// the active round. Any previously active round must already have
    /// been closed. Creation also purges the round that fell out of the
    /// retention window, if any.
    pub fn create_lottery_round(&mut self, ticket_price: u128, timestamp: u64) -> (r: u64)
        requires
            wf(*old(self)),
            old(self).round_counter < u64::MAX,
            forall|i: int|
                0 <= i < old(self).rounds@.len() ==> (#[trigger] old(self).rounds@[i].round.status) != RoundStatus::Active,
        ensures
            wf(*final(self)),
            r == old(self).round_counter + 1,
            final(self).round_counter == r,
            final(self).active_round == Some(r),
            final(self).rounds@.len() >= 1,
            ({
                let last = final(self).rounds@.last();
                &&& last.round == spec_fresh_round(r, ticket_price, timestamp)
                &&& last.purchases@.len() == 0
                &&& last.ticket_owner@.len() == 0
                &&& last.winners@.len() == 0
            }),
            ({
                let r0 = old(self).rounds@;
                let kept = final(self).rounds@.drop_last();
                ||| kept == r0
                ||| (r > MAX_HISTORY_ROUNDS && exists|i: int|
                    0 <= i < r0.len() && (#[trigger] r0[i].round.id) == r - MAX_HISTORY_ROUNDS
                        && kept == r0.remove(i))
            }),
    {
        let round_id = self.round_counter + 1;
        self.round_counter = round_id;
        proof {
            // wf is insensitive to a larger counter; the active pointer is
            // None because no round is active.
            match self.active_round {
                Some(id) => {
                    let w = choose|w: int|
                        0 <= w < self.rounds@.len() && (#[trigger] self.rounds@[w].round.id)
                            == id && self.rounds@[w].round.status == RoundStatus::Active;
                    assert(false);
                },
                None => {},
            }
        }
        if round_id > MAX_HISTORY_ROUNDS {
            self.cleanup_old_round(round_id - MAX_HISTORY_ROUNDS);
        }
        let ghost mid = self.rounds@;
        let data = RoundData {
            round: LotteryRound {
                id: round_id,
                created_at: timestamp,
                closed_at: None,
                status: RoundStatus::Active,
                ticket_price,
                total_tickets_sold: 0,
                next_ticket_number: 1,
                prize_pool: 0,
                current_winner_pool: WinnerPool::Pool1,
                pool1_count: 0,
                pool2_count: 0,
                pool3_count: 0,
                pool4_count: 0,
                pool1_winners_drawn: 0,
                pool2_winners_drawn: 0,
                pool3_winners_drawn: 0,
                pool4_winners_drawn: 0,
            },
            purchases: Vec::new(),
            ticket_owner: Vec::new(),
            winners: Vec::new(),
        };
        self.rounds.push(data);
        self.active_round = Some(round_id);
        proof {
            let r1 = self.rounds@;
            assert(r1.drop_last() =~= mid);
            let r0 = old(self).rounds@;
            assert forall|a: int| 0 <= a < mid.len() implies #[trigger] mid[a] == r0[a] || (exists|
                i: int,
            |
                0 <= i < r0.len() && mid == r0.remove(i) && #[trigger] mid[a] == mid[a]) by {}
            // Every retained round comes from the old sequence, so none is
            // active and each keeps its well-formedness and id bound.
            if mid != r0 {
                let i = choose|i: int|
                    0 <= i < r0.len() && (#[trigger] r0[i].round.id) == round_id
                        - MAX_HISTORY_ROUNDS && mid == r0.remove(i);
                r0.remove_ensures(i);
                assert forall|a: int| 0 <= a < mid.len() implies (#[trigger] mid[a].round.status)
                    != RoundStatus::Active by {
                    if a < i {
                        assert(mid[a] == r0[a]);
                    } else {
                        assert(mid[a] == r0[a + 1]);
                    }
                }
            }
            assert forall|a: int| 0 <= a < r1.len() implies rd_ok(#[trigger] r1[a]) by {
                if a < r1.len() - 1 {
                    assert(r1[a] == mid[a]);
                }
            }
        }
        round_id
    }

    /// Purchase tickets in the active round. The amount buys
    /// `amount / ticket_price` whole tickets, assigned as the next
    /// contiguous range; the full amount (remainder included) goes to
    /// the prize pool. A repeat purchase merges into the owner's record.
    pub fn purchase_tickets(&mut self, owner: u64, amount: u128, source_chain_id: Option<u64>) -> (r:
        Result<TicketPurchase, LotteryError>)
        requires
            wf(*old(self)),
            spec_purchase_fits(*old(self), amount),
        ensures
            wf(*final(self)),
            final(self).round_counter == old(self).round_counter,
            final(self).active_round == old(self).active_round,
            match r {
                Ok(p) => exists|i: int|
                    0 <= i < old(self).rounds@.len() && old(self).active_round == Some(
                        (#[trigger] old(self).rounds@[i].round.id),
                    ) && old(self).rounds@[i].round.status == RoundStatus::Active && old(self).rounds@[i].round.ticket_price > 0 && spec_ticket_count(
                        amount as int,
                        old(self).rounds@[i].round.ticket_price as int,
                    ) >= 1 && final(self).rounds@ == old(self).rounds@.update(
                        i,
                        final(self).rounds@[i],
                    ) && spec_purchase_applied(
                        old(self).rounds@[i],
                        final(self).rounds@[i],
                        owner,
                        amount,
                        source_chain_id,
                        p,
                    ),
                Err(LotteryError::NoActiveRound) => final(self).rounds@ == old(self).rounds@
                    && old(self).active_round is None,
                Err(LotteryError::InvalidTicketPrice) => final(self).rounds@ == old(self).rounds@
                    && (old(self).active_round matches Some(id) && spec_round_at(
                    old(self).rounds@,
                    id,
                ) matches Some(rr) && rr.ticket_price == 0),
                Err(LotteryError::AmountTooSmall) => final(self).rounds@ == old(self).rounds@ && (
                old(self).active_round matches Some(id) && spec_round_at(
                    old(self).rounds@,
                    id,
                ) matches Some(rr) && rr.ticket_price > 0 && spec_ticket_count(
                    amount as int,
                    rr.ticket_price as int,
                ) == 0),
                Err(_) => false,
            },
    {
        let round_id = match self.active_round {
            None => {
                return Err(LotteryError::NoActiveRound);
            },
            Some(id) => id,
        };
        let idx = match self.find_round_index(round_id) {
            Some(i) => i,
            None => {
                proof {
                    let w = choose|w: int|
                        0 <= w < self.rounds@.len() && (#[trigger] self.rounds@[w].round.id)
                            == round_id && self.rounds@[w].round.status == RoundStatus::Active;
                }
                return Err(LotteryError::NoActiveRound);  // unreachable under wf
            },
        };
        let ghost i = idx as int;
        proof {
            lemma_round_at_index(self.rounds@, round_id, i);
            // the active pointer names a unique, active round
            let w = choose|w: int|
                0 <= w < self.rounds@.len() && (#[trigger] self.rounds@[w].round.id) == round_id
                    && self.rounds@[w].round.status == RoundStatus::Active;
            assert(w == i);
        }
        let price = self.rounds[idx].round.ticket_price;
        if price == 0 {
            return Err(LotteryError::InvalidTicketPrice);
        }
        let count128 = amount / price;
        if count128 == 0 {
            return Err(LotteryError::AmountTooSmall);
        }
        let count = count128 as u64;
        let ghost r0 = self.rounds@;
        let mut rd = self.rounds.remove(idx);
        let ghost rd0 = rd;
        let first = rd.round.next_ticket_number;
        let last = first + count - 1;

        // extend the direct ticket -> owner index
        let ghost owners0 = rd.ticket_owner@;
        let mut t: u64 = 0;
        while t < count
            invariant
                t <= count,
                rd.ticket_owner@.len() == owners0.len() + t,
                forall|k: int| 0 <= k < owners0.len() ==> rd.ticket_owner@[k] == owners0[k],
                forall|k: int|
                    owners0.len() <= k < rd.ticket_owner@.len() ==> rd.ticket_owner@[k] == owner,
                rd.round == rd0.round,
                rd.purchases@ == rd0.purchases@,
                rd.winners@ == rd0.winners@,
            decreases count - t,
        {
            rd.ticket_owner.push(owner);
            t = t + 1;
        }
        proof {
            assert(rd.ticket_owner@ =~= owners0 + Seq::new(count as nat, |k: int| owner));
        }

        // merge or append the owner's purchase record
        let p = match find_purchase_index(&rd.purchases, owner) {
            Some(j) => {
                let oldp = rd.purchases[j];
                proof {
                    let w = choose|w: int|
                        0 <= w < rd0.purchases@.len() && (#[trigger] rd0.purchases@[w].owner)
                            == owner;
                    assert(w == j as int);
                }
                let newp = TicketPurchase {
                    owner,
                    first_ticket: oldp.first_ticket,
                    last_ticket: last,
                    total_tickets: oldp.total_tickets + count,
                    amount_paid: sat_add_u128(oldp.amount_paid, amount),
                    source_chain_id,
                };
                rd.purchases[j] = newp;
                newp
            },
            None => {
                let newp = TicketPurchase {
                    owner,
                    first_ticket: first,
                    last_ticket: last,
                    total_tickets: count,
                    amount_paid: amount,
                    source_chain_id,
                };
                rd.purchases.push(newp);
                newp
            },
        };

        // update the round aggregates
        rd.round.total_tickets_sold = rd.round.total_tickets_sold + count;
        rd.round.next_ticket_number = rd.round.next_ticket_number + count;
        rd.round.prize_pool = sat_add_u128(rd.round.prize_pool, amount);

        self.rounds.insert(idx, rd);
        proof {
            assert(self.rounds@ =~= r0.update(i, self.rounds@[i]));
            assert(spec_purchase_applied(r0[i], self.rounds@[i], owner, amount, source_chain_id, p));
            let nrd = self.rounds@[i];
            assert forall|q: int| 0 <= q < 4 implies quota_of(nrd.round, q) == 0 && drawn_of(
                nrd.round,
                q,
            ) == 0 by {
                assert(quota_of(r0[i].round, q) == 0);
                assert(drawn_of(r0[i].round, q) == 0);
            }
            assert(rd_ok(self.rounds@[i]));
            lemma_wf_update(*old(self), *self, i);
        }
        Ok(p)
    }

    /// Purchase tickets after checking the buyer's balance, as reported
    /// by the asset ledger, covers the amount.
    pub fn purchase_tickets_with_balance(
        &mut self,
        owner: u64,
        amount: u128,
        current_balance: u128,
        source_chain_id: Option<u64>,
    ) -> (r: Result<TicketPurchase, LotteryError>)
        requires
            wf(*old(self)),
            spec_purchase_fits(*old(self), amount),
        ensures
            wf(*final(self)),
            final(self).round_counter == old(self).round_counter,
            final(self).active_round == old(self).active_round,
            current_balance < amount ==> r == Err::<TicketPurchase, LotteryError>(
                LotteryError::InsufficientBalance,
            ) && final(self).rounds@ == old(self).rounds@,
            current_balance >= amount ==> match r {
                Ok(p) => exists|i: int|
                    0 <= i < old(self).rounds@.len() && old(self).active_round == Some(
                        (#[trigger] old(self).rounds@[i].round.id),
                    ) && old(self).rounds@[i].round.ticket_price > 0 && spec_ticket_count(
                        amount as int,
                        old(self).rounds@[i].round.ticket_price as int,
                    ) >= 1 && final(self).rounds@ == old(self).rounds@.update(
                        i,
                        final(self).rounds@[i],
                    ) && spec_purchase_applied(
                        old(self).rounds@[i],
                        final(self).rounds@[i],
                        owner,
                        amount,
                        source_chain_id,
                        p,
                    ),
                Err(LotteryError::NoActiveRound) => final(self).rounds@ == old(self).rounds@
                    && old(self).active_round is None,
                Err(LotteryError::InvalidTicketPrice) => final(self).rounds@ == old(self).rounds@
                    && (old(self).active_round matches Some(id) && spec_round_at(
                    old(self).rounds@,
                    id,
                ) matches Some(rr) && rr.ticket_price == 0),
                Err(LotteryError::AmountTooSmall) => final(self).rounds@ == old(self).rounds@ && (
                old(self).active_round matches Some(id) && spec_round_at(
                    old(self).rounds@,
                    id,
                ) matches Some(rr) && rr.ticket_price > 0 && spec_ticket_count(
                    amount as int,
                    rr.ticket_price as int,
                ) == 0),
                Err(_) => false,
            },
    {
        if current_balance < amount {
            return Err(LotteryError::InsufficientBalance);
        }
        self.purchase_tickets(owner, amount, source_chain_id)
    }

    /// Close the active lottery round: freeze purchases, size the four
    /// winner tiers from the tickets sold (15%, 7%, 5%, 3%, floored,
    /// with a floor of one winner each), and point the draw cursor at
    /// the first tier. Fails unless at least four tickets were sold.
    /// Returns the closed round's id; no successor round is opened until
    /// the last winner is drawn.
    pub fn close_lottery_round(&mut self, timestamp: u64) -> (r: Result<u64, LotteryError>)
        requires
            wf(*old(self)),
        ensures
            wf(*final(self)),
            final(self).round_counter == old(self).round_counter,
            match r {
                Ok(id) => old(self).active_round == Some(id) && final(self).active_round is None
                    && exists|i: int|
                    0 <= i < old(self).rounds@.len() && (#[trigger] old(self).rounds@[i].round.id)
                        == id && final(self).rounds@ == old(self).rounds@.update(
                        i,
                        final(self).rounds@[i],
                    ) && ({
                        let rd0 = old(self).rounds@[i];
                        let rd1 = final(self).rounds@[i];
                        let total = rd0.round.total_tickets_sold as int;
                        &&& total >= MIN_TICKETS_TO_CLOSE
                        &&& rd1.purchases@ == rd0.purchases@
                        &&& rd1.ticket_owner@ == rd0.ticket_owner@
                        &&& rd1.winners@ == rd0.winners@
                        &&& rd1.round == LotteryRound {
                            status: RoundStatus::Closed,
                            closed_at: Some(timestamp),
                            current_winner_pool: WinnerPool::Pool1,
                            pool1_count: spec_quota(total, 0) as u64,
                            pool2_count: spec_quota(total, 1) as u64,
                            pool3_count: spec_quota(total, 2) as u64,
                            pool4_count: spec_quota(total, 3) as u64,
                            ..rd0.round
                        }
                    }),
                Err(LotteryError::NoActiveRound) => final(self).rounds@ == old(self).rounds@
                    && final(self).active_round == old(self).active_round && old(self).active_round is None,
                Err(LotteryError::InsufficientParticipation) => final(self).rounds@ == old(self).rounds@ && final(self).active_round == old(self).active_round && (old(self).active_round matches Some(id) && spec_round_at(old(self).rounds@, id) matches Some(
                    rr,
                ) && rr.total_tickets_sold < MIN_TICKETS_TO_CLOSE),
                Err(_) => false,
            },
    {
        let round_id = match self.active_round {
            None => {
                return Err(LotteryError::NoActiveRound);
            },
            Some(id) => id,
        };
        let idx = match self.find_round_index(round_id) {
            Some(i) => i,
            None => {
                proof {
                    let w = choose|w: int|
                        0 <= w < self.rounds@.len() && (#[trigger] self.rounds@[w].round.id)
                            == round_id && self.rounds@[w].round.status == RoundStatus::Active;
                }
                return Err(LotteryError::NoActiveRound);  // unreachable under wf
            },
        };
        let ghost i = idx as int;
        proof {
            lemma_round_at_index(self.rounds@, round_id, i);
            let w = choose|w: int|
                0 <= w < self.rounds@.len() && (#[trigger] self.rounds@[w].round.id) == round_id
                    && self.rounds@[w].round.status == RoundStatus::Active;
            assert(w == i);
        }
        let total = self.rounds[idx].round.total_tickets_sold;
        if total < MIN_TICKETS_TO_CLOSE {
            return Err(LotteryError::InsufficientParticipation);
        }
        let ghost r0 = self.rounds@;
        let mut rd = self.rounds.remove(idx);

        // Size the four winner tiers from the tickets sold.
        let mut q1 = ((total as u128) * 15 / 100) as u64;
        let mut q2 = ((total as u128) * 7 / 100) as u64;
        let mut q3 = ((total as u128) * 5 / 100) as u64;
        let mut q4 = ((total as u128) * 3 / 100) as u64;
        proof {
            crate::prize::lemma_pct_share_le(total as int, 15);
            crate::prize::lemma_pct_share_le(total as int, 7);
            crate::prize::lemma_pct_share_le(total as int, 5);
            crate::prize::lemma_pct_share_le(total as int, 3);
        }
        if q1 == 0 && total > 0 {
            q1 = 1;
        }
        if q2 == 0 && total > 1 {
            q2 = 1;
        }
        if q3 == 0 && total > 2 {
            q3 = 1;
        }
        if q4 == 0 && total > 3 {
            q4 = 1;
        }
        assert(q1 == spec_quota(total as int, 0));
        assert(q2 == spec_quota(total as int, 1));
        assert(q3 == spec_quota(total as int, 2));
        assert(q4 == spec_quota(total as int, 3));

        rd.round.status = RoundStatus::Closed;
        rd.round.closed_at = Some(timestamp);
        rd.round.current_winner_pool = WinnerPool::Pool1;
        rd.round.pool1_count = q1;
        rd.round.pool2_count = q2;
        rd.round.pool3_count = q3;
        rd.round.pool4_count = q4;

        self.rounds.insert(idx, rd);
        self.active_round = None;
        proof {
            let r1 = self.rounds@;
            assert(r1 =~= r0.update(i, r1[i]));
            let nrd = r1[i];
            assert forall|q: int| 0 <= q < 4 implies drawn_of(nrd.round, q) == 0 by {
                assert(drawn_of(r0[i].round, q) == 0);
            }
            assert(rd_ok(nrd));
            assert forall|a: int| 0 <= a < r1.len() implies rd_ok(#[trigger] r1[a])
                && r1[a].round.id <= self.round_counter by {
                if a != i {
                    assert(r1[a] == r0[a]);
                }
            }
            assert forall|a: int, b: int| 0 <= a < b < r1.len() implies r1[a].round.id
                < r1[b].round.id by {
                assert(a != i ==> r1[a] == r0[a]);
                assert(b != i ==> r1[b] == r0[b]);
            }
            assert forall|a: int|
                0 <= a < r1.len() && (#[trigger] r1[a].round.status)
                    == RoundStatus::Active implies self.active_round == Some(r1[a].round.id) by {
                if a != i {
                    assert(r1[a] == r0[a]);
                    assert(old(self).active_round == Some(r0[a].round.id));
                    assert(r0[a].round.id == round_id);
                    assert(a == i);
                }
            }
        }
        Ok(round_id)
    }

    /// Draw one winner from a closed round, by seeded sampling without
    /// replacement: starting from the seed, candidate tickets are probed
    /// (wrapping, modulo the tickets sold) until one is found that has
    /// not already won. The winner is recorded with the current tier's
    /// per-winner prize and the origin chain of their stake; the tier
    /// counter advances, the cursor moves on when the tier's quota is
    /// met, and completing the last tier completes the round and opens a
    /// successor round at the given default ticket price. Drawing happens
    /// between close and completion, so no round may be active.
    #[verifier::rlimit(100)]
    pub fn generate_winner(
        &mut self,
        vrf_value: u64,
        round_id: u64,
        current_timestamp: u64,
        default_ticket_price: u128,
    ) -> (r: Result<DrawOutcome, LotteryError>)
        requires
            wf(*old(self)),
            old(self).active_round is None,
            old(self).round_counter < u64::MAX,
        ensures
            wf(*final(self)),
            match r {
                Ok(out) => exists|i: int|
                    0 <= i < old(self).rounds@.len() && (#[trigger] old(self).rounds@[i].round.id)
                        == round_id && ({
                        let rd0 = old(self).rounds@[i];
                        let c = pool_index(rd0.round.current_winner_pool);
                        &&& rd0.round.status == RoundStatus::Closed
                        &&& out.round_id == round_id
                        &&& out.pool == rd0.round.current_winner_pool
                        &&& 1 <= out.ticket_number <= rd0.round.total_tickets_sold
                        &&& spec_ticket_free(rd0.winners@, out.ticket_number as int)
                        &&& exists|a: int|
                            0 <= a < 2 * (rd0.round.total_tickets_sold as int)
                                && out.ticket_number as int == #[trigger] spec_candidate(
                                vrf_value,
                                a,
                                rd0.round.total_tickets_sold as int,
                            ) && (forall|a2: int|
                                0 <= a2 < a ==> spec_candidate_taken(
                                    rd0.winners@,
                                    vrf_value,
                                    a2,
                                    rd0.round.total_tickets_sold as int,
                                ))
                        &&& out.owner == rd0.ticket_owner@[out.ticket_number - 1]
                        &&& out.prize_amount == spec_prize_per_winner(
                            rd0.round.prize_pool as int,
                            out.pool,
                            quota_of(rd0.round, c),
                        )
                        &&& ((forall|j: int|
                            0 <= j < rd0.purchases@.len() ==> (#[trigger] rd0.purchases@[j].owner)
                                != out.owner) ==> out.source_chain_id is None)
                        &&& (forall|j: int|
                            0 <= j < rd0.purchases@.len() && (#[trigger] rd0.purchases@[j].owner)
                                == out.owner ==> out.source_chain_id
                                == rd0.purchases@[j].source_chain_id)
                        &&& out.new_round_created == (drawn_of(rd0.round, c) + 1 == quota_of(
                            rd0.round,
                            c,
                        ) && c == 3)
                        &&& if !out.new_round_created {
                            &&& final(self).round_counter == old(self).round_counter
                            &&& final(self).active_round is None
                            &&& final(self).rounds@ == old(self).rounds@.update(
                                i,
                                final(self).rounds@[i],
                            )
                            &&& spec_draw_applied(rd0, final(self).rounds@[i], out)
                        } else {
                            &&& final(self).round_counter == old(self).round_counter + 1
                            &&& final(self).active_round == Some(
                                (old(self).round_counter + 1) as u64,
                            )
                            &&& final(self).rounds@.len() >= 1
                            &&& final(self).rounds@.last().round == spec_fresh_round(
                                (old(self).round_counter + 1) as u64,
                                default_ticket_price,
                                current_timestamp,
                            )
                            &&& exists|rd1: RoundData|
                                #[trigger] spec_draw_applied(rd0, rd1, out) && ({
                                    let mid = old(self).rounds@.update(i, rd1);
                                    let kept = final(self).rounds@.drop_last();
                                    ||| kept == mid
                                    ||| exists|k: int|
                                        0 <= k < mid.len() && (#[trigger] mid[k].round.id) as int
                                            == old(self).round_counter + 1 - MAX_HISTORY_ROUNDS
                                            && kept == mid.remove(k)
                                })
                        }
                    }),
                Err(LotteryError::RoundNotFound) => final(self).rounds@ == old(self).rounds@
                    && final(self).round_counter == old(self).round_counter && final(self).active_round is None && (forall|j: int|
                    0 <= j < old(self).rounds@.len() ==> (#[trigger] old(self).rounds@[j].round.id) != round_id),
                Err(LotteryError::RoundNotClosed) => final(self).rounds@ == old(self).rounds@
                    && final(self).round_counter == old(self).round_counter && final(self).active_round is None && (spec_round_at(old(self).rounds@, round_id) matches Some(
                    rr,
                ) && rr.status != RoundStatus::Closed),
                Err(_) => false,
            },
    {
        let idx = match self.find_round_index(round_id) {
            None => {
                return Err(LotteryError::RoundNotFound);
            },
            Some(i) => i,
        };
        let ghost i = idx as int;
        proof {
            lemma_round_at_index(self.rounds@, round_id, i);
        }
        let round = self.rounds[idx].round;
        if !matches!(round.status, RoundStatus::Closed) {
            return Err(LotteryError::RoundNotClosed);
        }

        // The cursor tier and its progress; the cursor of a closed round
        // never points past the fourth tier.
        let cur = round.current_winner_pool;
        let ghost c = pool_index(cur);
        let (winners_count, winners_drawn) = match cur {
            WinnerPool::Pool1 => (round.pool1_count, round.pool1_winners_drawn),
            WinnerPool::Pool2 => (round.pool2_count, round.pool2_winners_drawn),
            WinnerPool::Pool3 => (round.pool3_count, round.pool3_winners_drawn),
            WinnerPool::Pool4 => (round.pool4_count, round.pool4_winners_drawn),
            WinnerPool::Complete => {
                proof {
                    assert(false);
                }
                (0, 0)
            },
        };
        let total = round.total_tickets_sold;
        let max_attempts = total * 2;
        let ghost r0 = self.rounds@;
        let mut rd = self.rounds.remove(idx);
        let ghost rd0 = rd;
        let ghost w = rd.winners@;
        proof {
            // Fewer winners than tickets: quotas fit under the tickets sold.
            assert(rd0 == r0[i]);
            assert(rd_ok(rd0));
            lemma_quota_sum_le_total(total as int);
            assert(quota_of(rd0.round, 0) == spec_quota(total as int, 0));
            assert(quota_of(rd0.round, 1) == spec_quota(total as int, 1));
            assert(quota_of(rd0.round, 2) == spec_quota(total as int, 2));
            assert(quota_of(rd0.round, 3) == spec_quota(total as int, 3));
            assert(drawn_of(rd0.round, c) < quota_of(rd0.round, c));
            assert forall|q: int| 0 <= q < 4 implies drawn_of(rd0.round, q) <= quota_of(
                rd0.round,
                q,
            ) by {
                if q < c {
                    assert(drawn_of(rd0.round, q) == quota_of(rd0.round, q));
                } else if q > c {
                    assert(drawn_of(rd0.round, q) == 0);
                    assert(spec_quota(total as int, q) >= 1);
                }
            }
            assert(w.len() == total_drawn(rd0.round));
            assert(w.len() < total);
        }

        // Probe candidates until an unclaimed ticket turns up.
        let mut attempts: u64 = 0;
        let mut selected: u64 = 0;
        let mut found: bool = false;
        while attempts < max_attempts
            invariant_except_break
                !found,
                attempts <= max_attempts,
                max_attempts == 2 * total,
                4 <= total <= TICKET_CAPACITY,
                w == rd.winners@,
                forall|a: int|
                    0 <= a < attempts ==> #[trigger] spec_candidate_taken(
                        w,
                        vrf_value,
                        a,
                        total as int,
                    ),
            ensures
                found ==> 1 <= selected <= total && spec_ticket_free(w, selected as int),
                found ==> exists|a: int|
                    0 <= a < 2 * (total as int) && selected as int == #[trigger] spec_candidate(
                        vrf_value,
                        a,
                        total as int,
                    ) && (forall|a2: int|
                        0 <= a2 < a ==> spec_candidate_taken(w, vrf_value, a2, total as int)),
                !found ==> forall|a: int|
                    0 <= a < 2 * (total as int) ==> #[trigger] spec_candidate_taken(
                        w,
                        vrf_value,
                        a,
                        total as int,
                    ),
                w == rd.winners@,
            decreases max_attempts - attempts,
        {
            let seed = vrf_value.wrapping_add(attempts);
            let ticket = seed % total + 1;
            assert(ticket as int == spec_candidate(vrf_value, attempts as int, total as int));
            if !winner_contains(&rd.winners, ticket) {
                selected = ticket;
                found = true;
                proof {
                    assert(0 <= attempts < 2 * (total as int) && selected as int
                        == spec_candidate(vrf_value, attempts as int, total as int) && (forall|
                        a2: int,
                    |
                        0 <= a2 < attempts ==> spec_candidate_taken(
                            w,
                            vrf_value,
                            a2,
                            total as int,
                        )));
                }
                break ;
            }
            proof {
                assert(spec_candidate_taken(w, vrf_value, attempts as int, total as int));
            }
            attempts = attempts + 1;
        }
        if !found {
            proof {
                // Unreachable: the candidate window covers every ticket,
                // and some ticket is still free.
                lemma_free_ticket_exists(w, total as int);
                let t = choose|t: int| 1 <= t <= total && #[trigger] spec_ticket_free(w, t);
                lemma_candidate_covers(vrf_value, total as int, t);
                let a = choose|a: int|
                    0 <= a < 2 * (total as int) && spec_candidate(vrf_value, a, total as int)
                        == t;
                assert(spec_candidate_taken(w, vrf_value, a, total as int));
                let k = choose|k: int|
                    0 <= k < w.len() && (#[trigger] w[k].ticket_number) as int == spec_candidate(
                        vrf_value,
                        a,
                        total as int,
                    );
                assert(w[k].ticket_number as int == t);
                assert(false);
            }
            return Err(LotteryError::ExhaustedAttempts);
        }

        // Resolve the owner through the direct ticket index, and the
        // origin chain through the owner's stake record.
        let tickets_len = rd.ticket_owner.len();
        proof {
            assert(tickets_len == total);
        }
        let owner = rd.ticket_owner[(selected - 1) as usize];
        proof {
            assert(owner == rd0.ticket_owner@[(selected - 1) as int]);
        }
        let source_chain_id = match find_purchase_index(&rd.purchases, owner) {
            Some(j) => rd.purchases[j].source_chain_id,
            None => None,
        };
        proof {
            if exists|j: int|
                0 <= j < rd.purchases@.len() && (#[trigger] rd.purchases@[j].owner) == owner {
                let j0 = choose|j: int|
                    0 <= j < rd.purchases@.len() && (#[trigger] rd.purchases@[j].owner) == owner;
                assert forall|j: int|
                    0 <= j < rd.purchases@.len() && (#[trigger] rd.purchases@[j].owner)
                        == owner implies rd.purchases@[j].source_chain_id == source_chain_id by {
                    assert(j == j0);
                }
            }
        }
        let prize_amount = calculate_prize_per_winner(rd.round.prize_pool, cur, winners_count);

        // Record the winner and advance the tier bookkeeping.
        rd.winners.push(
            WinningTicket {
                ticket_number: selected,
                owner,
                prize_amount,
                claimed: false,
                source_chain_id,
            },
        );
        let newly_drawn = winners_drawn + 1;
        match cur {
            WinnerPool::Pool1 => rd.round.pool1_winners_drawn = newly_drawn,
            WinnerPool::Pool2 => rd.round.pool2_winners_drawn = newly_drawn,
            WinnerPool::Pool3 => rd.round.pool3_winners_drawn = newly_drawn,
            WinnerPool::Pool4 => rd.round.pool4_winners_drawn = newly_drawn,
            WinnerPool::Complete => {},
        }
        let done = newly_drawn >= winners_count;
        let mut completed_round = false;
        if done {
            rd.round.current_winner_pool = match cur {
                WinnerPool::Pool1 => WinnerPool::Pool2,
                WinnerPool::Pool2 => WinnerPool::Pool3,
                WinnerPool::Pool3 => WinnerPool::Pool4,
                WinnerPool::Pool4 => WinnerPool::Complete,
                WinnerPool::Complete => WinnerPool::Complete,
            };
            if matches!(cur, WinnerPool::Pool4) {
                rd.round.status = RoundStatus::Complete;
                completed_round = true;
            }
        }

        let out = DrawOutcome {
            round_id,
            ticket_number: selected,
            owner,
            prize_amount,
            pool: cur,
            new_round_created: completed_round,
            source_chain_id,
        };

        self.rounds.insert(idx, rd);
        let ghost rd1v = self.rounds@[i];
        proof {
            assert(self.rounds@ =~= r0.update(i, rd1v));
            assert forall|q: int| 0 <= q < 4 && q != c implies drawn_of(rd1v.round, q)
                == drawn_of(rd0.round, q) by {}
            assert forall|q: int| 0 <= q < 4 implies quota_of(rd1v.round, q) == quota_of(
                rd0.round,
                q,
            ) by {}
            assert(spec_draw_applied(rd0, rd1v, out));
            // the updated round stays well formed
            assert forall|q: int| 0 <= q < 4 implies quota_of(rd1v.round, q) == spec_quota(
                rd1v.round.total_tickets_sold as int,
                q,
            ) by {
                assert(quota_of(rd0.round, q) == spec_quota(rd0.round.total_tickets_sold as int, q));
            }
            if !done {
                assert forall|q: int| 0 <= q < pool_index(rd1v.round.current_winner_pool) && q
                    < 4 implies drawn_of(rd1v.round, q) == quota_of(rd1v.round, q) by {
                    assert(drawn_of(rd0.round, q) == quota_of(rd0.round, q));
                }
                assert forall|q: int|
                    pool_index(rd1v.round.current_winner_pool) < q < 4 implies drawn_of(
                    rd1v.round,
                    q,
                ) == 0 by {
                    assert(drawn_of(rd0.round, q) == 0);
                }
            } else {
                assert forall|q: int| 0 <= q < pool_index(rd1v.round.current_winner_pool) && q
                    < 4 implies drawn_of(rd1v.round, q) == quota_of(rd1v.round, q) by {
                    if q != c {
                        assert(drawn_of(rd0.round, q) == quota_of(rd0.round, q));
                    }
                }
                assert forall|q: int|
                    pool_index(rd1v.round.current_winner_pool) < q < 4 implies drawn_of(
                    rd1v.round,
                    q,
                ) == 0 by {
                    assert(drawn_of(rd0.round, q) == 0);
                }
                if c < 3 {
                    assert(drawn_of(rd1v.round, c + 1) == 0);
                    assert(quota_of(rd1v.round, c + 1) >= 1) by {
                        lemma_quota_sum_le_total(rd1v.round.total_tickets_sold as int);
                    }
                }
            }
            assert(round_ok(rd1v.round));
            // the winner ledger stays consistent
            let w1 = rd1v.winners@;
            assert forall|a: int, b: int| 0 <= a < b < w1.len() implies w1[a].ticket_number
                != w1[b].ticket_number by {
                if b < w1.len() - 1 {
                    assert(w1[a] == w[a] && w1[b] == w[b]);
                } else {
                    assert(w1[a] == w[a]);
                }
            }
            let town = rd1v.ticket_owner@;
            assert forall|a: int| 0 <= a < w1.len() implies 1 <= (#[trigger] w1[a].ticket_number)
                <= rd1v.round.total_tickets_sold by {
                if a < w.len() {
                    assert(w1[a] == w[a]);
                }
            }
            assert forall|a: int| 0 <= a < w1.len() implies (#[trigger] w1[a].owner) == town[(
            w1[a].ticket_number - 1) as int] by {
                if a < w.len() {
                    assert(w1[a] == w[a]);
                    assert(w[a].owner == rd0.ticket_owner@[w[a].ticket_number - 1]);
                }
            }
            assert(w1.len() == total_drawn(rd1v.round));
            assert(winners_ok(rd1v));
            assert(rd_ok(rd1v));
            // the whole state stays well formed
            let r1 = self.rounds@;
            assert forall|a: int| 0 <= a < r1.len() implies rd_ok(#[trigger] r1[a])
                && r1[a].round.id <= self.round_counter by {
                if a != i {
                    assert(r1[a] == r0[a]);
                }
            }
            assert forall|a: int, b: int| 0 <= a < b < r1.len() implies r1[a].round.id
                < r1[b].round.id by {
                assert(a != i ==> r1[a] == r0[a]);
                assert(b != i ==> r1[b] == r0[b]);
            }
            assert forall|a: int|
                0 <= a < r1.len() && (#[trigger] r1[a].round.status)
                    == RoundStatus::Active implies self.active_round == Some(r1[a].round.id) by {
                if a != i {
                    assert(r1[a] == r0[a]);
                    assert(old(self).active_round == Some(r0[a].round.id));
                }
            }
            assert(wf(*self));
        }

        if completed_round {
            proof {
                // no round is active while the draws run
                assert forall|a: int|
                    0 <= a < self.rounds@.len() implies (#[trigger] self.rounds@[a].round.status)
                        != RoundStatus::Active by {
                    if a != i {
                        assert(self.rounds@[a] == r0[a]);
                        if r0[a].round.status == RoundStatus::Active {
                            assert(old(self).active_round == Some(r0[a].round.id));
                        }
                    }
                }
            }
            let ghost mid = self.rounds@;
            let _ = self.create_lottery_round(default_ticket_price, current_timestamp);
            proof {
                assert(mid == old(self).rounds@.update(i, rd1v));
                assert(spec_draw_applied(rd0, rd1v, out));
            }
        }
        Ok(out)
    }

    /// Flag a winner record as settled once its transfer instruction has
    /// been issued.
    pub fn mark_prize_claimed(&mut self, round_id: u64, ticket_number: u64) -> (r: Result<
        (),
        LotteryError,
    >)
        requires
            wf(*old(self)),
        ensures
            wf(*final(self)),
            final(self).round_counter == old(self).round_counter,
            final(self).active_round == old(self).active_round,
            match r {
                Ok(_) => exists|i: int, k: int|
                    0 <= i < old(self).rounds@.len() && (#[trigger] old(self).rounds@[i].round.id)
                        == round_id && 0 <= k < old(self).rounds@[i].winners@.len() && (#[trigger] old(
                        self,
                    ).rounds@[i].winners@[k].ticket_number) == ticket_number && final(self).rounds@
                        == old(self).rounds@.update(i, final(self).rounds@[i]) && ({
                        let rd0 = old(self).rounds@[i];
                        let rd1 = final(self).rounds@[i];
                        &&& rd1.round == rd0.round
                        &&& rd1.purchases@ == rd0.purchases@
                        &&& rd1.ticket_owner@ == rd0.ticket_owner@
                        &&& rd1.winners@ == rd0.winners@.update(
                            k,
                            WinningTicket { claimed: true, ..rd0.winners@[k] },
                        )
                    }),
                Err(LotteryError::RoundNotFound) => final(self).rounds@ == old(self).rounds@ && (
                forall|j: int|
                    0 <= j < old(self).rounds@.len() ==> (#[trigger] old(
                        self,
                    ).rounds@[j].round.id) != round_id),
                Err(LotteryError::WinnerNotFound) => final(self).rounds@ == old(self).rounds@
                    && exists|i: int|
                    0 <= i < old(self).rounds@.len() && (#[trigger] old(self).rounds@[i].round.id)
                        == round_id && (forall|k: int|
                        0 <= k < old(self).rounds@[i].winners@.len() ==> (#[trigger] old(
                            self,
                        ).rounds@[i].winners@[k].ticket_number) != ticket_number),
                Err(_) => false,
            },
    {
        let idx = match self.find_round_index(round_id) {
            None => {
                return Err(LotteryError::RoundNotFound);
            },
            Some(i) => i,
        };
        let ghost i = idx as int;
        let ghost r0 = self.rounds@;
        let mut rd = self.rounds.remove(idx);
        let ghost rd0 = rd;

        // locate the winner record for this ticket
        let k = match find_winner_index(&rd.winners, ticket_number) {
            None => {
                self.rounds.insert(idx, rd);
                proof {
                    assert(self.rounds@ =~= r0);
                }
                return Err(LotteryError::WinnerNotFound);
            },
            Some(k) => k,
        };
        let w = rd.winners[k];
        rd.winners[k] = WinningTicket { claimed: true, ..w };
        self.rounds.insert(idx, rd);
        proof {
            assert(self.rounds@ =~= r0.update(i, self.rounds@[i]));
            let rd1 = self.rounds@[i];
            let w0 = rd0.winners@;
            let w1 = rd1.winners@;
            assert forall|a: int, b: int| 0 <= a < b < w1.len() implies w1[a].ticket_number
                != w1[b].ticket_number by {
                assert(a != k as int ==> w1[a] == w0[a]);
                assert(b != k as int ==> w1[b] == w0[b]);
                assert(w1[k as int].ticket_number == w0[k as int].ticket_number);
            }
            assert forall|a: int| 0 <= a < w1.len() implies 1 <= (#[trigger] w1[a].ticket_number)
                <= rd1.round.total_tickets_sold && w1[a].owner == rd1.ticket_owner@[(w1[a].ticket_number
                - 1) as int] by {
                if a != k as int {
                    assert(w1[a] == w0[a]);
                }
                assert(w0[a].owner == rd0.ticket_owner@[(w0[a].ticket_number - 1) as int]);
            }
            assert(rd_ok(rd1));
            lemma_wf_update(*old(self), *self, i);
        }
        Ok(())
    }

    /// All ticket purchase records of one round, in purchase order.
    pub fn get_round_ticket_purchases(&self, round_id: u64) -> (r: Vec<TicketPurchase>)
        ensures
            ({
                let rs = self.rounds@;
                ||| ((forall|i: int|
                    0 <= i < rs.len() ==> (#[trigger] rs[i].round.id) != round_id) && r@.len()
                    == 0)
                ||| (exists|i: int|
                    0 <= i < rs.len() && (#[trigger] rs[i].round.id) == round_id
                        && r@ == rs[i].purchases@)
            }),
    {
        match self.find_round_index(round_id) {
            None => Vec::new(),
            Some(idx) => {
                let n = self.rounds[idx].purchases.len();
                let mut out: Vec<TicketPurchase> = Vec::new();
                let mut k: usize = 0;
                while k < n
                    invariant
                        idx < self.rounds@.len(),
                        n == self.rounds@[idx as int].purchases@.len(),
                        k <= n,
                        out@.len() == k,
                        forall|j: int|
                            0 <= j < k ==> out@[j] == self.rounds@[idx as int].purchases@[j],
                    decreases n - k,
                {
                    out.push(self.rounds[idx].purchases[k]);
                    k = k + 1;
                }
                proof {
                    assert(out@ =~= self.rounds@[idx as int].purchases@);
                }
                out
            },
        }
    }

    /// One owner's merged ticket purchase record in one round, if any.
    pub fn get_user_tickets(&self, round_id: u64, owner: u64) -> (r: Option<TicketPurchase>)
        requires
            wf(*self),
        ensures
            ({
                let rs = self.rounds@;
                match r {
                    Some(p) => p.owner == owner && exists|i: int, j: int|
                        0 <= i < rs.len() && (#[trigger] rs[i].round.id) == round_id && 0 <= j
                            < rs[i].purchases@.len() && (#[trigger] rs[i].purchases@[j]) == p,
                    None => forall|i: int, j: int|
                        0 <= i < rs.len() && (#[trigger] rs[i].round.id) == round_id && 0 <= j
                            < rs[i].purchases@.len() ==> (#[trigger] rs[i].purchases@[j].owner)
                            != owner,
                }
            }),
    {
        match self.find_round_index(round_id) {
            None => {
                proof {
                    assert forall|i: int, j: int|
                        0 <= i < self.rounds@.len() && (#[trigger] self.rounds@[i].round.id)
                            == round_id && 0 <= j < self.rounds@[i].purchases@.len() implies (
                        #[trigger] self.rounds@[i].purchases@[j].owner) != owner by {}
                }
                None
            },
            Some(idx) => {
                let ghost i = idx as int;
                match find_purchase_index(&self.rounds[idx].purchases, owner) {
                    None => {
                        proof {
                            assert forall|a: int, j: int|
                                0 <= a < self.rounds@.len() && (#[trigger] self.rounds@[a].round.id)
                                    == round_id && 0 <= j
                                    < self.rounds@[a].purchases@.len() implies (
                            #[trigger] self.rounds@[a].purchases@[j].owner) != owner by {
                                if a < i {
                                    assert(self.rounds@[a].round.id < self.rounds@[i].round.id);
                                } else if a > i {
                                    assert(self.rounds@[i].round.id < self.rounds@[a].round.id);
                                }
                            }
                        }
                        None
                    },
                    Some(j) => Some(self.rounds[idx].purchases[j]),
                }
            },
        }
    }

    /// All winner records of one round, in draw order.
    pub fn get_round_winners(&self, round_id: u64) -> (r: Vec<WinningTicket>)
        ensures
            ({
                let rs = self.rounds@;
                ||| ((forall|i: int|
                    0 <= i < rs.len() ==> (#[trigger] rs[i].round.id) != round_id) && r@.len()
                    == 0)
                ||| (exists|i: int|
                    0 <= i < rs.len() && (#[trigger] rs[i].round.id) == round_id
                        && r@ == rs[i].winners@)
            }),
    {
        match self.find_round_index(round_id) {
            None => Vec::new(),
            Some(idx) => {
                let n = self.rounds[idx].winners.len();
                let mut out: Vec<WinningTicket> = Vec::new();
                let mut k: usize = 0;
                while k < n
                    invariant
                        idx < self.rounds@.len(),
                        n == self.rounds@[idx as int].winners@.len(),
                        k <= n,
                        out@.len() == k,
                        forall|j: int|
                            0 <= j < k ==> out@[j] == self.rounds@[idx as int].winners@[j],
                    decreases n - k,
                {
                    out.push(self.rounds[idx].winners[k]);
                    k = k + 1;
                }
                proof {
                    assert(out@ =~= self.rounds@[idx as int].winners@);
                }
                out
            },
        }
    }

    /// Get a lottery round by id.
    pub fn get_round(&self, round_id: u64) -> (r: Option<LotteryRound>)
        ensures
            r == spec_round_at(self.rounds@, round_id),
            r matches Some(rr) ==> rr.id == round_id,
    {
        proof {
            lemma_round_at_props(self.rounds@, round_id);
        }
        let n = self.rounds.len();
        proof {
            assert(self.rounds@.subrange(0, n as int) =~= self.rounds@);
        }
        let mut k: usize = 0;
        while k < n
            invariant
                n == self.rounds@.len(),
                k <= n,
                spec_round_at(self.rounds@, round_id) == spec_round_at(
                    self.rounds@.subrange(k as int, n as int),
                    round_id,
                ),
            decreases n - k,
        {
            let ghost pre = self.rounds@.subrange(k as int, n as int);
            if self.rounds[k].round.id == round_id {
                assert(pre[0] == self.rounds@[k as int]);
                return Some(self.rounds[k].round);
            }
            proof {
                assert(pre[0] == self.rounds@[k as int]);
                assert(pre.subrange(1, pre.len() as int) =~= self.rounds@.subrange(
                    k + 1,
                    n as int,
                ));
            }
            k = k + 1;
        }
        proof {
            assert(self.rounds@.subrange(n as int, n as int).len() == 0);
        }
        None
    }

    /// Get all retained rounds, in ascending id order.
    pub fn get_all_rounds(&self) -> (r: Vec<LotteryRound>)
        ensures
            r@.len() == self.rounds@.len(),
            forall|i: int| 0 <= i < r@.len() ==> r@[i] == self.rounds@[i].round,
    {
        let n = self.rounds.len();
        let mut out: Vec<LotteryRound> = Vec::new();
        let mut k: usize = 0;
        while k < n
            invariant
                n == self.rounds@.len(),
                k <= n,
                out@.len() == k,
                forall|i: int| 0 <= i < k ==> out@[i] == self.rounds@[i].round,
            decreases n - k,
        {
            out.push(self.rounds[k].round);
            k = k + 1;
        }
        out
    }

    /// Id of the round currently accepting purchases, if any.
    pub fn get_active_round(&self) -> (r: Option<u64>)
        ensures
            r == self.active_round,
    {
        self.active_round
    }

    /// The active round's ticket price, or the default when no round is
    /// accepting purchases.
    pub fn get_current_ticket_price(&self) -> (r: u128)
        requires
            wf(*self),
        ensures
            match self.active_round {
                Some(id) => spec_round_at(self.rounds@, id) matches Some(rr) && r
                    == rr.ticket_price,
                None => r == DEFAULT_TICKET_PRICE,
            },
    {
        proof {
            lemma_round_at_props(self.rounds@, match self.active_round {
                Some(id) => id,
                None => 0,
            });
        }
        match self.active_round {
            Some(id) => {
                let idx = self.find_round_index(id);
                match idx {
                    Some(i) => self.rounds[i].round.ticket_price,
                    None => DEFAULT_TICKET_PRICE,  // unreachable under wf
                }
            },
            None => DEFAULT_TICKET_PRICE,
        }
    }
}

/// `spec_round_at` finds exactly the (unique) element with that id.
pub proof fn lemma_round_at_props(r: Seq<RoundData>, round_id: u64)
    ensures
        spec_round_at(r, round_id) is None <==> (forall|i: int|
            0 <= i < r.len() ==> (#[trigger] r[i].round.id) != round_id),
        spec_round_at(r, round_id) matches Some(rr) ==> exists|i: int|
            0 <= i < r.len() && #[trigger] r[i].round.id == round_id && r[i].round == rr,
    decreases r.len(),
{
    if r.len() > 0 {
        lemma_round_at_props(r.subrange(1, r.len() as int), round_id);
        if r[0].round.id != round_id {
            assert forall|i: int| 1 <= i < r.len() implies r.subrange(1, r.len() as int)[i - 1]
                == r[i] by {}
        }
    }
}

/// If the ids in `r` are sorted ascending and an element with the id is
/// at position `i`, `spec_round_at` returns that element's round.
pub proof fn lemma_round_at_index(r: Seq<RoundData>, round_id: u64, i: int)
    requires
        forall|a: int, b: int| 0 <= a < b < r.len() ==> r[a].round.id < r[b].round.id,
        0 <= i < r.len(),
        r[i].round.id == round_id,
    ensures
        spec_round_at(r, round_id) == Some(r[i].round),
    decreases r.len(),
{
    if i == 0 {
    } else {
        assert(r[0].round.id < r[i].round.id);
        let sub = r.subrange(1, r.len() as int);
        assert forall|a: int, b: int| 0 <= a < b < sub.len() implies sub[a].round.id
            < sub[b].round.id by {
            assert(sub[a] == r[a + 1] && sub[b] == r[b + 1]);
        }
        assert(sub[i - 1] == r[i]);
        lemma_round_at_index(sub, round_id, i - 1);
    }
}

/// The candidate ticket the sampler examines at a given attempt: the
/// seed plus the attempt counter, wrapped at 64 bits, reduced modulo the
/// tickets sold, one-indexed.
pub open spec fn spec_candidate(vrf: u64, attempt: int, total: int) -> int
    recommends
        1 <= total,
        0 <= attempt < 0x1_0000_0000_0000_0000,
{
    let s = if vrf + attempt <= u64::MAX {
        vrf + attempt
    } else {
        vrf + attempt - 0x1_0000_0000_0000_0000
    };
    s % total + 1
}

/// Within twice the tickets sold, the sampler's candidate sequence visits
/// every ticket: the window of wrapped seeds splits into at most two runs
/// of consecutive integers, one of which is at least `total` long.
pub proof fn lemma_candidate_covers(vrf: u64, total: int, ticket: int)
    requires
        1 <= total <= TICKET_CAPACITY,
        1 <= ticket <= total,
    ensures
        exists|a: int| 0 <= a < 2 * total && spec_candidate(vrf, a, total) == ticket,
{
    let w = 0x1_0000_0000_0000_0000 as int;
    let v = vrf as int;
    let r = ticket - 1;
    vstd::arithmetic::div_mod::lemma_small_mod(r as nat, total as nat);
    if v + total <= w {
        let a = (r - v) % total;
        vstd::arithmetic::div_mod::lemma_mod_bound(r - v, total);
        vstd::arithmetic::div_mod::lemma_add_mod_noop_right(v, r - v, total);
        assert(v + a <= u64::MAX);
        assert((v + a) % total == r);
        assert(spec_candidate(vrf, a, total) == ticket);
        assert(0 <= a < 2 * total);
    } else {
        let a = w - v + r;
        assert(v + a == w + r);
        assert(v + a > u64::MAX);
        assert(spec_candidate(vrf, a, total) == (r % total) + 1);
        assert(spec_candidate(vrf, a, total) == ticket);
        assert(w - v < total);
        assert(0 <= a < 2 * total);
    }
}

/// Some winner record already holds the candidate ticket of an attempt.
pub open spec fn spec_candidate_taken(w: Seq<WinningTicket>, vrf: u64, a: int, total: int) -> bool {
    exists|k: int|
        0 <= k < w.len() && (#[trigger] w[k].ticket_number) as int == spec_candidate(
            vrf,
            a,
            total,
        )
}

/// No winner record holds this ticket yet.
pub open spec fn spec_ticket_free(w: Seq<WinningTicket>, t: int) -> bool {
    forall|i: int| 0 <= i < w.len() ==> (#[trigger] w[i].ticket_number) != t
}

/// Pigeonhole: fewer distinct winning tickets than tickets sold means
/// some ticket has not won yet.
pub proof fn lemma_free_ticket_exists(w: Seq<WinningTicket>, total: int)
    requires
        1 <= total,
        w.len() < total,
        forall|i: int| 0 <= i < w.len() ==> 1 <= #[trigger] w[i].ticket_number <= total,
        forall|i: int, j: int| 0 <= i < j < w.len() ==> w[i].ticket_number != w[j].ticket_number,
    ensures
        exists|t: int| 1 <= t <= total && #[trigger] spec_ticket_free(w, t),
{
    let nums = Seq::new(w.len(), |i: int| w[i].ticket_number as int);
    assert(nums.no_duplicates());
    nums.unique_seq_to_set();
    vstd::seq_lib::seq_to_set_is_finite(nums);
    let sset = nums.to_set();
    let iset = vstd::set_lib::set_int_range(1, total + 1);
    vstd::set_lib::lemma_int_range(1, total + 1);
    if forall|t: int| 1 <= t <= total ==> #[trigger] sset.contains(t) {
        assert(iset.subset_of(sset));
        vstd::set_lib::lemma_len_subset(iset, sset);
        assert(false);
    }
    let t = choose|t: int| 1 <= t <= total && !(#[trigger] sset.contains(t));
    assert forall|i: int| 0 <= i < w.len() implies (#[trigger] w[i].ticket_number) != t by {
        if w[i].ticket_number == t {
            assert(nums[i] == t);
            assert(nums.contains(t));
        }
    }
    assert(spec_ticket_free(w, t));
}

/// The four tier quotas never exceed the tickets sold, so winners can
/// always be drawn without replacement.
pub proof fn lemma_quota_sum_le_total(total: int)
    requires
        total >= 4,
    ensures
        spec_quota(total, 0) + spec_quota(total, 1) + spec_quota(total, 2) + spec_quota(total, 3)
            <= total,
        forall|i: int| 0 <= i < 4 ==> 1 <= #[trigger] spec_quota(total, i),
{
    let f1 = total * 15 / 100;
    let f2 = total * 7 / 100;
    let f3 = total * 5 / 100;
    let f4 = total * 3 / 100;
    crate::prize::lemma_pct_share_le(total, 15);
    crate::prize::lemma_pct_share_le(total, 7);
    crate::prize::lemma_pct_share_le(total, 5);
    crate::prize::lemma_pct_share_le(total, 3);
    assert(total * 15 + total * 7 == total * 22) by (nonlinear_arith);
    assert(total * 5 + total * 3 == total * 8) by (nonlinear_arith);
    assert(total * 22 + total * 8 == total * 30) by (nonlinear_arith);
    crate::prize::lemma_div_sum_le(total * 15, total * 7, 100);
    crate::prize::lemma_div_sum_le(total * 5, total * 3, 100);
    crate::prize::lemma_div_sum_le(total * 22, total * 8, 100);
    crate::prize::lemma_pct_share_le(total, 30);
    // f1 + f2 + f3 + f4 <= total * 30 / 100
    if total >= 34 {
        // every percentage slice is already at least one
        assert(f4 >= 1) by {
            assert(total * 3 >= 100) by (nonlinear_arith)
                requires total >= 34;
            vstd::arithmetic::div_mod::lemma_div_is_ordered(100, total * 3, 100);
        }
        assert(f3 >= 1) by {
            assert(total * 5 >= 100) by (nonlinear_arith)
                requires total >= 34;
            vstd::arithmetic::div_mod::lemma_div_is_ordered(100, total * 5, 100);
        }
        assert(f2 >= 1) by {
            assert(total * 7 >= 100) by (nonlinear_arith)
                requires total >= 34;
            vstd::arithmetic::div_mod::lemma_div_is_ordered(100, total * 7, 100);
        }
        assert(f1 >= 1) by {
            assert(total * 15 >= 100) by (nonlinear_arith)
                requires total >= 34;
            vstd::arithmetic::div_mod::lemma_div_is_ordered(100, total * 15, 100);
        }
    } else {
        // small rounds: each quota is at most one more than its slice,
        // and 4 + 30% of total fits under total once total reaches five
        if total >= 5 {
            assert(total * 30 <= 100 * (total - 4) + 99) by (nonlinear_arith)
                requires 5 <= total;
            vstd::arithmetic::div_mod::lemma_div_is_ordered(
                total * 30,
                100 * (total - 4) + 99,
                100,
            );
            vstd::arithmetic::div_mod::lemma_fundamental_div_mod_converse_div(
                100 * (total - 4) + 99,
                100,
                total - 4,
                99,
            );
            assert(total * 30 / 100 <= total - 4);
        } else {
            // total == 4: every slice floors to zero
            assert(total * 15 == 60 && total * 7 == 28 && total * 5 == 20 && total * 3 == 12);
            assert(60int / 100 == 0 && 28int / 100 == 0 && 20int / 100 == 0 && 12int / 100
                == 0);
        }
    }
}

/// No double win: in a well-formed round, no ticket number ever appears
/// among the winners twice - winners are drawn without replacement.
pub proof fn lemma_no_double_win(rd: RoundData)
    requires
        rd_ok(rd),
    ensures
        forall|i: int, j: int|
            0 <= i < j < rd.winners@.len() ==> rd.winners@[i].ticket_number
                != rd.winners@[j].ticket_number,
{
}

/// Tier monotonicity: while a well-formed round is still drawing, every
/// tier before the cursor has met its quota exactly, the cursor's own
/// tier is strictly short of its quota, and no tier after the cursor has
/// drawn a single winner. A draw call therefore never produces a winner
/// for a later tier while an earlier tier's quota is unmet.
pub proof fn lemma_tier_monotonic(rd: RoundData)
    requires
        rd_ok(rd),
        rd.round.status == RoundStatus::Closed,
    ensures
        pool_index(rd.round.current_winner_pool) < 4,
        forall|q: int|
            0 <= q < pool_index(rd.round.current_winner_pool) ==> drawn_of(rd.round, q)
                == quota_of(rd.round, q),
        drawn_of(rd.round, pool_index(rd.round.current_winner_pool)) < quota_of(
            rd.round,
            pool_index(rd.round.current_winner_pool),
        ),
        forall|q: int|
            pool_index(rd.round.current_winner_pool) < q < 4 ==> drawn_of(rd.round, q) == 0,
{
}

/// Conservation for a closed or completed round: across its four tiers,
/// the quota of winners times the per-winner prize - exactly what every
/// draw of that tier pays out - sums to no more than the round's prize
/// pool, and the shortfall is exactly the flooring loss of the
/// percentage split plus the per-tier division remainders.
pub proof fn lemma_round_conservation(r: LotteryRound)
    requires
        round_ok(r),
        r.status != RoundStatus::Active,
    ensures
        ({
            let pool = r.prize_pool as int;
            let t1 = crate::prize::spec_prize_for_pool(pool, WinnerPool::Pool1);
            let t2 = crate::prize::spec_prize_for_pool(pool, WinnerPool::Pool2);
            let t3 = crate::prize::spec_prize_for_pool(pool, WinnerPool::Pool3);
            let t4 = crate::prize::spec_prize_for_pool(pool, WinnerPool::Pool4);
            let disbursed = r.pool1_count * spec_prize_per_winner(
                pool,
                WinnerPool::Pool1,
                r.pool1_count as int,
            ) + r.pool2_count * spec_prize_per_winner(pool, WinnerPool::Pool2, r.pool2_count as int)
                + r.pool3_count * spec_prize_per_winner(pool, WinnerPool::Pool3, r.pool3_count as int)
                + r.pool4_count * spec_prize_per_winner(pool, WinnerPool::Pool4, r.pool4_count as int);
            &&& 0 <= disbursed <= r.prize_pool
            &&& pool - disbursed == (pool - (t1 + t2 + t3 + t4)) + (t1 % (r.pool1_count as int)
                + t2 % (r.pool2_count as int) + t3 % (r.pool3_count as int) + t4 % (
            r.pool4_count as int))
        }),
{
    let total = r.total_tickets_sold as int;
    lemma_quota_sum_le_total(total);
    assert(quota_of(r, 0) == spec_quota(total, 0));
    assert(quota_of(r, 1) == spec_quota(total, 1));
    assert(quota_of(r, 2) == spec_quota(total, 2));
    assert(quota_of(r, 3) == spec_quota(total, 3));
    crate::prize::lemma_prize_conservation(
        r.prize_pool as int,
        r.pool1_count as int,
        r.pool2_count as int,
        r.pool3_count as int,
        r.pool4_count as int,
    );
}

/// Idempotent read: what a round query returns is a function of the
/// state alone, so two reads of an unmodified state return identical
/// results.
pub proof fn lemma_get_round_idempotent(
    s: LotteryState,
    round_id: u64,
    r1: Option<LotteryRound>,
    r2: Option<LotteryRound>,
)
    requires
        r1 == spec_round_at(s.rounds@, round_id),
        r2 == spec_round_at(s.rounds@, round_id),
    ensures
        r1 == r2,
{
}

/// Whether a ticket already appears among the round's winners.
fn winner_contains(winners: &Vec<WinningTicket>, ticket: u64) -> (r: bool)
    ensures
        r <==> exists|k: int|
            0 <= k < winners@.len() && (#[trigger] winners@[k].ticket_number) == ticket,
{
    let n = winners.len();
    let mut k: usize = 0;
    while k < n
        invariant
            n == winners@.len(),
            k <= n,
            forall|j: int| 0 <= j < k ==> (#[trigger] winners@[j].ticket_number) != ticket,
        decreases n - k,
    {
        if winners[k].ticket_number == ticket {
            return true;
        }
        k = k + 1;
    }
    false
}

} // verus!
