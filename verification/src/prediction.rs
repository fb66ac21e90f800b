//! The binary up/down prediction market: round lifecycle, the per-owner
//! bet ledger with additive merging, deterministic resolution by price
//! comparison, and proportional reward computation.
//!
//! A round moves `Active -> Closed -> Resolved`. Closing freezes the
//! pools and records the closing price and immediately opens a successor
//! round; resolving compares the resolution price against the closing
//! price (strictly greater: up wins; strictly less: down wins; equal:
//! nobody wins) and computes every participant's outcome in one pass.

use vstd::prelude::*;
use crate::arith::{sat_add_u128, spec_sat_add};
use crate::prize::{calculate_winnings_proportional, spec_winnings};

verus! {

/// Status of a prediction round.
#[derive(Clone, Copy, Debug, PartialEq, Eq, Structural)]
pub enum RoundStatus {
    Active,
    Closed,
    Resolved,
}

/// Direction of a bet in the up/down game.
#[derive(Clone, Copy, Debug, PartialEq, Eq, Structural)]
pub enum Prediction {
    Up,
    Down,
}

/// One owner's merged bets in one round: repeat bets accumulate
/// additively per side rather than creating duplicates.
#[derive(Clone, Copy, Debug, PartialEq, Eq)]
pub struct PredictionBet {
    pub owner: u64,
    pub amount_up: u128,
    pub amount_down: u128,
    pub claimed: bool,
    /// Chain the stake was placed from, when not the executing chain.
    pub source_chain_id: Option<u64>,
}

/// Aggregate bookkeeping of one prediction round.
#[derive(Clone, Copy, Debug, PartialEq, Eq)]
pub struct PredictionRound {
    pub id: u64,
    pub created_at: u64,
    pub closed_at: Option<u64>,
    pub resolved_at: Option<u64>,
    pub status: RoundStatus,
    pub closing_price: Option<u128>,
    pub resolution_price: Option<u128>,
    /// Number of distinct bettors with a nonzero up-side stake.
    pub up_bets: u64,
    /// Number of distinct bettors with a nonzero down-side stake.
    pub down_bets: u64,
    pub up_bets_pool: u128,
    pub down_bets_pool: u128,
    pub prize_pool: u128,
    pub result: Option<Prediction>,
}

/// A round together with its bet ledger. The ledger's stage follows the
/// round's status: bets of an active round are open, of a closed round
/// await resolution, of a resolved round await settlement.
pub struct PredictionRoundData {
    pub round: PredictionRound,
    pub bets: Vec<PredictionBet>,
}

/// The prediction application state.
pub struct PredictionState {
    /// Monotonic id counter; round ids are never reused.
    pub round_counter: u64,
    /// All rounds, in creation order; round `id` sits at position `id - 1`.
    pub rounds: Vec<PredictionRoundData>,
    pub active_round: Option<u64>,
}

/// One participant's outcome of a resolved round: what they wagered in
/// total, what is paid back to them, and whether they ended up ahead.
#[derive(Clone, Copy, Debug, PartialEq, Eq)]
pub struct BetOutcome {
    pub owner: u64,
    pub total_wagered: u128,
    pub total_winnings: u128,
    pub is_win: bool,
    pub source_chain_id: Option<u64>,
}

/// A winner still owed settlement from a resolved round.
#[derive(Clone, Copy, Debug, PartialEq, Eq)]
pub struct RoundWinner {
    pub owner: u64,
    pub bet_amount: u128,
    pub winnings: u128,
    pub source_chain_id: Option<u64>,
}

/// Everything that can go wrong in a prediction-market operation.
#[derive(Clone, Copy, Debug, PartialEq, Eq, Structural)]
pub enum PredictionError {
    /// No round is currently accepting bets.
    NoActiveRound,
    /// The requested round does not exist.
    RoundNotFound,
    /// Only a closed round can be resolved.
    RoundNotClosed,
    /// Only a resolved round pays out.
    RoundNotResolved,
    /// The closing and resolution price were equal: nobody wins.
    EqualPrices,
    /// The owner placed no bet in that round.
    NoBetsFound,
    /// The owner's winnings were already claimed.
    AlreadyClaimed,
    /// The owner's stake was on the losing side.
    NoWinningBets,
    /// The bettor's balance does not cover the amount.
    InsufficientBalance,
}

/// Number of bets with a nonzero up-side stake.
pub open spec fn count_up(b: Seq<PredictionBet>) -> int
    decreases b.len(),
{
    if b.len() == 0 {
        0
    } else {
        count_up(b.drop_last()) + if b.last().amount_up > 0 {
            1int
        } else {
            0int
        }
    }
}

/// Number of bets with a nonzero down-side stake.
pub open spec fn count_down(b: Seq<PredictionBet>) -> int
    decreases b.len(),
{
    if b.len() == 0 {
        0
    } else {
        count_down(b.drop_last()) + if b.last().amount_down > 0 {
            1int
        } else {
            0int
        }
    }
}

/// Exact (unbounded) sum of all up-side stakes.
pub open spec fn sum_up(b: Seq<PredictionBet>) -> int
    decreases b.len(),
{
    if b.len() == 0 {
        0
    } else {
        sum_up(b.drop_last()) + b.last().amount_up
    }
}

/// Exact (unbounded) sum of all down-side stakes.
pub open spec fn sum_down(b: Seq<PredictionBet>) -> int
    decreases b.len(),
{
    if b.len() == 0 {
        0
    } else {
        sum_down(b.drop_last()) + b.last().amount_down
    }
}

/// An exact sum, saturated once at the representable maximum. The pools
/// accumulate by saturating addition, which agrees with this.
pub open spec fn sat_of(total: int) -> int {
    if total <= u128::MAX {
        total
    } else {
        u128::MAX as int
    }
}

/// The outcome of a resolved round determined by price comparison:
/// strictly greater resolution means up wins, strictly less means down
/// wins, equality means nobody wins.
pub open spec fn spec_result(closing: int, resolution: int) -> Option<Prediction> {
    if resolution > closing {
        Some(Prediction::Up)
    } else if resolution < closing {
        Some(Prediction::Down)
    } else {
        None
    }
}

/// The pool on the winning side, or zero when nobody wins.
pub open spec fn spec_winner_pool(r: PredictionRound) -> int {
    match r.result {
        Some(Prediction::Up) => r.up_bets_pool as int,
        Some(Prediction::Down) => r.down_bets_pool as int,
        None => 0,
    }
}

/// One bet's outcome under a resolved round: the proportional share of
/// the whole pool for the winning-side stake, nothing otherwise; a win
/// is being paid back strictly more than was wagered.
pub open spec fn spec_bet_outcome(
    bet: PredictionBet,
    result: Option<Prediction>,
    winner_pool: int,
    total_pool: int,
) -> BetOutcome {
    let winnings = match result {
        Some(Prediction::Up) => if bet.amount_up > 0 {
            spec_winnings(bet.amount_up as int, winner_pool, total_pool)
        } else {
            0
        },
        Some(Prediction::Down) => if bet.amount_down > 0 {
            spec_winnings(bet.amount_down as int, winner_pool, total_pool)
        } else {
            0
        },
        None => 0,
    };
    let wagered = spec_sat_add(bet.amount_up as int, bet.amount_down as int);
    BetOutcome {
        owner: bet.owner,
        total_wagered: wagered as u128,
        total_winnings: winnings as u128,
        is_win: winnings > wagered,
        source_chain_id: bet.source_chain_id,
    }
}

/// Internal consistency of one round's bookkeeping: counters and pools
/// agree with the bet ledger, owners are unique, and the lifecycle
/// fields agree with the status - in particular, the recorded result of
/// a resolved round is exactly what price comparison dictates.
pub open spec fn prd_ok(rd: PredictionRoundData) -> bool {
    let r = rd.round;
    let b = rd.bets@;
    &&& 1 <= r.id
    &&& forall|i: int, j: int| 0 <= i < j < b.len() ==> b[i].owner != b[j].owner
    &&& r.up_bets == count_up(b)
    &&& r.down_bets == count_down(b)
    &&& r.up_bets_pool == sat_of(sum_up(b))
    &&& r.down_bets_pool == sat_of(sum_down(b))
    &&& r.prize_pool == sat_of(sum_up(b) + sum_down(b))
    &&& match r.status {
        RoundStatus::Active => {
            &&& r.closed_at is None
            &&& r.resolved_at is None
            &&& r.closing_price is None
            &&& r.resolution_price is None
            &&& r.result is None
        },
        RoundStatus::Closed => {
            &&& r.closed_at is Some
            &&& r.closing_price is Some
            &&& r.resolved_at is None
            &&& r.resolution_price is None
            &&& r.result is None
        },
        RoundStatus::Resolved => {
            &&& r.closed_at is Some
            &&& r.closing_price is Some
            &&& r.resolved_at is Some
            &&& r.resolution_price is Some
            &&& r.result == spec_result(
                r.closing_price->Some_0 as int,
                r.resolution_price->Some_0 as int,
            )
        },
    }
}

/// Well-formedness of the whole prediction state: round `id` is stored
/// at position `id - 1`, every round is internally consistent, and at
/// most one round is active - exactly the one the active pointer names.
pub open spec fn wf(s: PredictionState) -> bool {
    let r = s.rounds@;
    &&& r.len() == s.round_counter
    &&& forall|i: int| 0 <= i < r.len() ==> prd_ok(#[trigger] r[i])
    &&& forall|i: int| 0 <= i < r.len() ==> (#[trigger] r[i].round.id) == i + 1
    &&& (s.active_round matches Some(id) ==> 1 <= id <= r.len() && r[id - 1].round.status
        == RoundStatus::Active)
    &&& forall|i: int|
        0 <= i < r.len() && (#[trigger] r[i].round.status) == RoundStatus::Active
            ==> s.active_round == Some((i + 1) as u64)
}

/// The bookkeeping of a prediction round the moment it is created.
pub open spec fn spec_fresh_prediction_round(id: u64, timestamp: u64) -> PredictionRound {
    PredictionRound {
        id,
        created_at: timestamp,
        closed_at: None,
        resolved_at: None,
        status: RoundStatus::Active,
        closing_price: None,
        resolution_price: None,
        up_bets: 0,
        down_bets: 0,
        up_bets_pool: 0,
        down_bets_pool: 0,
        prize_pool: 0,
        result: None,
    }
}

/// Updating one bet changes the aggregate counts and sums by exactly
/// that bet's contribution.
pub proof fn lemma_aggregates_update(b: Seq<PredictionBet>, j: int, x: PredictionBet)
    requires
        0 <= j < b.len(),
    ensures
        count_up(b.update(j, x)) == count_up(b) + (if x.amount_up > 0 {
            1int
        } else {
            0int
        }) - (if b[j].amount_up > 0 {
            1int
        } else {
            0int
        }),
        count_down(b.update(j, x)) == count_down(b) + (if x.amount_down > 0 {
            1int
        } else {
            0int
        }) - (if b[j].amount_down > 0 {
            1int
        } else {
            0int
        }),
        sum_up(b.update(j, x)) == sum_up(b) + x.amount_up - b[j].amount_up,
        sum_down(b.update(j, x)) == sum_down(b) + x.amount_down - b[j].amount_down,
    decreases b.len(),
{
    let bu = b.update(j, x);
    if j == b.len() - 1 {
        assert(bu.drop_last() =~= b.drop_last());
        assert(bu.last() == x);
    } else {
        lemma_aggregates_update(b.drop_last(), j, x);
        assert(bu.drop_last() =~= b.drop_last().update(j, x));
        assert(bu.last() == b.last());
    }
}

/// Appending one bet adds exactly its contribution to the aggregates.
pub proof fn lemma_aggregates_push(b: Seq<PredictionBet>, x: PredictionBet)
    ensures
        count_up(b.push(x)) == count_up(b) + (if x.amount_up > 0 {
            1int
        } else {
            0int
        }),
        count_down(b.push(x)) == count_down(b) + (if x.amount_down > 0 {
            1int
        } else {
            0int
        }),
        sum_up(b.push(x)) == sum_up(b) + x.amount_up,
        sum_down(b.push(x)) == sum_down(b) + x.amount_down,
{
    assert(b.push(x).drop_last() =~= b);
    assert(b.push(x).last() == x);
}

/// The nonzero-stake counters never exceed the number of bets, and drop
/// strictly below it as soon as one bet sits at zero on that side.
pub proof fn lemma_count_bounds(b: Seq<PredictionBet>)
    ensures
        0 <= count_up(b) <= b.len(),
        0 <= count_down(b) <= b.len(),
        forall|j: int|
            0 <= j < b.len() && (#[trigger] b[j].amount_up) == 0 ==> count_up(b) <= b.len() - 1,
        forall|j: int|
            0 <= j < b.len() && (#[trigger] b[j].amount_down) == 0 ==> count_down(b) <= b.len()
                - 1,
    decreases b.len(),
{
    if b.len() > 0 {
        lemma_count_bounds(b.drop_last());
        assert forall|j: int|
            0 <= j < b.len() && (#[trigger] b[j].amount_up) == 0 implies count_up(b) <= b.len()
            - 1 by {
            if j < b.len() - 1 {
                assert(b.drop_last()[j].amount_up == 0);
            }
        }
        assert forall|j: int|
            0 <= j < b.len() && (#[trigger] b[j].amount_down) == 0 implies count_down(b)
            <= b.len() - 1 by {
            if j < b.len() - 1 {
                assert(b.drop_last()[j].amount_down == 0);
            }
        }
    }
}

/// Stakes are nonnegative, so no single bet exceeds its side's sum.
pub proof fn lemma_sum_bounds(b: Seq<PredictionBet>)
    ensures
        sum_up(b) >= 0,
        sum_down(b) >= 0,
        forall|j: int| 0 <= j < b.len() ==> (#[trigger] b[j].amount_up) <= sum_up(b),
        forall|j: int| 0 <= j < b.len() ==> (#[trigger] b[j].amount_down) <= sum_down(b),
    decreases b.len(),
{
    if b.len() > 0 {
        lemma_sum_bounds(b.drop_last());
        assert forall|j: int| 0 <= j < b.len() implies (#[trigger] b[j].amount_up) <= sum_up(
            b,
        ) by {
            if j < b.len() - 1 {
                assert(b.drop_last()[j] == b[j]);
            }
        }
        assert forall|j: int| 0 <= j < b.len() implies (#[trigger] b[j].amount_down) <= sum_down(
            b,
        ) by {
            if j < b.len() - 1 {
                assert(b.drop_last()[j] == b[j]);
            }
        }
    }
}

/// How a successful bet placement transforms the state: the active
/// round's ledger gains or merges the owner's bet, and the counters and
/// pools absorb exactly the new amount.
pub open spec fn spec_place_applied(
    s0: PredictionState,
    s1: PredictionState,
    owner: u64,
    amount: u128,
    prediction: Prediction,
    chain: Option<u64>,
) -> bool {
    s0.active_round matches Some(id) && {
        let i = id - 1;
        let rd0 = s0.rounds@[i];
        let rd1 = s1.rounds@[i];
        let b0 = rd0.bets@;
        &&& s1.rounds@ == s0.rounds@.update(i, rd1)
        &&& if (exists|j: int| 0 <= j < b0.len() && (#[trigger] b0[j].owner) == owner) {
            let j = choose|j: int| 0 <= j < b0.len() && (#[trigger] b0[j].owner) == owner;
            let bet1 = PredictionBet {
                amount_up: if prediction == Prediction::Up {
                    spec_sat_add(b0[j].amount_up as int, amount as int) as u128
                } else {
                    b0[j].amount_up
                },
                amount_down: if prediction == Prediction::Down {
                    spec_sat_add(b0[j].amount_down as int, amount as int) as u128
                } else {
                    b0[j].amount_down
                },
                ..b0[j]
            };
            rd1.bets@ == b0.update(j, bet1)
        } else {
            rd1.bets@ == b0.push(
                PredictionBet {
                    owner,
                    amount_up: if prediction == Prediction::Up {
                        amount
                    } else {
                        0
                    },
                    amount_down: if prediction == Prediction::Down {
                        amount
                    } else {
                        0
                    },
                    claimed: false,
                    source_chain_id: chain,
                },
            )
        }
        &&& rd1.round == PredictionRound {
            up_bets: count_up(rd1.bets@) as u64,
            down_bets: count_down(rd1.bets@) as u64,
            up_bets_pool: sat_of(sum_up(rd1.bets@)) as u128,
            down_bets_pool: sat_of(sum_down(rd1.bets@)) as u128,
            prize_pool: sat_of(sum_up(rd1.bets@) + sum_down(rd1.bets@)) as u128,
            ..rd0.round
        }
    }
}

/// The winners of a resolved round still owed settlement: unclaimed
/// winning-side stakes whose proportional payout is nonzero, in ledger
/// order.
pub open spec fn spec_round_winners(
    b: Seq<PredictionBet>,
    result: Option<Prediction>,
    winner_pool: int,
    total_pool: int,
) -> Seq<RoundWinner>
    decreases b.len(),
{
    if b.len() == 0 {
        Seq::empty()
    } else {
        let rest = spec_round_winners(b.drop_last(), result, winner_pool, total_pool);
        let bet = b.last();
        let amt = match result {
            Some(Prediction::Up) => bet.amount_up as int,
            Some(Prediction::Down) => bet.amount_down as int,
            None => 0,
        };
        let winnings = spec_winnings(amt, winner_pool, total_pool);
        if !bet.claimed && amt > 0 && winnings > 0 {
            rest.push(
                RoundWinner {
                    owner: bet.owner,
                    bet_amount: amt as u128,
                    winnings: winnings as u128,
                    source_chain_id: bet.source_chain_id,
                },
            )
        } else {
            rest
        }
    }
}

/// No double win: with one merged bet per owner, a resolved round owes
/// each owner at most one settlement - the winner list never names the
/// same owner twice.
pub proof fn lemma_round_winners_distinct(
    b: Seq<PredictionBet>,
    result: Option<Prediction>,
    winner_pool: int,
    total_pool: int,
)
    requires
        forall|i: int, j: int| 0 <= i < j < b.len() ==> b[i].owner != b[j].owner,
    ensures
        ({
            let ws = spec_round_winners(b, result, winner_pool, total_pool);
            &&& forall|k: int|
                0 <= k < ws.len() ==> exists|j: int|
                    0 <= j < b.len() && (#[trigger] ws[k].owner) == b[j].owner
            &&& forall|a: int, c: int| 0 <= a < c < ws.len() ==> ws[a].owner != ws[c].owner
        }),
    decreases b.len(),
{
    if b.len() > 0 {
        let pre = b.drop_last();
        assert forall|i: int, j: int| 0 <= i < j < pre.len() implies pre[i].owner
            != pre[j].owner by {
            assert(pre[i] == b[i] && pre[j] == b[j]);
        }
        lemma_round_winners_distinct(pre, result, winner_pool, total_pool);
        let rest = spec_round_winners(pre, result, winner_pool, total_pool);
        let ws = spec_round_winners(b, result, winner_pool, total_pool);
        assert forall|k: int| 0 <= k < ws.len() implies exists|j: int|
            0 <= j < b.len() && (#[trigger] ws[k].owner) == b[j].owner by {
            if k < rest.len() {
                assert(ws[k] == rest[k]);
                let j = choose|j: int| 0 <= j < pre.len() && rest[k].owner == pre[j].owner;
                assert(b[j].owner == ws[k].owner);
            } else {
                assert(ws[k].owner == b[b.len() - 1].owner);
            }
        }
        assert forall|a: int, c: int| 0 <= a < c < ws.len() implies ws[a].owner != ws[c].owner by {
            if c < rest.len() {
                assert(ws[a] == rest[a] && ws[c] == rest[c]);
            } else if ws.len() > rest.len() {
                assert(ws[a] == rest[a]);
                let j = choose|j: int| 0 <= j < pre.len() && rest[a].owner == pre[j].owner;
                assert(b[j].owner != b[b.len() - 1].owner);
            }
        }
    }
}

/// Idempotent read: what a round query returns is a function of the
/// state alone, so two reads of an unmodified state return identical
/// results.
pub proof fn lemma_get_round_idempotent(
    s: PredictionState,
    round_id: u64,
    r1: Option<PredictionRound>,
    r2: Option<PredictionRound>,
)
    requires
        r1 == (if 1 <= round_id <= s.rounds@.len() {
            Some(s.rounds@[round_id - 1].round)
        } else {
            Option::<PredictionRound>::None
        }),
        r2 == (if 1 <= round_id <= s.rounds@.len() {
            Some(s.rounds@[round_id - 1].round)
        } else {
            Option::<PredictionRound>::None
        }),
    ensures
        r1 == r2,
{
}

/// Position of an owner's merged bet, if any.
fn find_bet_index(bets: &Vec<PredictionBet>, owner: u64) -> (r: Option<usize>)
    ensures
        match r {
            Some(j) => j < bets@.len() && bets@[j as int].owner == owner,
            None => forall|j: int|
                0 <= j < bets@.len() ==> (#[trigger] bets@[j].owner) != owner,
        },
{
    let n = bets.len();
    let mut k: usize = 0;
    while k < n
        invariant
            n == bets@.len(),
            k <= n,
            forall|j: int| 0 <= j < k ==> (#[trigger] bets@[j].owner) != owner,
        decreases n - k,
    {
        if bets[k].owner == owner {
            return Some(k);
        }
        k = k + 1;
    }
    None
}

impl PredictionState {
    /// A fresh state with no rounds.
    pub fn new() -> (s: PredictionState)
        ensures
            wf(s),
            s.round_counter == 0,
            s.rounds@.len() == 0,
            s.active_round is None,
    {
        PredictionState { round_counter: 0, rounds: Vec::new(), active_round: None }
    }

    /// Create a new prediction round; it becomes the active round. Any
    /// previously active round must already have been closed.
    pub fn create_round(&mut self, timestamp: u64) -> (r: u64)
        requires
            wf(*old(self)),
            old(self).round_counter < u64::MAX,
            forall|i: int|
                0 <= i < old(self).rounds@.len() ==> (#[trigger] old(self).rounds@[i].round.status) != RoundStatus::Active,
        ensures
            wf(*final(self)),
            r == old(self).round_counter + 1,
            final(self).round_counter == r,
            final(self).active_round == Some(r),
            final(self).rounds@.len() == old(self).rounds@.len() + 1,
            final(self).rounds@.drop_last() == old(self).rounds@,
            final(self).rounds@.last().round == spec_fresh_prediction_round(r, timestamp),
            final(self).rounds@.last().bets@.len() == 0,
    {
        let round_id = self.round_counter + 1;
        self.round_counter = round_id;
        let data = PredictionRoundData {
            round: PredictionRound {
                id: round_id,
                created_at: timestamp,
                closed_at: None,
                resolved_at: None,
                status: RoundStatus::Active,
                closing_price: None,
                resolution_price: None,
                up_bets: 0,
                down_bets: 0,
                up_bets_pool: 0,
                down_bets_pool: 0,
                prize_pool: 0,
                result: None,
            },
            bets: Vec::new(),
        };
        self.rounds.push(data);
        self.active_round = Some(round_id);
        proof {
            let r1 = self.rounds@;
            assert(r1.drop_last() =~= old(self).rounds@);
            assert forall|a: int| 0 <= a < r1.len() implies prd_ok(#[trigger] r1[a]) by {
                if a < r1.len() - 1 {
                    assert(r1[a] == old(self).rounds@[a]);
                }
            }
        }
        round_id
    }

    /// Place or merge a bet in the active round: the amount accumulates
    /// on the predicted side of the owner's record, and the owner joins
    /// that side's bettor count the first time the side becomes nonzero.
    pub fn place_bet(
        &mut self,
        owner: u64,
        amount: u128,
        prediction: Prediction,
        source_chain_id: Option<u64>,
    ) -> (r: Result<(), PredictionError>)
        requires
            wf(*old(self)),
        ensures
            wf(*final(self)),
            final(self).round_counter == old(self).round_counter,
            final(self).active_round == old(self).active_round,
            match r {
                Ok(_) => spec_place_applied(
                    *old(self),
                    *final(self),
                    owner,
                    amount,
                    prediction,
                    source_chain_id,
                ),
                Err(PredictionError::NoActiveRound) => final(self).rounds@ == old(self).rounds@
                    && old(self).active_round is None,
                Err(_) => false,
            },
    {
        let round_id = match self.active_round {
            None => {
                return Err(PredictionError::NoActiveRound);
            },
            Some(id) => id,
        };
        let n = self.rounds.len();
        proof {
            assert(1 <= round_id && round_id <= n);
        }
        let idx = (round_id - 1) as usize;
        let ghost i = idx as int;
        let ghost r0 = self.rounds@;
        let mut rd = self.rounds.remove(idx);
        let ghost rd0 = rd;
        let ghost b0 = rd.bets@;
        let bets_len = rd.bets.len();
        proof {
            lemma_count_bounds(b0);
            lemma_sum_bounds(b0);
        }

        match find_bet_index(&rd.bets, owner) {
            Some(j) => {
                let oldb = rd.bets[j];
                proof {
                    let w = choose|w: int| 0 <= w < b0.len() && (#[trigger] b0[w].owner) == owner;
                    assert(w == j as int);
                }
                // joining a side counts the bettor once, when the bucket
                // first becomes nonzero
                let newb = match prediction {
                    Prediction::Up => {
                        if oldb.amount_up == 0 && amount > 0 {
                            proof {
                                assert(b0[j as int].amount_up == 0);
                            }
                            rd.round.up_bets = rd.round.up_bets + 1;
                        }
                        PredictionBet {
                            amount_up: sat_add_u128(oldb.amount_up, amount),
                            ..oldb
                        }
                    },
                    Prediction::Down => {
                        if oldb.amount_down == 0 && amount > 0 {
                            proof {
                                assert(b0[j as int].amount_down == 0);
                            }
                            rd.round.down_bets = rd.round.down_bets + 1;
                        }
                        PredictionBet {
                            amount_down: sat_add_u128(oldb.amount_down, amount),
                            ..oldb
                        }
                    },
                };
                rd.bets[j] = newb;
                proof {
                    lemma_aggregates_update(b0, j as int, newb);
                }
            },
            None => {
                let newb = match prediction {
                    Prediction::Up => PredictionBet {
                        owner,
                        amount_up: amount,
                        amount_down: 0,
                        claimed: false,
                        source_chain_id,
                    },
                    Prediction::Down => PredictionBet {
                        owner,
                        amount_up: 0,
                        amount_down: amount,
                        claimed: false,
                        source_chain_id,
                    },
                };
                rd.bets.push(newb);
                let new_len = rd.bets.len();
                proof {
                    assert(new_len == bets_len + 1);
                    lemma_aggregates_push(b0, newb);
                }
                if amount > 0 {
                    match prediction {
                        Prediction::Up => {
                            rd.round.up_bets = rd.round.up_bets + 1;
                        },
                        Prediction::Down => {
                            rd.round.down_bets = rd.round.down_bets + 1;
                        },
                    }
                }
            },
        }

        // update the pools
        match prediction {
            Prediction::Up => {
                rd.round.up_bets_pool = sat_add_u128(rd.round.up_bets_pool, amount);
            },
            Prediction::Down => {
                rd.round.down_bets_pool = sat_add_u128(rd.round.down_bets_pool, amount);
            },
        }
        rd.round.prize_pool = sat_add_u128(rd.round.prize_pool, amount);

        self.rounds.insert(idx, rd);
        proof {
            let r1 = self.rounds@;
            assert(r1 =~= r0.update(i, r1[i]));
            let rd1 = r1[i];
            let b1 = rd1.bets@;
            assert forall|a: int, b: int| 0 <= a < b < b1.len() implies b1[a].owner
                != b1[b].owner by {
                if b < b0.len() {
                    assert(b1[a] == b0[a] || b1[a].owner == b0[a].owner);
                    assert(b1[b] == b0[b] || b1[b].owner == b0[b].owner);
                } else {
                    assert(b1[a] == b0[a] || b1[a].owner == b0[a].owner);
                }
            }
            assert(prd_ok(rd1));
            assert forall|a: int| 0 <= a < r1.len() implies prd_ok(#[trigger] r1[a]) by {
                if a != i {
                    assert(r1[a] == r0[a]);
                }
            }
            assert forall|a: int|
                0 <= a < r1.len() && (#[trigger] r1[a].round.status)
                    == RoundStatus::Active implies self.active_round == Some((a + 1) as u64) by {
                if a != i {
                    assert(r1[a] == r0[a]);
                }
            }
            assert(wf(*self));
            assert(spec_place_applied(
                *old(self),
                *self,
                owner,
                amount,
                prediction,
                source_chain_id,
            ));
        }
        Ok(())
    }

    /// Close the active round: freeze the pools, record the closing
    /// price, and immediately open a successor round, whose id is
    /// returned.
    pub fn close_round(&mut self, closing_price: u128, timestamp: u64) -> (r: Result<
        u64,
        PredictionError,
    >)
        requires
            wf(*old(self)),
            old(self).round_counter < u64::MAX,
        ensures
            wf(*final(self)),
            match r {
                Ok(new_id) => old(self).active_round matches Some(id) && new_id == old(self).round_counter + 1 && final(self).round_counter == new_id && final(self).active_round == Some(new_id) && final(self).rounds@.len() == old(self).rounds@.len() + 1 && ({
                    let i = id - 1;
                    let rd0 = old(self).rounds@[i];
                    let rd1 = final(self).rounds@[i];
                    &&& rd1.bets@ == rd0.bets@
                    &&& rd1.round == PredictionRound {
                        status: RoundStatus::Closed,
                        closed_at: Some(timestamp),
                        closing_price: Some(closing_price),
                        ..rd0.round
                    }
                    &&& final(self).rounds@.drop_last() == old(self).rounds@.update(i, rd1)
                    &&& final(self).rounds@.last().round == spec_fresh_prediction_round(
                        new_id,
                        timestamp,
                    )
                    &&& final(self).rounds@.last().bets@.len() == 0
                }),
                Err(PredictionError::NoActiveRound) => final(self).rounds@ == old(self).rounds@
                    && final(self).round_counter == old(self).round_counter && final(self).active_round == old(self).active_round && old(self).active_round is None,
                Err(_) => false,
            },
    {
        let round_id = match self.active_round {
            None => {
                return Err(PredictionError::NoActiveRound);
            },
            Some(id) => id,
        };
        let n = self.rounds.len();
        proof {
            assert(1 <= round_id && round_id <= n);
        }
        let idx = (round_id - 1) as usize;
        let ghost i = idx as int;
        let ghost r0 = self.rounds@;
        let mut rd = self.rounds.remove(idx);
        rd.round.status = RoundStatus::Closed;
        rd.round.closed_at = Some(timestamp);
        rd.round.closing_price = Some(closing_price);
        self.rounds.insert(idx, rd);
        self.active_round = None;
        let ghost mid = self.rounds@;
        proof {
            assert(mid =~= r0.update(i, mid[i]));
            assert(prd_ok(mid[i]));
            assert forall|a: int| 0 <= a < mid.len() implies prd_ok(#[trigger] mid[a])
                && (#[trigger] mid[a].round.id) == a + 1 by {
                if a != i {
                    assert(mid[a] == r0[a]);
                }
            }
            assert forall|a: int|
                0 <= a < mid.len() && (#[trigger] mid[a].round.status)
                    == RoundStatus::Active implies false by {
                if a != i {
                    assert(mid[a] == r0[a]);
                    assert(old(self).active_round == Some((a + 1) as u64));
                }
            }
            assert(wf(*self));
        }
        let new_id = self.create_round(timestamp);
        proof {
            assert(final(self).rounds@.drop_last() == mid);
        }
        Ok(new_id)
    }

    /// Resolve a closed round by comparing the resolution price against
    /// the recorded closing price (strictly greater: up wins; strictly
    /// less: down wins; equal: nobody wins), and compute every
    /// participant's outcome in one pass: a winning-side stake is paid
    /// its proportional share of the whole pool, everything else pays
    /// zero. Each participant appears exactly once.
    pub fn resolve_round_and_distribute_rewards(
        &mut self,
        round_id: u64,
        resolution_price: u128,
        timestamp: u64,
    ) -> (r: Result<Vec<BetOutcome>, PredictionError>)
        requires
            wf(*old(self)),
        ensures
            wf(*final(self)),
            final(self).round_counter == old(self).round_counter,
            final(self).active_round == old(self).active_round,
            match r {
                Ok(outs) => 1 <= round_id <= old(self).rounds@.len() && ({
                    let i = round_id - 1;
                    let rd0 = old(self).rounds@[i];
                    let rd1 = final(self).rounds@[i];
                    let result = spec_result(
                        rd0.round.closing_price->Some_0 as int,
                        resolution_price as int,
                    );
                    &&& rd0.round.status == RoundStatus::Closed
                    &&& final(self).rounds@ == old(self).rounds@.update(i, rd1)
                    &&& rd1.bets@ == rd0.bets@
                    &&& rd1.round == PredictionRound {
                        status: RoundStatus::Resolved,
                        resolved_at: Some(timestamp),
                        resolution_price: Some(resolution_price),
                        result: result,
                        ..rd0.round
                    }
                    &&& outs@.len() == rd0.bets@.len()
                    &&& (forall|k: int|
                        0 <= k < outs@.len() ==> (#[trigger] outs@[k]) == spec_bet_outcome(
                            rd0.bets@[k],
                            result,
                            spec_winner_pool(rd1.round),
                            rd0.round.prize_pool as int,
                        ))
                    &&& (forall|a: int, b: int|
                        0 <= a < b < outs@.len() ==> outs@[a].owner != outs@[b].owner)
                    &&& (rd0.round.closing_price == Some(resolution_price) ==> forall|k: int|
                        0 <= k < outs@.len() ==> (#[trigger] outs@[k]).total_winnings == 0)
                }),
                Err(PredictionError::RoundNotFound) => final(self).rounds@ == old(self).rounds@
                    && !(1 <= round_id <= old(self).rounds@.len()),
                Err(PredictionError::RoundNotClosed) => final(self).rounds@ == old(self).rounds@
                    && 1 <= round_id <= old(self).rounds@.len() && old(self).rounds@[round_id
                    - 1].round.status != RoundStatus::Closed,
                Err(_) => false,
            },
    {
        let n = self.rounds.len();
        if round_id < 1 || round_id > n as u64 {
            return Err(PredictionError::RoundNotFound);
        }
        let idx = (round_id - 1) as usize;
        let ghost i = idx as int;
        if !matches!(self.rounds[idx].round.status, RoundStatus::Closed) {
            return Err(PredictionError::RoundNotClosed);
        }
        let ghost r0 = self.rounds@;
        let mut rd = self.rounds.remove(idx);
        let ghost rd0 = rd;
        let closing = match rd.round.closing_price {
            Some(c) => c,
            None => {
                proof {
                    assert(false);
                }
                0
            },
        };
        let result = if resolution_price > closing {
            Some(Prediction::Up)
        } else if resolution_price < closing {
            Some(Prediction::Down)
        } else {
            None
        };
        rd.round.result = result;
        rd.round.status = RoundStatus::Resolved;
        rd.round.resolved_at = Some(timestamp);
        rd.round.resolution_price = Some(resolution_price);

        let total_prize_pool = rd.round.prize_pool;
        let winner_pool = match result {
            Some(Prediction::Up) => rd.round.up_bets_pool,
            Some(Prediction::Down) => rd.round.down_bets_pool,
            None => 0,
        };

        // one outcome per participant, in ledger order
        let m = rd.bets.len();
        let mut outs: Vec<BetOutcome> = Vec::new();
        let mut k: usize = 0;
        while k < m
            invariant
                m == rd.bets@.len(),
                k <= m,
                outs@.len() == k,
                winner_pool as int == spec_winner_pool(rd.round),
                rd.round.result == result,
                total_prize_pool == rd.round.prize_pool,
                forall|q: int|
                    0 <= q < k ==> (#[trigger] outs@[q]) == spec_bet_outcome(
                        rd.bets@[q],
                        result,
                        winner_pool as int,
                        total_prize_pool as int,
                    ),
            decreases m - k,
        {
            let bet = rd.bets[k];
            let winnings = match result {
                Some(Prediction::Up) => {
                    if bet.amount_up > 0 {
                        calculate_winnings_proportional(bet.amount_up, winner_pool, total_prize_pool)
                    } else {
                        0
                    }
                },
                Some(Prediction::Down) => {
                    if bet.amount_down > 0 {
                        calculate_winnings_proportional(
                            bet.amount_down,
                            winner_pool,
                            total_prize_pool,
                        )
                    } else {
                        0
                    }
                },
                None => 0,
            };
            let total_wagered = sat_add_u128(bet.amount_up, bet.amount_down);
            let is_win = winnings > total_wagered;
            outs.push(
                BetOutcome {
                    owner: bet.owner,
                    total_wagered,
                    total_winnings: winnings,
                    is_win,
                    source_chain_id: bet.source_chain_id,
                },
            );
            k = k + 1;
        }

        self.rounds.insert(idx, rd);
        proof {
            let r1 = self.rounds@;
            assert(r1 =~= r0.update(i, r1[i]));
            assert(prd_ok(r1[i]));
            assert forall|a: int| 0 <= a < r1.len() implies prd_ok(#[trigger] r1[a])
                && (#[trigger] r1[a].round.id) == a + 1 by {
                if a != i {
                    assert(r1[a] == r0[a]);
                }
            }
            assert forall|a: int|
                0 <= a < r1.len() && (#[trigger] r1[a].round.status)
                    == RoundStatus::Active implies self.active_round == Some((a + 1) as u64) by {
                if a != i {
                    assert(r1[a] == r0[a]);
                }
            }
            assert(wf(*self));
            assert forall|a: int, b: int| 0 <= a < b < outs@.len() implies outs@[a].owner
                != outs@[b].owner by {
                assert(outs@[a].owner == rd0.bets@[a].owner);
                assert(outs@[b].owner == rd0.bets@[b].owner);
            }
        }
        Ok(outs)
    }

    /// Claim the winning-side stake of a resolved round back to the
    /// owner, marking their record settled. (The stake itself, not the
    /// proportional share: claiming is the legacy settlement path; the
    /// resolution pass computes the proportional rewards.)
    pub fn claim_winnings(&mut self, round_id: u64, owner: u64) -> (r: Result<
        u128,
        PredictionError,
    >)
        requires
            wf(*old(self)),
        ensures
            wf(*final(self)),
            final(self).round_counter == old(self).round_counter,
            final(self).active_round == old(self).active_round,
            match r {
                Ok(amount) => 1 <= round_id <= old(self).rounds@.len() && ({
                    let i = round_id - 1;
                    let rd0 = old(self).rounds@[i];
                    let rd1 = final(self).rounds@[i];
                    &&& rd0.round.status == RoundStatus::Resolved
                    &&& rd0.round.result is Some
                    &&& final(self).rounds@ == old(self).rounds@.update(i, rd1)
                    &&& rd1.round == rd0.round
                    &&& exists|j: int|
                        0 <= j < rd0.bets@.len() && (#[trigger] rd0.bets@[j].owner) == owner && ({
                            let bet = rd0.bets@[j];
                            &&& !bet.claimed
                            &&& amount == (if rd0.round.result == Some(Prediction::Up) {
                                bet.amount_up
                            } else {
                                bet.amount_down
                            })
                            &&& amount > 0
                            &&& rd1.bets@ == rd0.bets@.update(
                                j,
                                PredictionBet { claimed: true, ..bet },
                            )
                        })
                }),
                Err(PredictionError::RoundNotFound) => final(self).rounds@ == old(self).rounds@
                    && !(1 <= round_id <= old(self).rounds@.len()),
                Err(PredictionError::RoundNotResolved) => final(self).rounds@ == old(self).rounds@
                    && 1 <= round_id <= old(self).rounds@.len() && old(self).rounds@[round_id
                    - 1].round.status != RoundStatus::Resolved,
                Err(PredictionError::EqualPrices) => final(self).rounds@ == old(self).rounds@ && 1
                    <= round_id <= old(self).rounds@.len() && old(self).rounds@[round_id
                    - 1].round.status == RoundStatus::Resolved && old(self).rounds@[round_id
                    - 1].round.result is None,
                Err(PredictionError::NoBetsFound) => final(self).rounds@ == old(self).rounds@ && 1
                    <= round_id <= old(self).rounds@.len() && (forall|j: int|
                    0 <= j < old(self).rounds@[round_id - 1].bets@.len() ==> (#[trigger] old(self).rounds@[round_id - 1].bets@[j].owner) != owner),
                Err(PredictionError::AlreadyClaimed) => final(self).rounds@ == old(self).rounds@
                    && 1 <= round_id <= old(self).rounds@.len() && (exists|j: int|
                    0 <= j < old(self).rounds@[round_id - 1].bets@.len() && (#[trigger] old(self).rounds@[round_id - 1].bets@[j].owner) == owner && old(self).rounds@[round_id
                        - 1].bets@[j].claimed),
                Err(PredictionError::NoWinningBets) => final(self).rounds@ == old(self).rounds@
                    && 1 <= round_id <= old(self).rounds@.len() && ({
                    let rd0 = old(self).rounds@[round_id - 1];
                    exists|j: int|
                        0 <= j < rd0.bets@.len() && (#[trigger] rd0.bets@[j].owner) == owner
                            && !rd0.bets@[j].claimed && (if rd0.round.result == Some(
                            Prediction::Up,
                        ) {
                            rd0.bets@[j].amount_up
                        } else {
                            rd0.bets@[j].amount_down
                        }) == 0
                }),
                Err(_) => false,
            },
    {
        let n = self.rounds.len();
        if round_id < 1 || round_id > n as u64 {
            return Err(PredictionError::RoundNotFound);
        }
        let idx = (round_id - 1) as usize;
        let ghost i = idx as int;
        if !matches!(self.rounds[idx].round.status, RoundStatus::Resolved) {
            return Err(PredictionError::RoundNotResolved);
        }
        let winning_side = match self.rounds[idx].round.result {
            None => {
                return Err(PredictionError::EqualPrices);
            },
            Some(p) => p,
        };
        let ghost r0 = self.rounds@;
        let mut rd = self.rounds.remove(idx);
        let ghost rd0 = rd;
        let j = match find_bet_index(&rd.bets, owner) {
            None => {
                self.rounds.insert(idx, rd);
                proof {
                    assert(self.rounds@ =~= r0);
                }
                return Err(PredictionError::NoBetsFound);
            },
            Some(j) => j,
        };
        let bet = rd.bets[j];
        if bet.claimed {
            self.rounds.insert(idx, rd);
            proof {
                assert(self.rounds@ =~= r0);
            }
            return Err(PredictionError::AlreadyClaimed);
        }
        let amount = match winning_side {
            Prediction::Up => bet.amount_up,
            Prediction::Down => bet.amount_down,
        };
        if amount == 0 {
            self.rounds.insert(idx, rd);
            proof {
                assert(self.rounds@ =~= r0);
            }
            return Err(PredictionError::NoWinningBets);
        }
        let newb = PredictionBet { claimed: true, ..bet };
        rd.bets[j] = newb;
        proof {
            lemma_aggregates_update(rd0.bets@, j as int, newb);
        }
        self.rounds.insert(idx, rd);
        proof {
            let r1 = self.rounds@;
            assert(r1 =~= r0.update(i, r1[i]));
            let b0 = rd0.bets@;
            let b1 = r1[i].bets@;
            assert forall|a: int, b: int| 0 <= a < b < b1.len() implies b1[a].owner
                != b1[b].owner by {
                assert(a != j as int ==> b1[a] == b0[a]);
                assert(b != j as int ==> b1[b] == b0[b]);
                assert(b1[j as int].owner == b0[j as int].owner);
            }
            assert(prd_ok(r1[i]));
            assert forall|a: int| 0 <= a < r1.len() implies prd_ok(#[trigger] r1[a])
                && (#[trigger] r1[a].round.id) == a + 1 by {
                if a != i {
                    assert(r1[a] == r0[a]);
                }
            }
            assert forall|a: int|
                0 <= a < r1.len() && (#[trigger] r1[a].round.status)
                    == RoundStatus::Active implies self.active_round == Some((a + 1) as u64) by {
                if a != i {
                    assert(r1[a] == r0[a]);
                }
            }
            assert(wf(*self));
        }
        Ok(amount)
    }

    /// Place a bet after checking the bettor's balance, as reported by
    /// the asset ledger, covers the amount.
    pub fn place_bet_with_balance(
        &mut self,
        owner: u64,
        amount: u128,
        prediction: Prediction,
        current_balance: u128,
        source_chain_id: Option<u64>,
    ) -> (r: Result<(), PredictionError>)
        requires
            wf(*old(self)),
        ensures
            wf(*final(self)),
            final(self).round_counter == old(self).round_counter,
            final(self).active_round == old(self).active_round,
            current_balance < amount ==> r == Err::<(), PredictionError>(
                PredictionError::InsufficientBalance,
            ) && final(self).rounds@ == old(self).rounds@,
            current_balance >= amount ==> match r {
                Ok(_) => spec_place_applied(
                    *old(self),
                    *final(self),
                    owner,
                    amount,
                    prediction,
                    source_chain_id,
                ),
                Err(PredictionError::NoActiveRound) => final(self).rounds@ == old(self).rounds@
                    && old(self).active_round is None,
                Err(_) => false,
            },
    {
        if current_balance < amount {
            return Err(PredictionError::InsufficientBalance);
        }
        self.place_bet(owner, amount, prediction, source_chain_id)
    }

    /// Id of the round currently accepting bets, if any.
    pub fn get_active_round(&self) -> (r: Option<u64>)
        ensures
            r == self.active_round,
    {
        self.active_round
    }

    /// Get a prediction round by id.
    pub fn get_round(&self, round_id: u64) -> (r: Option<PredictionRound>)
        ensures
            r == if 1 <= round_id <= self.rounds@.len() {
                Some(self.rounds@[round_id - 1].round)
            } else {
                Option::<PredictionRound>::None
            },
    {
        let n = self.rounds.len();
        if round_id >= 1 && round_id <= n as u64 {
            Some(self.rounds[(round_id - 1) as usize].round)
        } else {
            None
        }
    }

    /// Get all rounds, in creation order.
    pub fn get_all_rounds(&self) -> (r: Vec<PredictionRound>)
        ensures
            r@.len() == self.rounds@.len(),
            forall|i: int| 0 <= i < r@.len() ==> r@[i] == self.rounds@[i].round,
    {
        let n = self.rounds.len();
        let mut out: Vec<PredictionRound> = Vec::new();
        let mut k: usize = 0;
        while k < n
            invariant
                n == self.rounds@.len(),
                k <= n,
                out@.len() == k,
                forall|i: int| 0 <= i < k ==> out@[i] == self.rounds@[i].round,
            decreases n - k,
        {
            out.push(self.rounds[k].round);
            k = k + 1;
        }
        out
    }

    /// All bets of the active round, in placement order.
    pub fn get_active_bets(&self) -> (r: Vec<PredictionBet>)
        requires
            wf(*self),
        ensures
            match self.active_round {
                Some(id) => r@ == self.rounds@[id - 1].bets@,
                None => r@.len() == 0,
            },
    {
        let round_id = match self.active_round {
            None => {
                return Vec::new();
            },
            Some(id) => id,
        };
        let n = self.rounds.len();
        let idx = (round_id - 1) as usize;
        let m = self.rounds[idx].bets.len();
        let mut out: Vec<PredictionBet> = Vec::new();
        let mut k: usize = 0;
        while k < m
            invariant
                idx < self.rounds@.len(),
                m == self.rounds@[idx as int].bets@.len(),
                k <= m,
                out@.len() == k,
                forall|j: int| 0 <= j < k ==> out@[j] == self.rounds@[idx as int].bets@[j],
            decreases m - k,
        {
            out.push(self.rounds[idx].bets[k]);
            k = k + 1;
        }
        proof {
            assert(out@ =~= self.rounds@[idx as int].bets@);
        }
        out
    }

    /// The winners of a resolved round still owed settlement. An
    /// equal-price round resolved with no outcome has no winners.
    pub fn get_round_winners(&self, round_id: u64) -> (r: Result<Vec<RoundWinner>, PredictionError>)
        requires
            wf(*self),
        ensures
            match r {
                Ok(ws) => 1 <= round_id <= self.rounds@.len() && ({
                    let rd = self.rounds@[round_id - 1];
                    &&& rd.round.status == RoundStatus::Resolved
                    &&& ws@ == spec_round_winners(
                        rd.bets@,
                        rd.round.result,
                        spec_winner_pool(rd.round),
                        rd.round.prize_pool as int,
                    )
                }),
                Err(PredictionError::RoundNotFound) => !(1 <= round_id <= self.rounds@.len()),
                Err(PredictionError::RoundNotResolved) => 1 <= round_id <= self.rounds@.len()
                    && self.rounds@[round_id - 1].round.status != RoundStatus::Resolved,
                Err(_) => false,
            },
    {
        let n = self.rounds.len();
        if round_id < 1 || round_id > n as u64 {
            return Err(PredictionError::RoundNotFound);
        }
        let idx = (round_id - 1) as usize;
        let ghost i = idx as int;
        if !matches!(self.rounds[idx].round.status, RoundStatus::Resolved) {
            return Err(PredictionError::RoundNotResolved);
        }
        let round = self.rounds[idx].round;
        let total_prize_pool = round.prize_pool;
        let winner_pool = match round.result {
            Some(Prediction::Up) => round.up_bets_pool,
            Some(Prediction::Down) => round.down_bets_pool,
            None => 0,
        };
        let ghost bs = self.rounds@[i].bets@;
        let m = self.rounds[idx].bets.len();
        let mut out: Vec<RoundWinner> = Vec::new();
        let mut k: usize = 0;
        proof {
            assert(bs.take(0) =~= Seq::<PredictionBet>::empty());
        }
        while k < m
            invariant
                idx as int == i,
                i < self.rounds@.len(),
                bs == self.rounds@[i].bets@,
                m == bs.len(),
                k <= m,
                round == self.rounds@[i].round,
                total_prize_pool == round.prize_pool,
                winner_pool as int == spec_winner_pool(round),
                out@ == spec_round_winners(
                    bs.take(k as int),
                    round.result,
                    winner_pool as int,
                    total_prize_pool as int,
                ),
            decreases m - k,
        {
            let bet = self.rounds[idx].bets[k];
            let amt = match round.result {
                Some(Prediction::Up) => bet.amount_up,
                Some(Prediction::Down) => bet.amount_down,
                None => 0,
            };
            if !bet.claimed && amt > 0 {
                let winnings = calculate_winnings_proportional(amt, winner_pool, total_prize_pool);
                if winnings > 0 {
                    out.push(
                        RoundWinner {
                            owner: bet.owner,
                            bet_amount: amt,
                            winnings,
                            source_chain_id: bet.source_chain_id,
                        },
                    );
                }
            }
            proof {
                assert(bs.take(k + 1).drop_last() =~= bs.take(k as int));
                assert(bs.take(k + 1).last() == bs[k as int]);
            }
            k = k + 1;
        }
        proof {
            assert(bs.take(m as int) =~= bs);
        }
        Ok(out)
    }
}

} // verus!
