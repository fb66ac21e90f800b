//! The leaderboard sink: per-player win/loss tallies, fed by the
//! settlement relay after each resolved round.

use vstd::prelude::*;
use crate::arith::{sat_add_u128, spec_sat_add};

verus! {

/// One player's accumulated record.
#[derive(Clone, Copy, Debug, PartialEq, Eq)]
pub struct PlayerStats {
    pub owner: u64,
    /// Chain the player last played from.
    pub chain_id: u64,
    pub wins: u64,
    pub losses: u64,
    pub total_won: u128,
    pub total_lost: u128,
}

/// The leaderboard state: one record per player.
pub struct LeaderboardState {
    pub players: Vec<PlayerStats>,
}

/// At most one record per player.
pub open spec fn lb_wf(s: LeaderboardState) -> bool {
    forall|i: int, j: int|
        0 <= i < j < s.players@.len() ==> s.players@[i].owner != s.players@[j].owner
}

/// A counter bumped by one, saturating at the largest representable value.
pub open spec fn spec_sat_inc(x: int) -> int {
    if x < u64::MAX {
        x + 1
    } else {
        u64::MAX as int
    }
}

/// How one score update transforms a player's record.
pub open spec fn spec_scored(p0: PlayerStats, chain_id: u64, is_win: bool, amount: u128) -> PlayerStats {
    PlayerStats {
        chain_id,
        wins: if is_win {
            spec_sat_inc(p0.wins as int) as u64
        } else {
            p0.wins
        },
        losses: if is_win {
            p0.losses
        } else {
            spec_sat_inc(p0.losses as int) as u64
        },
        total_won: if is_win {
            spec_sat_add(p0.total_won as int, amount as int) as u128
        } else {
            p0.total_won
        },
        total_lost: if is_win {
            p0.total_lost
        } else {
            spec_sat_add(p0.total_lost as int, amount as int) as u128
        },
        ..p0
    }
}

/// The record a first-time player starts from.
pub open spec fn spec_fresh_stats(owner: u64, chain_id: u64) -> PlayerStats {
    PlayerStats { owner, chain_id, wins: 0, losses: 0, total_won: 0, total_lost: 0 }
}

impl LeaderboardState {
    /// An empty leaderboard.
    pub fn new() -> (s: LeaderboardState)
        ensures
            lb_wf(s),
            s.players@.len() == 0,
    {
        LeaderboardState { players: Vec::new() }
    }

    /// Record one win/loss delta for a player, creating their record on
    /// first contact and refreshing the chain they last played from.
    pub fn update_score(&mut self, owner: u64, chain_id: u64, is_win: bool, amount: u128)
        requires
            lb_wf(*old(self)),
        ensures
            lb_wf(*final(self)),
            ({
                let p0 = old(self).players@;
                let p1 = final(self).players@;
                if (exists|j: int| 0 <= j < p0.len() && (#[trigger] p0[j].owner) == owner) {
                    let j = choose|j: int| 0 <= j < p0.len() && (#[trigger] p0[j].owner) == owner;
                    p1 == p0.update(j, spec_scored(p0[j], chain_id, is_win, amount))
                } else {
                    p1 == p0.push(
                        spec_scored(spec_fresh_stats(owner, chain_id), chain_id, is_win, amount),
                    )
                }
            }),
    {
        let ghost p0 = self.players@;
        let n = self.players.len();
        let mut k: usize = 0;
        while k < n
            invariant
                n == self.players@.len(),
                k <= n,
                self.players@ == p0,
                p0 == old(self).players@,
                forall|i: int, j: int| 0 <= i < j < p0.len() ==> p0[i].owner != p0[j].owner,
                forall|j: int| 0 <= j < k ==> (#[trigger] p0[j].owner) != owner,
            decreases n - k,
        {
            if self.players[k].owner == owner {
                let stats = self.players[k];
                let scored = Self::score(stats, chain_id, is_win, amount);
                self.players[k] = scored;
                proof {
                    let w = choose|j: int| 0 <= j < p0.len() && (#[trigger] p0[j].owner) == owner;
                    assert(w == k as int);
                    let p1 = self.players@;
                    assert forall|a: int, b: int| 0 <= a < b < p1.len() implies p1[a].owner
                        != p1[b].owner by {
                        assert(a != k as int ==> p1[a] == p0[a]);
                        assert(b != k as int ==> p1[b] == p0[b]);
                        assert(p1[k as int].owner == p0[k as int].owner);
                    }
                }
                return ;
            }
            k = k + 1;
        }
        let fresh = PlayerStats { owner, chain_id, wins: 0, losses: 0, total_won: 0, total_lost: 0 };
        let scored = Self::score(fresh, chain_id, is_win, amount);
        self.players.push(scored);
        proof {
            let p1 = self.players@;
            assert forall|a: int, b: int| 0 <= a < b < p1.len() implies p1[a].owner
                != p1[b].owner by {
                assert(a != p1.len() - 1 ==> p1[a] == p0[a]);
                assert(b != p1.len() - 1 ==> p1[b] == p0[b]);
            }
        }
    }

    /// Apply one delta to a record.
    fn score(p: PlayerStats, chain_id: u64, is_win: bool, amount: u128) -> (r: PlayerStats)
        ensures
            r == spec_scored(p, chain_id, is_win, amount),
    {
        let mut stats = p;
        stats.chain_id = chain_id;
        if is_win {
            stats.wins = if stats.wins < u64::MAX {
                stats.wins + 1
            } else {
                u64::MAX
            };
            stats.total_won = sat_add_u128(stats.total_won, amount);
        } else {
            stats.losses = if stats.losses < u64::MAX {
                stats.losses + 1
            } else {
                u64::MAX
            };
            stats.total_lost = sat_add_u128(stats.total_lost, amount);
        }
        stats
    }

    /// One player's record, if any.
    pub fn get_player(&self, owner: u64) -> (r: Option<PlayerStats>)
        ensures
            match r {
                Some(p) => p.owner == owner && exists|j: int|
                    0 <= j < self.players@.len() && (#[trigger] self.players@[j]) == p,
                None => forall|j: int|
                    0 <= j < self.players@.len() ==> (#[trigger] self.players@[j].owner) != owner,
            },
    {
        let n = self.players.len();
        let mut k: usize = 0;
        while k < n
            invariant
                n == self.players@.len(),
                k <= n,
                forall|j: int| 0 <= j < k ==> (#[trigger] self.players@[j].owner) != owner,
            decreases n - k,
        {
            if self.players[k].owner == owner {
                return Some(self.players[k]);
            }
            k = k + 1;
        }
        None
    }
}

} // verus!
