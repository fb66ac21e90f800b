//! A verified round-settlement engine for on-chain wagering applications:
//! a tiered-pool ticket lottery and a binary up/down prediction market.
//!
//! The engine owns the round lifecycle state machine, the stake/ticket
//! ledger, winner selection, and integer-exact prize arithmetic. Value
//! movement, cross-chain messaging and query plumbing are left to the
//! surrounding runtime, which talks to this crate in plain values:
//! amounts are integer attos (`u128`), account owners and chains are
//! small integer identifiers handed out by the runtime.

pub mod abi;
pub mod arith;
pub mod leaderboard;
pub mod lottery;
pub mod prediction;
pub mod prize;
pub mod settle;
