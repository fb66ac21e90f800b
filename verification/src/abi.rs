//! Wire-level interface types: the shapes the applications exchange with
//! callers and with each other, and the conversions from the engine's
//! own bookkeeping types onto them.

pub mod lottery;
pub mod prediction;
