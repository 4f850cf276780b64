//! Chain-agnostic decoding of decentralized-exchange swaps.
//!
//! Raw per-block data from account-model chains (balance snapshots) and
//! log-model chains (event logs) is decoded into one canonical `TradeEvent`
//! schema. Decoding degrades safely: a candidate that does not match a known
//! protocol yields no event, and an unparseable balance contributes zero.

pub mod abi;
pub mod codec;
pub mod dispatch;
pub mod laws;
pub mod numeric;
pub mod raydium;
pub mod schema;
pub mod text;
pub mod uniswap_v3;
