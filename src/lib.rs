//! Replay of historical candles through a volume-breakout trading rule, with a
//! verified position state machine and a causally linked ledger of operations.
pub mod engine;
pub mod logger;
pub mod models;
pub mod replay;
pub mod signal;
