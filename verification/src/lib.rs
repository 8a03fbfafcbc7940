//! Core of a constant-product market maker: integer arithmetic, pool state,
//! pure accounting of deposits, withdrawals and swaps, and the engine that
//! commits the computed deltas to a pool.

pub mod accounting;
pub mod engine;
pub mod entry;
pub mod error;
pub mod guarantees;
pub mod key;
pub mod math;
pub mod soundness;
pub mod state;
