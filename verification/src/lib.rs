//! Request ledger of a lending protocol.
//!
//! The ledger accepts collateral deposits (native coins or token-contract
//! amounts) paired with a borrowing period, assigns each deposit a durable
//! identifier, and makes the resulting records queryable by identifier or by
//! depositor. Every state transition and query is specified and verified:
//! identifiers are allocated monotonically starting at 1, the owner index and
//! the id index are kept consistent, and failed creations leave the store
//! untouched.

pub mod asset;
pub mod commands;
pub mod error;
pub mod laws;
pub mod msgs;
pub mod queries;
pub mod state;
pub mod utils;
