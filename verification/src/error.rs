//! Error taxonomy of the ledger.

use vstd::prelude::*;

verus! {

/// Every way an operation of this contract can fail.
///
/// `InvalidCw20HookMsg` and `InvalidFunds` are produced by the dispatch layer
/// around the ledger (a malformed token notification, or a native call with
/// anything other than exactly one fund entry); the remaining variants are
/// produced by the ledger itself.
#[derive(Debug, Clone, Copy, PartialEq, Eq, Structural)]
pub enum ContractError {
    /// The inner message of a token-contract notification did not decode.
    InvalidCw20HookMsg {},
    /// A native-collateral call carried zero or several fund entries.
    InvalidFunds {},
    /// The collateral amount was zero.
    InvalidAmount {},
    /// The requested borrowing period was zero.
    InvalidPeriod {},
    /// The request counter would exceed its representable range.
    Overflow {},
    /// A lookup for an unknown request id.
    NotFound {},
}

} // verus!
