//! The message and response types of the contract's public surface.

use vstd::prelude::*;

use crate::asset::Asset;
use crate::state::BorrowRequestV;

verus! {

/// The (empty) instantiation message.
#[derive(Debug, Clone, PartialEq, Eq, Structural)]
pub struct InstantiateMsg {}

/// The hook message carried, encoded, inside a token-contract notification.
#[derive(Debug, Clone, Copy, PartialEq, Eq, Structural)]
pub enum Cw20HookMsg {
    /// Make a borrow request backed by the notified token amount.
    MakeBorrowRequest { period: u64 },
}

/// The read-only queries of the ledger.
#[derive(Debug, Clone, PartialEq, Eq)]
pub enum QueryMsg {
    /// The global counters record.
    State {},
    /// A single request, resolved by its id.
    BorrowRequestById { id: u64 },
    /// All requests of one borrower, in creation order.
    BorrowRequestByAddr { borrower: String },
}

/// The (empty) migration message.
#[derive(Debug, Clone, PartialEq, Eq, Structural)]
pub struct MigrateMsg {}

/// Response to the counters query.
#[derive(Debug, Clone, Copy, PartialEq, Eq, Structural)]
pub struct StateResponse {
    /// How many requests have ever been created.
    pub request_count: u64,
    /// How many responses have ever been made.
    pub response_count: u64,
}

/// Response carrying one borrow request.
#[derive(Debug, Clone, PartialEq, Eq)]
pub struct BorrowRequestResponse {
    /// The request's unique id.
    pub id: u64,
    /// The deposited collateral.
    pub collateral: Asset,
    /// The requested borrowing period, in block-height units.
    pub period: u64,
    /// Id of the matched response; 0 while unmatched.
    pub borrowed_from: u64,
    /// Block height of the match; 0 while unmatched.
    pub borrowed_at: u64,
}

impl View for BorrowRequestResponse {
    type V = BorrowRequestV;

    open spec fn view(&self) -> BorrowRequestV {
        BorrowRequestV {
            id: self.id,
            collateral: self.collateral@,
            period: self.period,
            borrowed_from: self.borrowed_from,
            borrowed_at: self.borrowed_at,
        }
    }
}

/// The sequence of views of a sequence of responses.
pub open spec fn resps_view(s: Seq<BorrowRequestResponse>) -> Seq<BorrowRequestV> {
    s.map_values(|r: BorrowRequestResponse| r@)
}

} // verus!
