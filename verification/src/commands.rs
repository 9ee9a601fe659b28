//! The request lifecycle: validating a creation, allocating the next id, and
//! updating both indices atomically.

use vstd::prelude::*;

use crate::asset::{Asset, AssetV};
use crate::error::ContractError;
use crate::state::{
    load_borrow_request, load_state, requests_for, store_borrow_request,
    store_borrow_request_id_to_addr, store_state, upsert_id, upsert_requests, BorrowRequest,
    BorrowRequestV, State, Storage, StorageV,
};

verus! {

/// The full effect of one creation attempt on the store's view: the store
/// after the attempt, and the outcome handed to the caller.
///
/// Preconditions are checked in order, first failure wins: a zero collateral
/// amount, then a zero period, then counter exhaustion. On any failure the
/// store is unchanged. On success the request counter is advanced by one, the
/// new record (carrying the post-increment counter as its id, and zero
/// `borrowed_from` / `borrowed_at`) is appended to the borrower's sequence,
/// and the id index maps the new id to the borrower.
///
/// The store must have been bootstrapped; an absent counters record reports
/// `NotFound` and changes nothing.
pub open spec fn spec_make_borrow_request(
    s: StorageV,
    borrower: Seq<char>,
    collateral: AssetV,
    period: u64,
) -> (StorageV, Result<BorrowRequestV, ContractError>) {
    if collateral.amount == 0 {
        (s, Err(ContractError::InvalidAmount {}))
    } else if period == 0 {
        (s, Err(ContractError::InvalidPeriod {}))
    } else {
        match s.state {
            None => (s, Err(ContractError::NotFound {})),
            Some(st) => {
                if st.request_count == u64::MAX {
                    (s, Err(ContractError::Overflow {}))
                } else {
                    let id = (st.request_count + 1) as u64;
                    let br = BorrowRequestV {
                        id,
                        collateral,
                        period,
                        borrowed_from: 0u64,
                        borrowed_at: 0u64,
                    };
                    let s2 = StorageV {
                        state: Some(
                            State { request_count: id, response_count: st.response_count },
                        ),
                        borrow_requests: upsert_requests(
                            s.borrow_requests,
                            borrower,
                            requests_for(s.borrow_requests, borrower).push(br),
                        ),
                        id_to_addr: upsert_id(s.id_to_addr, id, borrower),
                    };
                    (s2, Ok(br))
                }
            },
        }
    }
}

/// Validates a creation attempt and computes the advanced counters record
/// together with the new request record, without touching any store.
pub fn plan_borrow_request(state: &State, collateral: Asset, period: u64) -> (r: Result<
    (State, BorrowRequest),
    ContractError,
>)
    ensures
        match r {
            Ok(p) => {
                &&& collateral@.amount != 0
                &&& period != 0
                &&& state.request_count < u64::MAX
                &&& p.0 == (State {
                    request_count: (state.request_count + 1) as u64,
                    response_count: state.response_count,
                })
                &&& p.1@ == (BorrowRequestV {
                    id: (state.request_count + 1) as u64,
                    collateral: collateral@,
                    period,
                    borrowed_from: 0u64,
                    borrowed_at: 0u64,
                })
            },
            Err(e) => {
                ||| (collateral@.amount == 0 && e == (ContractError::InvalidAmount {}))
                ||| (collateral@.amount != 0 && period == 0 && e == (
                    ContractError::InvalidPeriod {}
                ))
                ||| (collateral@.amount != 0 && period != 0 && state.request_count == u64::MAX
                    && e == (ContractError::Overflow {}))
            },
        },
{
    if collateral.amount == 0 {
        return Err(ContractError::InvalidAmount {});
    }
    if period == 0 {
        return Err(ContractError::InvalidPeriod {});
    }
    match state.request_count.checked_add(1) {
        None => Err(ContractError::Overflow {}),
        Some(next_count) => {
            let new_state = State {
                request_count: next_count,
                response_count: state.response_count,
            };
            let request = BorrowRequest {
                id: next_count,
                collateral,
                period,
                borrowed_from: 0u64,
                borrowed_at: 0u64,
            };
            Ok((new_state, request))
        },
    }
}

/// Creates a borrow request: validates the collateral amount and the period,
/// advances the request counter with overflow-checked arithmetic, appends the
/// new record to the borrower's sequence, and indexes the new id. Either all
/// writes land, or — on a validation failure — none.
///
/// Success returns the constructed record, whose id is the post-increment
/// request counter.
pub fn make_borrow_request(
    storage: &mut Storage,
    borrower: &String,
    collateral: Asset,
    period: u64,
) -> (r: Result<BorrowRequest, ContractError>)
    requires
        old(storage)@.state is Some,
    ensures
        final(storage)@ == spec_make_borrow_request(
            old(storage)@,
            borrower@,
            collateral@,
            period,
        ).0,
        match (r, spec_make_borrow_request(old(storage)@, borrower@, collateral@, period).1) {
            (Ok(br), Ok(brv)) => br@ == brv,
            (Err(e), Err(ev)) => e == ev,
            _ => false,
        },
{
    let ghost s0 = storage@;
    let state = load_state(storage);
    let planned = match plan_borrow_request(&state, collateral, period) {
        Ok(p) => p,
        Err(e) => {
            return Err(e);
        },
    };
    let (new_state, request) = planned;
    store_state(storage, &new_state);
    let mut borrow_request = load_borrow_request(storage, borrower);
    borrow_request.push(request.duplicate());
    store_borrow_request(storage, borrower, &borrow_request);
    store_borrow_request_id_to_addr(storage, request.id, borrower);
    proof {
        let (s2, res) = spec_make_borrow_request(s0, borrower@, collateral@, period);
        assert(crate::state::reqs_view(borrow_request@) =~= requests_for(
            s0.borrow_requests,
            borrower@,
        ).push(request@));
        assert(storage@ =~= s2);
    }
    Ok(request)
}

} // verus!
