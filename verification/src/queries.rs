//! Read-only projections over the store: the counters, a single request by
//! id, and all requests of one borrower.

use vstd::prelude::*;

use crate::error::ContractError;
use crate::msgs::{resps_view, BorrowRequestResponse, StateResponse};
use crate::state::{
    addr_for, find_request, lemma_find_request_absent, lemma_find_request_at,
    load_borrow_request, load_borrow_request_id_to_addr, load_state, requests_for, reqs_view,
    BorrowRequestV, Storage, StorageV,
};

verus! {

/// The record that an id resolves to: the id index names the borrower, and
/// the borrower's sequence is scanned for the first record with that id.
/// `None` when the id is unindexed or the scan finds no match.
pub open spec fn lookup_request(s: StorageV, id: u64) -> Option<BorrowRequestV> {
    match addr_for(s.id_to_addr, id) {
        None => None,
        Some(borrower) => find_request(requests_for(s.borrow_requests, borrower), id),
    }
}

/// Projects the global counters record. The store must have been
/// bootstrapped.
pub fn query_state(storage: &Storage) -> (r: StateResponse)
    requires
        storage@.state is Some,
    ensures
        ({
            let st = storage@.state.unwrap();
            r == (StateResponse {
                request_count: st.request_count,
                response_count: st.response_count,
            })
        }),
{
    let state = load_state(storage);
    StateResponse { request_count: state.request_count, response_count: state.response_count }
}

/// Resolves a request by its id; `NotFound` when the id is unknown (either
/// unindexed, or indexed to a borrower whose sequence holds no such record).
pub fn query_borrow_request_by_id(storage: &Storage, id: u64) -> (r: Result<
    BorrowRequestResponse,
    ContractError,
>)
    ensures
        match r {
            Ok(resp) => lookup_request(storage@, id) == Some(resp@),
            Err(e) => lookup_request(storage@, id) is None && e == (ContractError::NotFound {}),
        },
{
    let borrower = match load_borrow_request_id_to_addr(storage, id) {
        Ok(b) => b,
        Err(e) => {
            return Err(e);
        },
    };
    let borrow_requests = load_borrow_request(storage, &borrower);
    let mut i: usize = 0;
    while i < borrow_requests.len()
        invariant
            i <= borrow_requests.len(),
            forall|m: int| 0 <= m < i ==> reqs_view(borrow_requests@)[m].id != id,
            reqs_view(borrow_requests@) == requests_for(storage@.borrow_requests, borrower@),
            addr_for(storage@.id_to_addr, id) == Some(borrower@),
        decreases borrow_requests.len() - i,
    {
        if borrow_requests[i].id == id {
            proof {
                lemma_find_request_at(reqs_view(borrow_requests@), id, i as int);
            }
            let found = &borrow_requests[i];
            return Ok(
                BorrowRequestResponse {
                    id: found.id,
                    collateral: found.collateral.duplicate(),
                    period: found.period,
                    borrowed_from: found.borrowed_from,
                    borrowed_at: found.borrowed_at,
                },
            );
        }
        i = i + 1;
    }
    proof {
        lemma_find_request_absent(reqs_view(borrow_requests@), id);
    }
    Err(ContractError::NotFound {})
}

/// Projects all requests of one borrower, in creation order; empty when the
/// borrower has none.
pub fn query_borrow_requests_by_addr(storage: &Storage, borrower: &String) -> (r: Vec<
    BorrowRequestResponse,
>)
    ensures
        resps_view(r@) == requests_for(storage@.borrow_requests, borrower@),
{
    let borrow_requests = load_borrow_request(storage, borrower);
    let mut out: Vec<BorrowRequestResponse> = Vec::new();
    let mut i: usize = 0;
    while i < borrow_requests.len()
        invariant
            i <= borrow_requests.len(),
            out@.len() == i,
            forall|m: int| 0 <= m < i ==> out@[m]@ == borrow_requests@[m]@,
            reqs_view(borrow_requests@) == requests_for(storage@.borrow_requests, borrower@),
        decreases borrow_requests.len() - i,
    {
        let record = &borrow_requests[i];
        out.push(
            BorrowRequestResponse {
                id: record.id,
                collateral: record.collateral.duplicate(),
                period: record.period,
                borrowed_from: record.borrowed_from,
                borrowed_at: record.borrowed_at,
            },
        );
        i = i + 1;
    }
    proof {
        assert(resps_view(out@) =~= reqs_view(borrow_requests@));
    }
    out
}

} // verus!
