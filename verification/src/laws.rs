//! The ledger's laws: the dual-index consistency invariant, and proofs of
//! the global properties of the request lifecycle — consecutive id
//! allocation, the counter counting exactly the successful creations, each
//! owner's sequence collecting exactly that owner's creations in order, and
//! every created id resolving to exactly the record that was submitted.
//!
//! The laws are stated over the store's mathematical view and the transition
//! function [`spec_make_borrow_request`]; the executable lifecycle operation
//! is proved equal to that transition, so every law carries over to runs of
//! the executable code.

use vstd::prelude::*;

use crate::asset::AssetV;
use crate::commands::spec_make_borrow_request;
use crate::error::ContractError;
use crate::queries::lookup_request;
use crate::state::{
    addr_for, find_request, lemma_addr_for_absent, lemma_addr_for_push,
    lemma_addr_for_some_index, lemma_find_request_absent, lemma_find_request_push,
    lemma_first_owner_index, lemma_requests_for_absent, lemma_requests_for_at,
    lemma_requests_for_push_other, lemma_requests_for_update_other,
    lemma_requests_for_upsert_other, lemma_requests_for_upsert_same, lemma_upsert_id_absent,
    lemma_upsert_requests_absent, lemma_upsert_requests_at, requests_for, upsert_id,
    upsert_requests, BorrowRequestV, IdOwnerV, OwnerRequestsV, State, StorageV,
};

verus! {

/// Soundness of one record of the owner index: its id was allocated (between
/// 1 and the request counter), it is unmatched with a positive collateral
/// amount and period, and the id index points back at its owner.
pub open spec fn record_ok(s: StorageV, record: BorrowRequestV, borrower: Seq<char>) -> bool {
    &&& 1 <= record.id <= s.state.unwrap().request_count
    &&& record.borrowed_from == 0
    &&& record.borrowed_at == 0
    &&& record.collateral.amount > 0
    &&& record.period > 0
    &&& addr_for(s.id_to_addr, record.id) == Some(borrower)
}

/// Soundness of one entry of the id index: its id was allocated, and the
/// owner it names holds a record with that id.
pub open spec fn id_entry_ok(s: StorageV, entry: IdOwnerV) -> bool {
    &&& 1 <= entry.id <= s.state.unwrap().request_count
    &&& find_request(requests_for(s.borrow_requests, entry.borrower), entry.id) is Some
}

/// Well-formedness of the whole store: the counters record exists, both
/// indices have unique keys, every record and every id-index entry is sound,
/// and each owner's ids grow strictly in creation order.
pub open spec fn wf(s: StorageV) -> bool {
    &&& s.state is Some
    &&& forall|i: int, j: int|
        #![trigger s.borrow_requests[i], s.borrow_requests[j]]
        0 <= i < j < s.borrow_requests.len()
            ==> s.borrow_requests[i].borrower != s.borrow_requests[j].borrower
    &&& forall|i: int, j: int|
        #![trigger s.id_to_addr[i], s.id_to_addr[j]]
        0 <= i < j < s.id_to_addr.len() ==> s.id_to_addr[i].id != s.id_to_addr[j].id
    &&& forall|i: int, k: int|
        #![trigger s.borrow_requests[i].requests[k]]
        0 <= i < s.borrow_requests.len() && 0 <= k < s.borrow_requests[i].requests.len()
            ==> record_ok(s, s.borrow_requests[i].requests[k], s.borrow_requests[i].borrower)
    &&& forall|i: int, k1: int, k2: int|
        #![trigger s.borrow_requests[i].requests[k1], s.borrow_requests[i].requests[k2]]
        0 <= i < s.borrow_requests.len() && 0 <= k1 < k2 < s.borrow_requests[i].requests.len()
            ==> s.borrow_requests[i].requests[k1].id < s.borrow_requests[i].requests[k2].id
    &&& forall|j: int|
        #![trigger s.id_to_addr[j]]
        0 <= j < s.id_to_addr.len() ==> id_entry_ok(s, s.id_to_addr[j])
}

/// The store right after bootstrap: both counters at zero, no entries.
pub open spec fn fresh_store() -> StorageV {
    StorageV {
        state: Some(State { request_count: 0u64, response_count: 0u64 }),
        borrow_requests: Seq::<OwnerRequestsV>::empty(),
        id_to_addr: Seq::<IdOwnerV>::empty(),
    }
}

/// A bootstrapped, empty store is well formed.
pub proof fn lemma_fresh_store_wf()
    ensures
        wf(fresh_store()),
{
}

/// One creation attempt preserves well-formedness, whether it succeeds or
/// fails.
pub proof fn lemma_make_borrow_request_preserves_wf(
    s: StorageV,
    borrower: Seq<char>,
    collateral: AssetV,
    period: u64,
)
    requires
        wf(s),
    ensures
        wf(spec_make_borrow_request(s, borrower, collateral, period).0),
{
    let st = s.state.unwrap();
    let count = st.request_count;
    if collateral.amount != 0 && period != 0 && count != u64::MAX {
        let s2 = spec_make_borrow_request(s, borrower, collateral, period).0;
        let id = (count + 1) as u64;
        let br = BorrowRequestV { id, collateral, period, borrowed_from: 0u64, borrowed_at: 0u64 };
        let entries = s.borrow_requests;
        let ids = s.id_to_addr;
        let old_list = requests_for(entries, borrower);
        let new_list = old_list.push(br);
        let new_entry = OwnerRequestsV { borrower, requests: new_list };
        let id_entry = IdOwnerV { id, borrower };
        assert(s2.state.unwrap().request_count == id);
        assert(s2.borrow_requests == upsert_requests(entries, borrower, new_list));
        assert(s2.id_to_addr == upsert_id(ids, id, borrower));

        // The new id exceeds every id in the old index, so the id index
        // grows by one appended entry.
        assert forall|m: int| 0 <= m < ids.len() implies ids[m].id != id by {
            assert(id_entry_ok(s, ids[m]));
        }
        lemma_upsert_id_absent(ids, id, borrower);
        assert(s2.id_to_addr =~= ids.push(id_entry));
        lemma_addr_for_absent(ids, id);

        // Unique ids in the new id index.
        assert forall|a: int, b: int|
            0 <= a < b < s2.id_to_addr.len() implies s2.id_to_addr[a].id
            != s2.id_to_addr[b].id by {
            if b < ids.len() {
                assert(s2.id_to_addr[a] == ids[a]);
                assert(s2.id_to_addr[b] == ids[b]);
            } else {
                assert(s2.id_to_addr[b] == id_entry);
                assert(s2.id_to_addr[a] == ids[a]);
                assert(ids[a].id != id);
            }
        }

        if exists|m: int| 0 <= m < entries.len() && entries[m].borrower == borrower {
            // The borrower already has an entry: its request sequence is
            // replaced by the same sequence with the new record appended.
            let i = lemma_first_owner_index(entries, borrower);
            lemma_requests_for_at(entries, borrower, i);
            assert(old_list == entries[i].requests);
            lemma_upsert_requests_at(entries, borrower, new_list, i);
            assert(s2.borrow_requests =~= entries.update(i, new_entry));
            assert(s2.borrow_requests.len() == entries.len());
            assert forall|m: int|
                0 <= m < entries.len() implies s2.borrow_requests[m].borrower
                == entries[m].borrower by {
                if m == i {
                    assert(s2.borrow_requests[m] == new_entry);
                } else {
                    assert(s2.borrow_requests[m] == entries[m]);
                }
            }

            // Unique borrowers are preserved.
            assert forall|a: int, b: int|
                0 <= a < b < s2.borrow_requests.len() implies s2.borrow_requests[a].borrower
                != s2.borrow_requests[b].borrower by {
                assert(entries[a].borrower != entries[b].borrower);
            }

            // The borrower's first occurrence in the new index is still i.
            assert forall|m: int| 0 <= m < i implies s2.borrow_requests[m].borrower
                != borrower by {
                assert(s2.borrow_requests[m] == entries[m]);
            }
            lemma_requests_for_at(s2.borrow_requests, borrower, i);
            assert(requests_for(s2.borrow_requests, borrower) == new_list);

            // The old list holds no record with the new id.
            assert forall|k: int| 0 <= k < old_list.len() implies old_list[k].id != id by {
                assert(record_ok(s, entries[i].requests[k], entries[i].borrower));
            }
            lemma_find_request_absent(old_list, id);

            // Every record of the new owner index is sound.
            assert forall|m: int, k: int|
                0 <= m < s2.borrow_requests.len() && 0 <= k
                    < s2.borrow_requests[m].requests.len() implies record_ok(
                s2,
                s2.borrow_requests[m].requests[k],
                s2.borrow_requests[m].borrower,
            ) by {
                if m == i {
                    assert(s2.borrow_requests[m] == new_entry);
                    if k < old_list.len() {
                        assert(new_list[k] == old_list[k]);
                        assert(record_ok(s, entries[i].requests[k], entries[i].borrower));
                        lemma_addr_for_push(ids, id_entry, old_list[k].id);
                    } else {
                        assert(new_list[k] == br);
                        lemma_addr_for_push(ids, id_entry, id);
                    }
                } else {
                    assert(s2.borrow_requests[m] == entries[m]);
                    assert(record_ok(s, entries[m].requests[k], entries[m].borrower));
                    lemma_addr_for_push(ids, id_entry, entries[m].requests[k].id);
                }
            }

            // Ids still grow strictly within each owner's sequence.
            assert forall|m: int, k1: int, k2: int|
                0 <= m < s2.borrow_requests.len() && 0 <= k1 < k2
                    < s2.borrow_requests[m].requests.len() implies s2.borrow_requests[m].requests[k1].id
                < s2.borrow_requests[m].requests[k2].id by {
                if m == i {
                    assert(s2.borrow_requests[m] == new_entry);
                    if k2 < old_list.len() {
                        assert(entries[i].requests[k1].id < entries[i].requests[k2].id);
                    } else {
                        assert(new_list[k2] == br);
                        assert(new_list[k1] == old_list[k1]);
                        assert(record_ok(s, entries[i].requests[k1], entries[i].borrower));
                    }
                } else {
                    assert(s2.borrow_requests[m] == entries[m]);
                    assert(entries[m].requests[k1].id < entries[m].requests[k2].id);
                }
            }

            // Every entry of the new id index is backed.
            assert forall|j: int| 0 <= j < s2.id_to_addr.len() implies id_entry_ok(
                s2,
                s2.id_to_addr[j],
            ) by {
                if j < ids.len() {
                    let e = ids[j];
                    assert(id_entry_ok(s, e));
                    assert(s2.id_to_addr[j] == e);
                    if e.borrower == borrower {
                        lemma_find_request_push(old_list, br, e.id);
                    } else {
                        lemma_requests_for_update_other(entries, i, new_entry, e.borrower);
                        assert(requests_for(s2.borrow_requests, e.borrower) == requests_for(
                            entries,
                            e.borrower,
                        ));
                    }
                } else {
                    assert(s2.id_to_addr[j] == id_entry);
                    lemma_find_request_push(old_list, br, id);
                }
            }
        } else {
            // The borrower has no entry yet: a fresh entry holding only the
            // new record is appended.
            assert forall|m: int| 0 <= m < entries.len() implies entries[m].borrower
                != borrower by {}
            lemma_requests_for_absent(entries, borrower);
            assert(old_list =~= Seq::<BorrowRequestV>::empty());
            lemma_upsert_requests_absent(entries, borrower, new_list);
            assert(s2.borrow_requests =~= entries.push(new_entry));
            assert(new_list.len() == 1);
            assert(new_list[0] == br);

            // Unique borrowers are preserved.
            assert forall|a: int, b: int|
                0 <= a < b < s2.borrow_requests.len() implies s2.borrow_requests[a].borrower
                != s2.borrow_requests[b].borrower by {
                if b < entries.len() {
                    assert(s2.borrow_requests[a] == entries[a]);
                    assert(s2.borrow_requests[b] == entries[b]);
                } else {
                    assert(s2.borrow_requests[b] == new_entry);
                    assert(s2.borrow_requests[a] == entries[a]);
                }
            }

            // The appended entry is the borrower's first occurrence.
            assert forall|m: int| 0 <= m < entries.len() implies s2.borrow_requests[m].borrower
                != borrower by {
                assert(s2.borrow_requests[m] == entries[m]);
            }
            assert(s2.borrow_requests[entries.len() as int] == new_entry);
            lemma_requests_for_at(s2.borrow_requests, borrower, entries.len() as int);
            assert(requests_for(s2.borrow_requests, borrower) == new_list);

            // Every record of the new owner index is sound.
            assert forall|m: int, k: int|
                0 <= m < s2.borrow_requests.len() && 0 <= k
                    < s2.borrow_requests[m].requests.len() implies record_ok(
                s2,
                s2.borrow_requests[m].requests[k],
                s2.borrow_requests[m].borrower,
            ) by {
                if m < entries.len() {
                    assert(s2.borrow_requests[m] == entries[m]);
                    assert(record_ok(s, entries[m].requests[k], entries[m].borrower));
                    lemma_addr_for_push(ids, id_entry, entries[m].requests[k].id);
                } else {
                    assert(s2.borrow_requests[m] == new_entry);
                    assert(new_list[k] == br);
                    lemma_addr_for_push(ids, id_entry, id);
                }
            }

            // Ids grow strictly within each owner's sequence.
            assert forall|m: int, k1: int, k2: int|
                0 <= m < s2.borrow_requests.len() && 0 <= k1 < k2
                    < s2.borrow_requests[m].requests.len() implies s2.borrow_requests[m].requests[k1].id
                < s2.borrow_requests[m].requests[k2].id by {
                if m < entries.len() {
                    assert(s2.borrow_requests[m] == entries[m]);
                    assert(entries[m].requests[k1].id < entries[m].requests[k2].id);
                }
            }

            // Every entry of the new id index is backed.
            assert forall|j: int| 0 <= j < s2.id_to_addr.len() implies id_entry_ok(
                s2,
                s2.id_to_addr[j],
            ) by {
                if j < ids.len() {
                    let e = ids[j];
                    assert(id_entry_ok(s, e));
                    assert(s2.id_to_addr[j] == e);
                    assert(e.borrower != borrower);
                    lemma_requests_for_push_other(entries, new_entry, e.borrower);
                    assert(requests_for(s2.borrow_requests, e.borrower) == requests_for(
                        entries,
                        e.borrower,
                    ));
                } else {
                    assert(s2.id_to_addr[j] == id_entry);
                    lemma_find_request_push(old_list, br, id);
                    lemma_find_request_absent(old_list, id);
                }
            }
        }
    }
}

/// Creating with a zero collateral amount changes nothing and reports
/// `InvalidAmount`, whatever else is submitted.
pub proof fn lemma_zero_amount_rejected(
    s: StorageV,
    borrower: Seq<char>,
    collateral: AssetV,
    period: u64,
)
    requires
        collateral.amount == 0,
    ensures
        spec_make_borrow_request(s, borrower, collateral, period) == (
            s,
            Err::<BorrowRequestV, ContractError>(ContractError::InvalidAmount {}),
        ),
{
}

/// Creating with a positive amount but a zero period changes nothing and
/// reports `InvalidPeriod`.
pub proof fn lemma_zero_period_rejected(
    s: StorageV,
    borrower: Seq<char>,
    collateral: AssetV,
    period: u64,
)
    requires
        collateral.amount != 0,
        period == 0,
    ensures
        spec_make_borrow_request(s, borrower, collateral, period) == (
            s,
            Err::<BorrowRequestV, ContractError>(ContractError::InvalidPeriod {}),
        ),
{
}

/// A failed creation attempt, whatever its reason, leaves the store —
/// counters and both indices — exactly as it was.
pub proof fn lemma_failed_create_changes_nothing(
    s: StorageV,
    borrower: Seq<char>,
    collateral: AssetV,
    period: u64,
)
    ensures
        spec_make_borrow_request(s, borrower, collateral, period).1 is Err
            ==> spec_make_borrow_request(s, borrower, collateral, period).0 == s,
{
}

/// After a successful creation the new id resolves, through the id index
/// and then the owner's sequence, to exactly the record that the creation
/// returned: the submitted collateral and period under the freshly assigned
/// id, with both match fields zero.
pub proof fn lemma_created_request_resolvable(
    s: StorageV,
    borrower: Seq<char>,
    collateral: AssetV,
    period: u64,
)
    requires
        wf(s),
    ensures
        ({
            let (s2, res) = spec_make_borrow_request(s, borrower, collateral, period);
            match res {
                Ok(br) => {
                    &&& br == (BorrowRequestV {
                        id: (s.state.unwrap().request_count + 1) as u64,
                        collateral,
                        period,
                        borrowed_from: 0u64,
                        borrowed_at: 0u64,
                    })
                    &&& lookup_request(s2, br.id) == Some(br)
                },
                Err(_) => s2 == s,
            }
        }),
{
    let st = s.state.unwrap();
    let count = st.request_count;
    if collateral.amount != 0 && period != 0 && count != u64::MAX {
        let s2 = spec_make_borrow_request(s, borrower, collateral, period).0;
        let id = (count + 1) as u64;
        let br = BorrowRequestV { id, collateral, period, borrowed_from: 0u64, borrowed_at: 0u64 };
        let entries = s.borrow_requests;
        let ids = s.id_to_addr;
        let old_list = requests_for(entries, borrower);
        let new_list = old_list.push(br);
        let id_entry = IdOwnerV { id, borrower };

        assert forall|m: int| 0 <= m < ids.len() implies ids[m].id != id by {
            assert(id_entry_ok(s, ids[m]));
        }
        lemma_upsert_id_absent(ids, id, borrower);
        assert(s2.id_to_addr =~= ids.push(id_entry));
        lemma_addr_for_absent(ids, id);
        lemma_addr_for_push(ids, id_entry, id);
        assert(addr_for(s2.id_to_addr, id) == Some(borrower));

        lemma_requests_for_upsert_same(entries, borrower, new_list);
        assert(requests_for(s2.borrow_requests, borrower) == new_list);

        if exists|m: int| 0 <= m < entries.len() && entries[m].borrower == borrower {
            let i = lemma_first_owner_index(entries, borrower);
            lemma_requests_for_at(entries, borrower, i);
            assert(old_list == entries[i].requests);
            assert forall|k: int| 0 <= k < old_list.len() implies old_list[k].id != id by {
                assert(record_ok(s, entries[i].requests[k], entries[i].borrower));
            }
        } else {
            lemma_requests_for_absent(entries, borrower);
        }
        lemma_find_request_absent(old_list, id);
        lemma_find_request_push(old_list, br, id);
        assert(find_request(new_list, id) == Some(br));
    }
}

/// A creation attempt never changes what an already-resolvable id resolves
/// to: earlier records are never moved, rewritten, or shadowed.
pub proof fn lemma_make_borrow_request_preserves_lookup(
    s: StorageV,
    borrower: Seq<char>,
    collateral: AssetV,
    period: u64,
    id: u64,
)
    requires
        wf(s),
        lookup_request(s, id) is Some,
    ensures
        lookup_request(spec_make_borrow_request(s, borrower, collateral, period).0, id)
            == lookup_request(s, id),
{
    let st = s.state.unwrap();
    let count = st.request_count;
    if collateral.amount != 0 && period != 0 && count != u64::MAX {
        let s2 = spec_make_borrow_request(s, borrower, collateral, period).0;
        let new_id = (count + 1) as u64;
        let br = BorrowRequestV {
            id: new_id,
            collateral,
            period,
            borrowed_from: 0u64,
            borrowed_at: 0u64,
        };
        let entries = s.borrow_requests;
        let ids = s.id_to_addr;
        let old_list = requests_for(entries, borrower);
        let new_list = old_list.push(br);
        let id_entry = IdOwnerV { id: new_id, borrower };

        let j = lemma_addr_for_some_index(ids, id);
        assert(id_entry_ok(s, ids[j]));
        let resolved = ids[j].borrower;
        assert(addr_for(ids, id) == Some(resolved));
        assert(id != new_id);

        assert forall|m: int| 0 <= m < ids.len() implies ids[m].id != new_id by {
            assert(id_entry_ok(s, ids[m]));
        }
        lemma_upsert_id_absent(ids, new_id, borrower);
        assert(s2.id_to_addr =~= ids.push(id_entry));
        lemma_addr_for_push(ids, id_entry, id);
        assert(addr_for(s2.id_to_addr, id) == Some(resolved));

        if resolved == borrower {
            lemma_requests_for_upsert_same(entries, borrower, new_list);
            assert(requests_for(s2.borrow_requests, resolved) == new_list);
            lemma_find_request_push(old_list, br, id);
        } else {
            lemma_requests_for_upsert_other(entries, borrower, new_list, resolved);
            assert(requests_for(s2.borrow_requests, resolved) == requests_for(entries, resolved));
        }
    }
}

/// One creation attempt, as the model sees it.
pub ghost struct CreateCall {
    pub borrower: Seq<char>,
    pub collateral: AssetV,
    pub period: u64,
}

/// The effect of one creation attempt on a store.
pub open spec fn apply_create(s: StorageV, c: CreateCall) -> (
    StorageV,
    Result<BorrowRequestV, ContractError>,
) {
    spec_make_borrow_request(s, c.borrower, c.collateral, c.period)
}

/// The store after a sequence of creation attempts, applied in order.
pub open spec fn apply_creates(s: StorageV, calls: Seq<CreateCall>) -> StorageV
    decreases calls.len(),
{
    if calls.len() == 0 {
        s
    } else {
        apply_creates(apply_create(s, calls[0]).0, calls.skip(1))
    }
}

/// The ids assigned by the successful attempts of a call sequence, in call
/// order.
pub open spec fn assigned_ids(s: StorageV, calls: Seq<CreateCall>) -> Seq<u64>
    decreases calls.len(),
{
    if calls.len() == 0 {
        Seq::<u64>::empty()
    } else {
        let step = apply_create(s, calls[0]);
        let rest = assigned_ids(step.0, calls.skip(1));
        match step.1 {
            Ok(br) => seq![br.id] + rest,
            Err(_) => rest,
        }
    }
}

/// The records created for one borrower by the successful attempts of a call
/// sequence, in call order.
pub open spec fn created_for(s: StorageV, calls: Seq<CreateCall>, borrower: Seq<char>) -> Seq<
    BorrowRequestV,
>
    decreases calls.len(),
{
    if calls.len() == 0 {
        Seq::<BorrowRequestV>::empty()
    } else {
        let step = apply_create(s, calls[0]);
        let rest = created_for(step.0, calls.skip(1), borrower);
        match step.1 {
            Ok(br) => if calls[0].borrower == borrower {
                seq![br] + rest
            } else {
                rest
            },
            Err(_) => rest,
        }
    }
}

/// Ids are assigned consecutively: over any run of creation attempts from an
/// initialized store, the k-th success receives id `start + 1 + k`, so from
/// a fresh store the assigned ids are exactly 1, 2, 3, ... in call order,
/// whoever the owners are. The request counter ends at the start count plus
/// the number of successes — failed attempts never move it — and the
/// response counter never moves at all.
pub proof fn lemma_ids_consecutive(s: StorageV, calls: Seq<CreateCall>)
    requires
        s.state is Some,
    ensures
        apply_creates(s, calls).state is Some,
        apply_creates(s, calls).state.unwrap().request_count == s.state.unwrap().request_count
            + assigned_ids(s, calls).len(),
        apply_creates(s, calls).state.unwrap().response_count
            == s.state.unwrap().response_count,
        forall|k: int|
            0 <= k < assigned_ids(s, calls).len()
                ==> #[trigger] assigned_ids(s, calls)[k] == s.state.unwrap().request_count + 1
                + k,
    decreases calls.len(),
{
    if calls.len() > 0 {
        let step = apply_create(s, calls[0]);
        let s1 = step.0;
        match step.1 {
            Ok(br) => {
                assert(s1.state is Some);
                assert(s1.state.unwrap().request_count == s.state.unwrap().request_count + 1);
                assert(br.id == s.state.unwrap().request_count + 1);
                lemma_ids_consecutive(s1, calls.skip(1));
                let rest = assigned_ids(s1, calls.skip(1));
                let all = assigned_ids(s, calls);
                assert(all == seq![br.id] + rest);
                assert forall|k: int|
                    0 <= k < all.len() implies #[trigger] all[k] == s.state.unwrap().request_count
                    + 1 + k by {
                    if k == 0 {
                        assert(all[0] == br.id);
                    } else {
                        assert(all[k] == rest[k - 1]);
                    }
                }
            },
            Err(_) => {
                assert(s1 == s);
                lemma_ids_consecutive(s1, calls.skip(1));
            },
        }
    }
}

/// From a fresh store, the assigned ids are exactly 1, 2, 3, ... in call
/// order, whoever the owners are.
pub proof fn lemma_ids_from_fresh(calls: Seq<CreateCall>)
    ensures
        forall|k: int|
            0 <= k < assigned_ids(fresh_store(), calls).len()
                ==> #[trigger] assigned_ids(fresh_store(), calls)[k] == 1 + k,
{
    lemma_ids_consecutive(fresh_store(), calls);
}

/// A borrower's sequence after a run of creation attempts is exactly what it
/// was before, followed by that borrower's successful creations in call
/// order; no other borrower's creation touches it.
pub proof fn lemma_owner_sequence(s: StorageV, calls: Seq<CreateCall>, borrower: Seq<char>)
    requires
        s.state is Some,
    ensures
        requests_for(apply_creates(s, calls).borrow_requests, borrower) == requests_for(
            s.borrow_requests,
            borrower,
        ) + created_for(s, calls, borrower),
    decreases calls.len(),
{
    if calls.len() == 0 {
        assert(requests_for(s.borrow_requests, borrower) + Seq::<BorrowRequestV>::empty()
            =~= requests_for(s.borrow_requests, borrower));
    } else {
        let step = apply_create(s, calls[0]);
        let s1 = step.0;
        let c0 = calls[0];
        match step.1 {
            Ok(br) => {
                assert(s1.state is Some);
                lemma_owner_sequence(s1, calls.skip(1), borrower);
                let pushed = requests_for(s.borrow_requests, c0.borrower).push(br);
                if c0.borrower == borrower {
                    lemma_requests_for_upsert_same(s.borrow_requests, borrower, pushed);
                    assert(requests_for(s1.borrow_requests, borrower) == pushed);
                    assert(pushed + created_for(s1, calls.skip(1), borrower) =~= requests_for(
                        s.borrow_requests,
                        borrower,
                    ) + (seq![br] + created_for(s1, calls.skip(1), borrower)));
                } else {
                    lemma_requests_for_upsert_other(s.borrow_requests, c0.borrower, pushed, borrower);
                    assert(requests_for(s1.borrow_requests, borrower) == requests_for(
                        s.borrow_requests,
                        borrower,
                    ));
                }
            },
            Err(_) => {
                assert(s1 == s);
                lemma_owner_sequence(s1, calls.skip(1), borrower);
            },
        }
    }
}

/// From a fresh store, a borrower's sequence holds exactly that borrower's
/// successful creations, in creation order, and no others.
pub proof fn lemma_owner_sequence_from_fresh(calls: Seq<CreateCall>, borrower: Seq<char>)
    ensures
        requests_for(apply_creates(fresh_store(), calls).borrow_requests, borrower)
            == created_for(fresh_store(), calls, borrower),
{
    lemma_owner_sequence(fresh_store(), calls, borrower);
    assert(requests_for(fresh_store().borrow_requests, borrower) =~= Seq::<
        BorrowRequestV,
    >::empty());
    assert(Seq::<BorrowRequestV>::empty() + created_for(fresh_store(), calls, borrower)
        =~= created_for(fresh_store(), calls, borrower));
}

/// Well-formedness survives any run of creation attempts.
pub proof fn lemma_apply_creates_preserves_wf(s: StorageV, calls: Seq<CreateCall>)
    requires
        wf(s),
    ensures
        wf(apply_creates(s, calls)),
    decreases calls.len(),
{
    if calls.len() > 0 {
        let c0 = calls[0];
        lemma_make_borrow_request_preserves_wf(s, c0.borrower, c0.collateral, c0.period);
        lemma_apply_creates_preserves_wf(apply_create(s, c0).0, calls.skip(1));
    }
}

/// What a resolvable id resolves to is stable under any further run of
/// creation attempts: once created, a record is never moved, rewritten, or
/// shadowed.
pub proof fn lemma_lookup_stable(s: StorageV, calls: Seq<CreateCall>, id: u64)
    requires
        wf(s),
        lookup_request(s, id) is Some,
    ensures
        lookup_request(apply_creates(s, calls), id) == lookup_request(s, id),
    decreases calls.len(),
{
    if calls.len() > 0 {
        let c0 = calls[0];
        lemma_make_borrow_request_preserves_lookup(s, c0.borrower, c0.collateral, c0.period, id);
        lemma_make_borrow_request_preserves_wf(s, c0.borrower, c0.collateral, c0.period);
        lemma_lookup_stable(apply_create(s, c0).0, calls.skip(1), id);
    }
}

/// An id produced by a successful creation resolves — then and after any
/// later run of creation attempts — to exactly the record that the creation
/// returned: the submitted collateral and period under the assigned id, with
/// both match fields zero.
pub proof fn lemma_created_request_stays_resolvable(
    s: StorageV,
    borrower: Seq<char>,
    collateral: AssetV,
    period: u64,
    later: Seq<CreateCall>,
)
    requires
        wf(s),
        spec_make_borrow_request(s, borrower, collateral, period).1 is Ok,
    ensures
        ({
            let (s2, res) = spec_make_borrow_request(s, borrower, collateral, period);
            lookup_request(apply_creates(s2, later), res->Ok_0.id) == Some(res->Ok_0)
        }),
{
    let (s2, res) = spec_make_borrow_request(s, borrower, collateral, period);
    lemma_created_request_resolvable(s, borrower, collateral, period);
    lemma_make_borrow_request_preserves_wf(s, borrower, collateral, period);
    lemma_lookup_stable(s2, later, res->Ok_0.id);
}

} // verus!
