//! The ledger store: a global counters record, an owner index holding each
//! borrower's requests in creation order, and an id index mapping every
//! request id back to its borrower.
//!
//! The store exposes total read/write primitives; each primitive's contract
//! states exactly how it changes (or reads) the store's mathematical view.

use vstd::prelude::*;

use crate::asset::{Asset, AssetV};
use crate::error::ContractError;

verus! {

/// The singleton counters record of the ledger.
#[derive(Debug, Clone, Copy, PartialEq, Eq, Structural)]
pub struct State {
    /// How many requests have ever been created; also the most recently
    /// assigned request id.
    pub request_count: u64,
    /// How many responses have ever been made; reserved for a future
    /// matching process and never changed here.
    pub response_count: u64,
}

impl Default for State {
    /// The bootstrap value of the counters record: both counters at zero.
    fn default() -> (s: State)
        ensures
            s == (State { request_count: 0u64, response_count: 0u64 }),
    {
        State { request_count: 0u64, response_count: 0u64 }
    }
}

/// One borrow request: a collateral deposit paired with a borrowing period,
/// under a unique id. `borrowed_from` and `borrowed_at` are reserved for a
/// future matching process and are always zero in this scope.
#[derive(Debug, Clone, PartialEq, Eq)]
pub struct BorrowRequest {
    /// Unique id, assigned at creation, starting from 1.
    pub id: u64,
    /// The deposited collateral; its amount is positive.
    pub collateral: Asset,
    /// Requested borrowing duration in block-height units; positive.
    pub period: u64,
    /// Id of the response matched to this request; 0 while unmatched.
    pub borrowed_from: u64,
    /// Block height of the match; 0 while unmatched.
    pub borrowed_at: u64,
}

/// Mathematical image of [`BorrowRequest`].
#[verifier::ext_equal]
pub ghost struct BorrowRequestV {
    pub id: u64,
    pub collateral: AssetV,
    pub period: u64,
    pub borrowed_from: u64,
    pub borrowed_at: u64,
}

impl View for BorrowRequest {
    type V = BorrowRequestV;

    open spec fn view(&self) -> BorrowRequestV {
        BorrowRequestV {
            id: self.id,
            collateral: self.collateral@,
            period: self.period,
            borrowed_from: self.borrowed_from,
            borrowed_at: self.borrowed_at,
        }
    }
}

impl BorrowRequest {
    /// An exact copy of this record.
    pub fn duplicate(&self) -> (r: BorrowRequest)
        ensures
            r@ == self@,
    {
        BorrowRequest {
            id: self.id,
            collateral: self.collateral.duplicate(),
            period: self.period,
            borrowed_from: self.borrowed_from,
            borrowed_at: self.borrowed_at,
        }
    }
}

/// The sequence of views of a sequence of records.
pub open spec fn reqs_view(s: Seq<BorrowRequest>) -> Seq<BorrowRequestV> {
    s.map_values(|r: BorrowRequest| r@)
}

/// One entry of the owner index: a borrower and their requests, in creation
/// order.
#[verifier::ext_equal]
pub ghost struct OwnerRequestsV {
    pub borrower: Seq<char>,
    pub requests: Seq<BorrowRequestV>,
}

/// One entry of the id index: a request id and the borrower owning it.
#[verifier::ext_equal]
pub ghost struct IdOwnerV {
    pub id: u64,
    pub borrower: Seq<char>,
}

/// Mathematical view of the whole store.
#[verifier::ext_equal]
pub ghost struct StorageV {
    /// The counters record, absent until the store is bootstrapped.
    pub state: Option<State>,
    /// The owner index.
    pub borrow_requests: Seq<OwnerRequestsV>,
    /// The id index.
    pub id_to_addr: Seq<IdOwnerV>,
}

/// The view of a store that was never written to.
pub open spec fn empty_storage() -> StorageV {
    StorageV {
        state: None,
        borrow_requests: Seq::<OwnerRequestsV>::empty(),
        id_to_addr: Seq::<IdOwnerV>::empty(),
    }
}

/// The requests of `borrower` in the owner index: the requests of the first
/// entry keyed by `borrower`, or the empty sequence when there is none.
pub open spec fn requests_for(entries: Seq<OwnerRequestsV>, borrower: Seq<char>) -> Seq<
    BorrowRequestV,
>
    decreases entries.len(),
{
    if entries.len() == 0 {
        Seq::<BorrowRequestV>::empty()
    } else if entries[0].borrower == borrower {
        entries[0].requests
    } else {
        requests_for(entries.skip(1), borrower)
    }
}

/// The owner index after a full replace of `borrower`'s requests: the first
/// entry keyed by `borrower` is replaced, or a new entry is appended when
/// there is none.
pub open spec fn upsert_requests(
    entries: Seq<OwnerRequestsV>,
    borrower: Seq<char>,
    requests: Seq<BorrowRequestV>,
) -> Seq<OwnerRequestsV>
    decreases entries.len(),
{
    if entries.len() == 0 {
        seq![OwnerRequestsV { borrower, requests }]
    } else if entries[0].borrower == borrower {
        seq![OwnerRequestsV { borrower, requests }] + entries.skip(1)
    } else {
        seq![entries[0]] + upsert_requests(entries.skip(1), borrower, requests)
    }
}

/// The borrower that the id index assigns to `id`: the borrower of the first
/// entry keyed by `id`, or `None` when there is none.
pub open spec fn addr_for(ids: Seq<IdOwnerV>, id: u64) -> Option<Seq<char>>
    decreases ids.len(),
{
    if ids.len() == 0 {
        None
    } else if ids[0].id == id {
        Some(ids[0].borrower)
    } else {
        addr_for(ids.skip(1), id)
    }
}

/// The id index after assigning `id` to `borrower`: the first entry keyed by
/// `id` is replaced, or a new entry is appended when there is none.
pub open spec fn upsert_id(ids: Seq<IdOwnerV>, id: u64, borrower: Seq<char>) -> Seq<IdOwnerV>
    decreases ids.len(),
{
    if ids.len() == 0 {
        seq![IdOwnerV { id, borrower }]
    } else if ids[0].id == id {
        seq![IdOwnerV { id, borrower }] + ids.skip(1)
    } else {
        seq![ids[0]] + upsert_id(ids.skip(1), id, borrower)
    }
}

/// The id index after removing every entry keyed by `id`.
pub open spec fn without_id(ids: Seq<IdOwnerV>, id: u64) -> Seq<IdOwnerV>
    decreases ids.len(),
{
    if ids.len() == 0 {
        Seq::<IdOwnerV>::empty()
    } else if ids[0].id == id {
        without_id(ids.skip(1), id)
    } else {
        seq![ids[0]] + without_id(ids.skip(1), id)
    }
}

/// The first request with the given `id` in a sequence of requests, or
/// `None` when there is none.
pub open spec fn find_request(requests: Seq<BorrowRequestV>, id: u64) -> Option<BorrowRequestV>
    decreases requests.len(),
{
    if requests.len() == 0 {
        None
    } else if requests[0].id == id {
        Some(requests[0])
    } else {
        find_request(requests.skip(1), id)
    }
}

/// When `borrower` first occurs at position `i`, the lookup returns that
/// entry's requests.
pub proof fn lemma_requests_for_at(entries: Seq<OwnerRequestsV>, borrower: Seq<char>, i: int)
    requires
        0 <= i < entries.len(),
        entries[i].borrower == borrower,
        forall|m: int| 0 <= m < i ==> entries[m].borrower != borrower,
    ensures
        requests_for(entries, borrower) == entries[i].requests,
    decreases i,
{
    if i > 0 {
        assert(entries[0].borrower != borrower);
        assert forall|m: int| 0 <= m < i - 1 implies entries.skip(1)[m].borrower != borrower by {
            assert(entries.skip(1)[m] == entries[m + 1]);
        }
        assert(entries.skip(1)[i - 1] == entries[i]);
        lemma_requests_for_at(entries.skip(1), borrower, i - 1);
    }
}

/// When `borrower` occurs nowhere, the lookup returns the empty sequence.
pub proof fn lemma_requests_for_absent(entries: Seq<OwnerRequestsV>, borrower: Seq<char>)
    requires
        forall|m: int| 0 <= m < entries.len() ==> entries[m].borrower != borrower,
    ensures
        requests_for(entries, borrower) == Seq::<BorrowRequestV>::empty(),
    decreases entries.len(),
{
    if entries.len() > 0 {
        assert forall|m: int|
            0 <= m < entries.skip(1).len() implies entries.skip(1)[m].borrower != borrower by {
            assert(entries.skip(1)[m] == entries[m + 1]);
        }
        lemma_requests_for_absent(entries.skip(1), borrower);
    }
}

/// When `borrower` first occurs at position `i`, the replace rewrites exactly
/// that entry.
pub proof fn lemma_upsert_requests_at(
    entries: Seq<OwnerRequestsV>,
    borrower: Seq<char>,
    requests: Seq<BorrowRequestV>,
    i: int,
)
    requires
        0 <= i < entries.len(),
        entries[i].borrower == borrower,
        forall|m: int| 0 <= m < i ==> entries[m].borrower != borrower,
    ensures
        upsert_requests(entries, borrower, requests) =~= entries.update(
            i,
            OwnerRequestsV { borrower, requests },
        ),
    decreases i,
{
    if i > 0 {
        assert(entries[0].borrower != borrower);
        assert forall|m: int| 0 <= m < i - 1 implies entries.skip(1)[m].borrower != borrower by {
            assert(entries.skip(1)[m] == entries[m + 1]);
        }
        assert(entries.skip(1)[i - 1] == entries[i]);
        lemma_upsert_requests_at(entries.skip(1), borrower, requests, i - 1);
    }
}

/// When `borrower` occurs nowhere, the replace appends a new entry.
pub proof fn lemma_upsert_requests_absent(
    entries: Seq<OwnerRequestsV>,
    borrower: Seq<char>,
    requests: Seq<BorrowRequestV>,
)
    requires
        forall|m: int| 0 <= m < entries.len() ==> entries[m].borrower != borrower,
    ensures
        upsert_requests(entries, borrower, requests) =~= entries.push(
            OwnerRequestsV { borrower, requests },
        ),
    decreases entries.len(),
{
    if entries.len() > 0 {
        assert forall|m: int|
            0 <= m < entries.skip(1).len() implies entries.skip(1)[m].borrower != borrower by {
            assert(entries.skip(1)[m] == entries[m + 1]);
        }
        lemma_upsert_requests_absent(entries.skip(1), borrower, requests);
    }
}

/// When `id` first occurs at position `i`, the lookup returns that entry's
/// borrower.
pub proof fn lemma_addr_for_at(ids: Seq<IdOwnerV>, id: u64, i: int)
    requires
        0 <= i < ids.len(),
        ids[i].id == id,
        forall|m: int| 0 <= m < i ==> ids[m].id != id,
    ensures
        addr_for(ids, id) == Some(ids[i].borrower),
    decreases i,
{
    if i > 0 {
        assert(ids[0].id != id);
        assert forall|m: int| 0 <= m < i - 1 implies ids.skip(1)[m].id != id by {
            assert(ids.skip(1)[m] == ids[m + 1]);
        }
        assert(ids.skip(1)[i - 1] == ids[i]);
        lemma_addr_for_at(ids.skip(1), id, i - 1);
    }
}

/// When `id` occurs nowhere, the lookup returns `None`.
pub proof fn lemma_addr_for_absent(ids: Seq<IdOwnerV>, id: u64)
    requires
        forall|m: int| 0 <= m < ids.len() ==> ids[m].id != id,
    ensures
        addr_for(ids, id) is None,
    decreases ids.len(),
{
    if ids.len() > 0 {
        assert forall|m: int| 0 <= m < ids.skip(1).len() implies ids.skip(1)[m].id != id by {
            assert(ids.skip(1)[m] == ids[m + 1]);
        }
        lemma_addr_for_absent(ids.skip(1), id);
    }
}

/// When `id` first occurs at position `i`, the assignment rewrites exactly
/// that entry.
pub proof fn lemma_upsert_id_at(ids: Seq<IdOwnerV>, id: u64, borrower: Seq<char>, i: int)
    requires
        0 <= i < ids.len(),
        ids[i].id == id,
        forall|m: int| 0 <= m < i ==> ids[m].id != id,
    ensures
        upsert_id(ids, id, borrower) =~= ids.update(i, IdOwnerV { id, borrower }),
    decreases i,
{
    if i > 0 {
        assert(ids[0].id != id);
        assert forall|m: int| 0 <= m < i - 1 implies ids.skip(1)[m].id != id by {
            assert(ids.skip(1)[m] == ids[m + 1]);
        }
        assert(ids.skip(1)[i - 1] == ids[i]);
        lemma_upsert_id_at(ids.skip(1), id, borrower, i - 1);
    }
}

/// When `id` occurs nowhere, the assignment appends a new entry.
pub proof fn lemma_upsert_id_absent(ids: Seq<IdOwnerV>, id: u64, borrower: Seq<char>)
    requires
        forall|m: int| 0 <= m < ids.len() ==> ids[m].id != id,
    ensures
        upsert_id(ids, id, borrower) =~= ids.push(IdOwnerV { id, borrower }),
    decreases ids.len(),
{
    if ids.len() > 0 {
        assert forall|m: int| 0 <= m < ids.skip(1).len() implies ids.skip(1)[m].id != id by {
            assert(ids.skip(1)[m] == ids[m + 1]);
        }
        lemma_upsert_id_absent(ids.skip(1), id, borrower);
    }
}

/// When `id` first occurs at position `i`, the scan returns that request.
pub proof fn lemma_find_request_at(requests: Seq<BorrowRequestV>, id: u64, i: int)
    requires
        0 <= i < requests.len(),
        requests[i].id == id,
        forall|m: int| 0 <= m < i ==> requests[m].id != id,
    ensures
        find_request(requests, id) == Some(requests[i]),
    decreases i,
{
    if i > 0 {
        assert(requests[0].id != id);
        assert forall|m: int| 0 <= m < i - 1 implies requests.skip(1)[m].id != id by {
            assert(requests.skip(1)[m] == requests[m + 1]);
        }
        assert(requests.skip(1)[i - 1] == requests[i]);
        lemma_find_request_at(requests.skip(1), id, i - 1);
    }
}

/// After a replace, looking the same borrower up yields the new requests.
pub proof fn lemma_requests_for_upsert_same(
    entries: Seq<OwnerRequestsV>,
    borrower: Seq<char>,
    requests: Seq<BorrowRequestV>,
)
    ensures
        requests_for(upsert_requests(entries, borrower, requests), borrower) == requests,
    decreases entries.len(),
{
    let out = upsert_requests(entries, borrower, requests);
    if entries.len() == 0 {
        assert(out[0] == (OwnerRequestsV { borrower, requests }));
    } else if entries[0].borrower == borrower {
        assert(out[0] == (OwnerRequestsV { borrower, requests }));
    } else {
        assert(out[0] == entries[0]);
        assert(out.skip(1) =~= upsert_requests(entries.skip(1), borrower, requests));
        lemma_requests_for_upsert_same(entries.skip(1), borrower, requests);
    }
}

/// A replace of one borrower leaves every other borrower's lookup unchanged.
pub proof fn lemma_requests_for_upsert_other(
    entries: Seq<OwnerRequestsV>,
    borrower: Seq<char>,
    requests: Seq<BorrowRequestV>,
    other: Seq<char>,
)
    requires
        other != borrower,
    ensures
        requests_for(upsert_requests(entries, borrower, requests), other) == requests_for(
            entries,
            other,
        ),
    decreases entries.len(),
{
    let out = upsert_requests(entries, borrower, requests);
    if entries.len() == 0 {
        assert(out[0] == (OwnerRequestsV { borrower, requests }));
        assert(out.skip(1) =~= Seq::<OwnerRequestsV>::empty());
        assert(requests_for(out.skip(1), other) =~= Seq::<BorrowRequestV>::empty());
        assert(requests_for(entries, other) =~= Seq::<BorrowRequestV>::empty());
    } else if entries[0].borrower == borrower {
        assert(out[0] == (OwnerRequestsV { borrower, requests }));
        assert(out.skip(1) =~= entries.skip(1));
    } else {
        assert(out[0] == entries[0]);
        assert(out.skip(1) =~= upsert_requests(entries.skip(1), borrower, requests));
        lemma_requests_for_upsert_other(entries.skip(1), borrower, requests, other);
    }
}

/// Appending an entry of another borrower leaves a borrower's lookup
/// unchanged.
pub proof fn lemma_requests_for_push_other(
    entries: Seq<OwnerRequestsV>,
    entry: OwnerRequestsV,
    other: Seq<char>,
)
    requires
        entry.borrower != other,
    ensures
        requests_for(entries.push(entry), other) == requests_for(entries, other),
    decreases entries.len(),
{
    let out = entries.push(entry);
    if entries.len() == 0 {
        assert(out[0] == entry);
        assert(out.skip(1) =~= Seq::<OwnerRequestsV>::empty());
        assert(requests_for(out.skip(1), other) =~= Seq::<BorrowRequestV>::empty());
        assert(requests_for(entries, other) =~= Seq::<BorrowRequestV>::empty());
    } else {
        assert(out[0] == entries[0]);
        assert(out.skip(1) =~= entries.skip(1).push(entry));
        lemma_requests_for_push_other(entries.skip(1), entry, other);
    }
}

/// Rewriting an entry of another borrower leaves a borrower's lookup
/// unchanged.
pub proof fn lemma_requests_for_update_other(
    entries: Seq<OwnerRequestsV>,
    i: int,
    entry: OwnerRequestsV,
    other: Seq<char>,
)
    requires
        0 <= i < entries.len(),
        entry.borrower != other,
        entries[i].borrower != other,
    ensures
        requests_for(entries.update(i, entry), other) == requests_for(entries, other),
    decreases i,
{
    let out = entries.update(i, entry);
    if i == 0 {
        assert(out[0] == entry);
        assert(out.skip(1) =~= entries.skip(1));
    } else {
        assert(out[0] == entries[0]);
        assert(out.skip(1) =~= entries.skip(1).update(i - 1, entry));
        if entries[0].borrower != other {
            lemma_requests_for_update_other(entries.skip(1), i - 1, entry, other);
            assert(entries.skip(1)[i - 1] == entries[i]);
        }
    }
}

/// What appending an entry does to an id lookup: a lookup that already
/// succeeded is unchanged, and a lookup that failed now finds the new entry
/// exactly when the id matches.
pub proof fn lemma_addr_for_push(ids: Seq<IdOwnerV>, entry: IdOwnerV, id: u64)
    ensures
        addr_for(ids.push(entry), id) == (if addr_for(ids, id) is Some {
            addr_for(ids, id)
        } else if entry.id == id {
            Some(entry.borrower)
        } else {
            None
        }),
    decreases ids.len(),
{
    let out = ids.push(entry);
    if ids.len() == 0 {
        assert(out[0] == entry);
        assert(out.skip(1) =~= Seq::<IdOwnerV>::empty());
        assert(addr_for(out.skip(1), id) is None);
        assert(addr_for(ids, id) is None);
    } else {
        assert(out[0] == ids[0]);
        assert(out.skip(1) =~= ids.skip(1).push(entry));
        lemma_addr_for_push(ids.skip(1), entry, id);
    }
}

/// What appending a record does to an id scan: a scan that already found a
/// record is unchanged, and a scan that failed now finds the new record
/// exactly when the id matches.
pub proof fn lemma_find_request_push(requests: Seq<BorrowRequestV>, record: BorrowRequestV, id: u64)
    ensures
        find_request(requests.push(record), id) == (if find_request(requests, id) is Some {
            find_request(requests, id)
        } else if record.id == id {
            Some(record)
        } else {
            None
        }),
    decreases requests.len(),
{
    let out = requests.push(record);
    if requests.len() == 0 {
        assert(out[0] == record);
        assert(out.skip(1) =~= Seq::<BorrowRequestV>::empty());
        assert(find_request(out.skip(1), id) is None);
        assert(find_request(requests, id) is None);
    } else {
        assert(out[0] == requests[0]);
        assert(out.skip(1) =~= requests.skip(1).push(record));
        lemma_find_request_push(requests.skip(1), record, id);
    }
}

/// The position of a borrower's first occurrence, when the borrower occurs
/// at all.
pub proof fn lemma_first_owner_index(entries: Seq<OwnerRequestsV>, borrower: Seq<char>) -> (i: int)
    requires
        exists|m: int| 0 <= m < entries.len() && entries[m].borrower == borrower,
    ensures
        0 <= i < entries.len(),
        entries[i].borrower == borrower,
        forall|m: int| 0 <= m < i ==> entries[m].borrower != borrower,
    decreases entries.len(),
{
    if entries[0].borrower == borrower {
        0
    } else {
        let m0 = choose|m: int| 0 <= m < entries.len() && entries[m].borrower == borrower;
        assert(entries.skip(1)[m0 - 1] == entries[m0]);
        let i1 = lemma_first_owner_index(entries.skip(1), borrower);
        assert(entries.skip(1)[i1] == entries[i1 + 1]);
        assert forall|m: int| 0 <= m < i1 + 1 implies entries[m].borrower != borrower by {
            if m > 0 {
                assert(entries.skip(1)[m - 1] == entries[m]);
            }
        }
        i1 + 1
    }
}

/// A successful id lookup names a position in the index: the first entry
/// keyed by the id, whose borrower the lookup returned.
pub proof fn lemma_addr_for_some_index(ids: Seq<IdOwnerV>, id: u64) -> (i: int)
    requires
        addr_for(ids, id) is Some,
    ensures
        0 <= i < ids.len(),
        ids[i].id == id,
        addr_for(ids, id) == Some(ids[i].borrower),
        forall|m: int| 0 <= m < i ==> ids[m].id != id,
    decreases ids.len(),
{
    if ids[0].id == id {
        0
    } else {
        let i1 = lemma_addr_for_some_index(ids.skip(1), id);
        assert(ids.skip(1)[i1] == ids[i1 + 1]);
        assert forall|m: int| 0 <= m < i1 + 1 implies ids[m].id != id by {
            if m > 0 {
                assert(ids.skip(1)[m - 1] == ids[m]);
            }
        }
        i1 + 1
    }
}

/// When `id` occurs nowhere, the scan returns `None`.
pub proof fn lemma_find_request_absent(requests: Seq<BorrowRequestV>, id: u64)
    requires
        forall|m: int| 0 <= m < requests.len() ==> requests[m].id != id,
    ensures
        find_request(requests, id) is None,
    decreases requests.len(),
{
    if requests.len() > 0 {
        assert forall|m: int|
            0 <= m < requests.skip(1).len() implies requests.skip(1)[m].id != id by {
            assert(requests.skip(1)[m] == requests[m + 1]);
        }
        lemma_find_request_absent(requests.skip(1), id);
    }
}

struct OwnerRequests {
    borrower: String,
    requests: Vec<BorrowRequest>,
}

impl View for OwnerRequests {
    type V = OwnerRequestsV;

    closed spec fn view(&self) -> OwnerRequestsV {
        OwnerRequestsV { borrower: self.borrower@, requests: reqs_view(self.requests@) }
    }
}

struct IdOwner {
    id: u64,
    borrower: String,
}

impl View for IdOwner {
    type V = IdOwnerV;

    closed spec fn view(&self) -> IdOwnerV {
        IdOwnerV { id: self.id, borrower: self.borrower@ }
    }
}

/// The persistent store of the ledger. It starts empty; the counters record
/// must be written once at bootstrap before the lifecycle operation runs.
pub struct Storage {
    state: Option<State>,
    borrow_requests: Vec<OwnerRequests>,
    id_to_addr: Vec<IdOwner>,
}

impl View for Storage {
    type V = StorageV;

    closed spec fn view(&self) -> StorageV {
        StorageV {
            state: self.state,
            borrow_requests: self.borrow_requests@.map_values(|e: OwnerRequests| e@),
            id_to_addr: self.id_to_addr@.map_values(|e: IdOwner| e@),
        }
    }
}

impl Storage {
    /// A store that was never written to.
    pub fn new() -> (s: Storage)
        ensures
            s@ == empty_storage(),
    {
        let s = Storage { state: None, borrow_requests: Vec::new(), id_to_addr: Vec::new() };
        proof {
            assert(s@ =~= empty_storage());
        }
        s
    }
}

/// Writes the counters record; the indices are untouched.
pub fn store_state(storage: &mut Storage, state: &State)
    ensures
        final(storage)@ == (StorageV { state: Some(*state), ..old(storage)@ }),
{
    storage.state = Some(*state);
    proof {
        assert(storage@ =~= (StorageV { state: Some(*state), ..old(storage)@ }));
    }
}

/// Reads the counters record. The store must have been bootstrapped.
pub fn load_state(storage: &Storage) -> (state: State)
    requires
        storage@.state is Some,
    ensures
        storage@.state == Some(state),
{
    storage.state.unwrap()
}

/// An exact copy of a sequence of records.
fn copy_requests(requests: &Vec<BorrowRequest>) -> (r: Vec<BorrowRequest>)
    ensures
        reqs_view(r@) == reqs_view(requests@),
{
    let mut out: Vec<BorrowRequest> = Vec::new();
    let mut i: usize = 0;
    while i < requests.len()
        invariant
            i <= requests.len(),
            out@.len() == i,
            forall|m: int| 0 <= m < i ==> out@[m]@ == requests@[m]@,
        decreases requests.len() - i,
    {
        out.push(requests[i].duplicate());
        i = i + 1;
    }
    proof {
        assert(reqs_view(out@) =~= reqs_view(requests@));
    }
    out
}

/// The position of the first owner-index entry keyed by `borrower`, if any.
fn find_owner_index(storage: &Storage, borrower: &String) -> (r: Option<usize>)
    ensures
        match r {
            Some(i) => {
                &&& i < storage@.borrow_requests.len()
                &&& storage@.borrow_requests[i as int].borrower == borrower@
                &&& forall|m: int|
                    0 <= m < i ==> storage@.borrow_requests[m].borrower != borrower@
            },
            None => forall|m: int|
                0 <= m < storage@.borrow_requests.len()
                    ==> storage@.borrow_requests[m].borrower != borrower@,
        },
{
    let mut i: usize = 0;
    while i < storage.borrow_requests.len()
        invariant
            i <= storage.borrow_requests.len(),
            forall|m: int| 0 <= m < i ==> storage@.borrow_requests[m].borrower != borrower@,
        decreases storage.borrow_requests.len() - i,
    {
        if storage.borrow_requests[i].borrower == *borrower {
            return Some(i);
        }
        i = i + 1;
    }
    None
}

/// Reads the requests of `borrower` from the owner index; the empty vector
/// when the borrower has none.
pub fn load_borrow_request(storage: &Storage, borrower: &String) -> (requests: Vec<BorrowRequest>)
    ensures
        reqs_view(requests@) == requests_for(storage@.borrow_requests, borrower@),
{
    match find_owner_index(storage, borrower) {
        Some(i) => {
            proof {
                lemma_requests_for_at(storage@.borrow_requests, borrower@, i as int);
            }
            copy_requests(&storage.borrow_requests[i].requests)
        },
        None => {
            proof {
                lemma_requests_for_absent(storage@.borrow_requests, borrower@);
                assert(reqs_view(Seq::<BorrowRequest>::empty()) =~= Seq::<BorrowRequestV>::empty());
            }
            Vec::new()
        },
    }
}

/// Writes `borrow_request` as the full new request sequence of `borrower`:
/// the borrower's owner-index entry is replaced, or appended when absent.
/// The counters record and the id index are untouched.
pub fn store_borrow_request(
    storage: &mut Storage,
    borrower: &String,
    borrow_request: &Vec<BorrowRequest>,
)
    ensures
        final(storage)@ == (StorageV {
            borrow_requests: upsert_requests(
                old(storage)@.borrow_requests,
                borrower@,
                reqs_view(borrow_request@),
            ),
            ..old(storage)@
        }),
{
    let entry = OwnerRequests { borrower: borrower.clone(), requests: copy_requests(borrow_request) };
    proof {
        assert(entry@ == (OwnerRequestsV { borrower: borrower@, requests: reqs_view(borrow_request@) }));
    }
    match find_owner_index(storage, borrower) {
        Some(i) => {
            proof {
                lemma_upsert_requests_at(
                    storage@.borrow_requests,
                    borrower@,
                    reqs_view(borrow_request@),
                    i as int,
                );
            }
            storage.borrow_requests.set(i, entry);
            proof {
                assert(storage@.borrow_requests =~= old(storage)@.borrow_requests.update(
                    i as int,
                    OwnerRequestsV { borrower: borrower@, requests: reqs_view(borrow_request@) },
                ));
                assert(storage@ =~= (StorageV {
                    borrow_requests: upsert_requests(
                        old(storage)@.borrow_requests,
                        borrower@,
                        reqs_view(borrow_request@),
                    ),
                    ..old(storage)@
                }));
            }
        },
        None => {
            proof {
                lemma_upsert_requests_absent(
                    storage@.borrow_requests,
                    borrower@,
                    reqs_view(borrow_request@),
                );
            }
            storage.borrow_requests.push(entry);
            proof {
                assert(storage@.borrow_requests =~= old(storage)@.borrow_requests.push(
                    OwnerRequestsV { borrower: borrower@, requests: reqs_view(borrow_request@) },
                ));
                assert(storage@ =~= (StorageV {
                    borrow_requests: upsert_requests(
                        old(storage)@.borrow_requests,
                        borrower@,
                        reqs_view(borrow_request@),
                    ),
                    ..old(storage)@
                }));
            }
        },
    }
}

/// The position of the first id-index entry keyed by `id`, if any.
fn find_id_index(storage: &Storage, id: u64) -> (r: Option<usize>)
    ensures
        match r {
            Some(i) => {
                &&& i < storage@.id_to_addr.len()
                &&& storage@.id_to_addr[i as int].id == id
                &&& forall|m: int| 0 <= m < i ==> storage@.id_to_addr[m].id != id
            },
            None => forall|m: int|
                0 <= m < storage@.id_to_addr.len() ==> storage@.id_to_addr[m].id != id,
        },
{
    let mut i: usize = 0;
    while i < storage.id_to_addr.len()
        invariant
            i <= storage.id_to_addr.len(),
            forall|m: int| 0 <= m < i ==> storage@.id_to_addr[m].id != id,
        decreases storage.id_to_addr.len() - i,
    {
        if storage.id_to_addr[i].id == id {
            return Some(i);
        }
        i = i + 1;
    }
    None
}

/// Writes the id-index entry `id -> borrower`: the entry keyed by `id` is
/// replaced, or appended when absent. The counters record and the owner
/// index are untouched.
pub fn store_borrow_request_id_to_addr(storage: &mut Storage, id: u64, borrower: &String)
    ensures
        final(storage)@ == (StorageV {
            id_to_addr: upsert_id(old(storage)@.id_to_addr, id, borrower@),
            ..old(storage)@
        }),
{
    let entry = IdOwner { id, borrower: borrower.clone() };
    proof {
        assert(entry@ == (IdOwnerV { id, borrower: borrower@ }));
    }
    match find_id_index(storage, id) {
        Some(i) => {
            proof {
                lemma_upsert_id_at(storage@.id_to_addr, id, borrower@, i as int);
            }
            storage.id_to_addr.set(i, entry);
            proof {
                assert(storage@.id_to_addr =~= old(storage)@.id_to_addr.update(
                    i as int,
                    IdOwnerV { id, borrower: borrower@ },
                ));
                assert(storage@ =~= (StorageV {
                    id_to_addr: upsert_id(old(storage)@.id_to_addr, id, borrower@),
                    ..old(storage)@
                }));
            }
        },
        None => {
            proof {
                lemma_upsert_id_absent(storage@.id_to_addr, id, borrower@);
            }
            storage.id_to_addr.push(entry);
            proof {
                assert(storage@.id_to_addr =~= old(storage)@.id_to_addr.push(
                    IdOwnerV { id, borrower: borrower@ },
                ));
                assert(storage@ =~= (StorageV {
                    id_to_addr: upsert_id(old(storage)@.id_to_addr, id, borrower@),
                    ..old(storage)@
                }));
            }
        },
    }
}

/// Reads the borrower that the id index assigns to `id`; `NotFound` when the
/// id is unknown.
pub fn load_borrow_request_id_to_addr(storage: &Storage, id: u64) -> (r: Result<
    String,
    ContractError,
>)
    ensures
        match r {
            Ok(borrower) => addr_for(storage@.id_to_addr, id) == Some(borrower@),
            Err(e) => addr_for(storage@.id_to_addr, id) is None && e == (ContractError::NotFound {}),
        },
{
    match find_id_index(storage, id) {
        Some(i) => {
            proof {
                lemma_addr_for_at(storage@.id_to_addr, id, i as int);
            }
            Ok(storage.id_to_addr[i].borrower.clone())
        },
        None => {
            proof {
                lemma_addr_for_absent(storage@.id_to_addr, id);
            }
            Err(ContractError::NotFound {})
        },
    }
}

/// Removes every id-index entry keyed by `id`. The counters record and the
/// owner index are untouched. Unused by the request lifecycle; it exists for
/// a future matching or expiry process.
pub fn remove_borrow_request_id_to_addr(storage: &mut Storage, id: u64)
    ensures
        final(storage)@ == (StorageV {
            id_to_addr: without_id(old(storage)@.id_to_addr, id),
            ..old(storage)@
        }),
{
    let filtered = filter_out_id(&storage.id_to_addr, id);
    storage.id_to_addr = filtered;
    proof {
        assert(storage@ =~= (StorageV {
            id_to_addr: without_id(old(storage)@.id_to_addr, id),
            ..old(storage)@
        }));
    }
}

/// The id-index entries with every entry keyed by `id` left out.
fn filter_out_id(ids: &Vec<IdOwner>, id: u64) -> (r: Vec<IdOwner>)
    ensures
        r@.map_values(|e: IdOwner| e@) == without_id(ids@.map_values(|e: IdOwner| e@), id),
{
    let ghost full = ids@.map_values(|e: IdOwner| e@);
    let mut out: Vec<IdOwner> = Vec::new();
    let mut i: usize = 0;
    proof {
        assert(full.skip(0) =~= full);
        assert(out@.map_values(|e: IdOwner| e@) =~= Seq::<IdOwnerV>::empty());
    }
    while i < ids.len()
        invariant
            i <= ids.len(),
            full == ids@.map_values(|e: IdOwner| e@),
            without_id(full, id) =~= out@.map_values(|e: IdOwner| e@) + without_id(
                full.skip(i as int),
                id,
            ),
        decreases ids.len() - i,
    {
        proof {
            assert(full.skip(i as int)[0] == full[i as int]);
            assert(full.skip(i as int).skip(1) =~= full.skip(i as int + 1));
        }
        if ids[i].id != id {
            let ghost prev = out@.map_values(|e: IdOwner| e@);
            out.push(IdOwner { id: ids[i].id, borrower: ids[i].borrower.clone() });
            proof {
                assert(out@.map_values(|e: IdOwner| e@) =~= prev.push(full[i as int]));
                assert(prev + (seq![full[i as int]] + without_id(full.skip(i as int + 1), id))
                    =~= prev.push(full[i as int]) + without_id(full.skip(i as int + 1), id));
            }
        }
        i = i + 1;
    }
    proof {
        assert(full.skip(ids@.len() as int).len() == 0);
        assert(without_id(full, id) =~= out@.map_values(|e: IdOwner| e@));
    }
    out
}

} // verus!
