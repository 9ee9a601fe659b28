//! Tests of the ledger's behavior: consecutive id allocation, per-owner
//! sequences, id resolution, the error taxonomy, and the store primitives.

use lending::asset::{Asset, AssetInfo};
use lending::commands::{make_borrow_request, plan_borrow_request};
use lending::error::ContractError;
use lending::msgs::{BorrowRequestResponse, Cw20HookMsg, QueryMsg, StateResponse};
use lending::queries::{query_borrow_request_by_id, query_borrow_requests_by_addr, query_state};
use lending::state::{
    load_borrow_request, load_borrow_request_id_to_addr, load_state,
    remove_borrow_request_id_to_addr, store_borrow_request_id_to_addr, store_state, State,
    Storage,
};
use lending::utils::{to_cw20_token, to_native_token, validate_funds, Coin};

fn instantiated_storage() -> Storage {
    let mut storage = Storage::new();
    store_state(&mut storage, &State::default());
    storage
}

fn native(denom: &str, amount: u128) -> Asset {
    to_native_token(denom.to_string(), amount).unwrap()
}

fn token(contract_addr: &str, amount: u128) -> Asset {
    to_cw20_token(contract_addr.to_string(), amount).unwrap()
}

#[test]
fn state_default_is_zero() {
    assert_eq!(
        State::default(),
        State {
            request_count: 0u64,
            response_count: 0u64,
        }
    );
}

#[test]
fn first_native_request_gets_id_one() {
    let mut storage = instantiated_storage();
    let owner = "owner_a".to_string();

    let created =
        make_borrow_request(&mut storage, &owner, native("uusd", 1000), 17200).unwrap();
    assert_eq!(created.id, 1u64);

    assert_eq!(
        query_borrow_requests_by_addr(&storage, &owner),
        vec![BorrowRequestResponse {
            id: 1u64,
            collateral: Asset {
                info: AssetInfo::NativeToken {
                    denom: "uusd".to_string(),
                },
                amount: 1000u128,
            },
            period: 17200u64,
            borrowed_from: 0u64,
            borrowed_at: 0u64,
        }]
    );
}

#[test]
fn second_token_request_gets_id_two() {
    let mut storage = instantiated_storage();
    let owner = "owner_a".to_string();

    make_borrow_request(&mut storage, &owner, native("uusd", 1000), 17200).unwrap();
    let created =
        make_borrow_request(&mut storage, &owner, token("contractX", 500), 100).unwrap();
    assert_eq!(created.id, 2u64);

    assert_eq!(
        query_state(&storage),
        StateResponse {
            request_count: 2u64,
            response_count: 0u64,
        }
    );
}

#[test]
fn zero_amount_rejected_and_state_untouched() {
    let mut storage = instantiated_storage();
    let owner_a = "owner_a".to_string();
    let owner_b = "owner_b".to_string();

    make_borrow_request(&mut storage, &owner_a, native("uusd", 1000), 17200).unwrap();
    let count_before = query_state(&storage).request_count;

    // The constructors refuse a zero amount, so hand the lifecycle a
    // hand-built zero-amount asset: it must be rejected there too.
    let zero = Asset {
        info: AssetInfo::NativeToken {
            denom: "uusd".to_string(),
        },
        amount: 0u128,
    };
    let res = make_borrow_request(&mut storage, &owner_b, zero, 10);
    match res {
        Err(ContractError::InvalidAmount {}) => (),
        _ => panic!("a zero amount must be rejected"),
    }

    assert_eq!(query_state(&storage).request_count, count_before);
    assert_eq!(query_borrow_requests_by_addr(&storage, &owner_b), vec![]);
}

#[test]
fn zero_period_rejected_and_state_untouched() {
    let mut storage = instantiated_storage();
    let owner = "owner_a".to_string();

    let res = make_borrow_request(&mut storage, &owner, native("uusd", 1000), 0);
    match res {
        Err(ContractError::InvalidPeriod {}) => (),
        _ => panic!("a zero period must be rejected"),
    }

    assert_eq!(
        query_state(&storage),
        StateResponse {
            request_count: 0u64,
            response_count: 0u64,
        }
    );
    assert_eq!(query_borrow_requests_by_addr(&storage, &owner), vec![]);
}

#[test]
fn interleaved_owners_keep_creation_order() {
    let mut storage = instantiated_storage();
    let owner_a = "owner_a".to_string();
    let owner_b = "owner_b".to_string();

    let first = make_borrow_request(&mut storage, &owner_a, native("uusd", 10), 5).unwrap();
    let second = make_borrow_request(&mut storage, &owner_b, native("uusd", 20), 6).unwrap();
    let third = make_borrow_request(&mut storage, &owner_a, token("contractX", 30), 7).unwrap();

    assert_eq!(first.id, 1u64);
    assert_eq!(second.id, 2u64);
    assert_eq!(third.id, 3u64);

    let of_a = query_borrow_requests_by_addr(&storage, &owner_a);
    assert_eq!(of_a.len(), 2);
    assert_eq!(of_a[0].id, 1u64);
    assert_eq!(of_a[0].period, 5u64);
    assert_eq!(of_a[1].id, 3u64);
    assert_eq!(of_a[1].period, 7u64);

    let of_b = query_borrow_requests_by_addr(&storage, &owner_b);
    assert_eq!(of_b.len(), 1);
    assert_eq!(of_b[0].id, 2u64);
}

#[test]
fn created_ids_resolve_to_exact_records() {
    let mut storage = instantiated_storage();
    let owner_a = "owner_a".to_string();
    let owner_b = "owner_b".to_string();

    make_borrow_request(&mut storage, &owner_a, native("uusd", 1000), 17200).unwrap();
    make_borrow_request(&mut storage, &owner_b, token("contractX", 500), 100).unwrap();

    assert_eq!(
        query_borrow_request_by_id(&storage, 1).unwrap(),
        BorrowRequestResponse {
            id: 1u64,
            collateral: Asset {
                info: AssetInfo::NativeToken {
                    denom: "uusd".to_string(),
                },
                amount: 1000u128,
            },
            period: 17200u64,
            borrowed_from: 0u64,
            borrowed_at: 0u64,
        }
    );
    assert_eq!(
        query_borrow_request_by_id(&storage, 2).unwrap(),
        BorrowRequestResponse {
            id: 2u64,
            collateral: Asset {
                info: AssetInfo::Token {
                    contract_addr: "contractX".to_string(),
                },
                amount: 500u128,
            },
            period: 100u64,
            borrowed_from: 0u64,
            borrowed_at: 0u64,
        }
    );
}

#[test]
fn unknown_id_reports_not_found() {
    let storage = instantiated_storage();

    match query_borrow_request_by_id(&storage, 1) {
        Err(ContractError::NotFound {}) => (),
        _ => panic!("an unknown id must report NotFound"),
    }
    match load_borrow_request_id_to_addr(&storage, 7) {
        Err(ContractError::NotFound {}) => (),
        _ => panic!("an unknown id must report NotFound"),
    }
}

#[test]
fn exhausted_counter_reports_overflow() {
    let mut storage = Storage::new();
    store_state(
        &mut storage,
        &State {
            request_count: u64::MAX,
            response_count: 0u64,
        },
    );

    let owner = "owner_a".to_string();
    let res = make_borrow_request(&mut storage, &owner, native("uusd", 1000), 17200);
    match res {
        Err(ContractError::Overflow {}) => (),
        _ => panic!("an exhausted counter must report Overflow"),
    }
    assert_eq!(load_state(&storage).request_count, u64::MAX);
}

#[test]
fn plan_rejects_exhausted_counter() {
    let full = State {
        request_count: u64::MAX,
        response_count: 3u64,
    };
    match plan_borrow_request(&full, native("uusd", 1), 1) {
        Err(ContractError::Overflow {}) => (),
        _ => panic!("an exhausted counter must report Overflow"),
    }

    let state = State {
        request_count: 4u64,
        response_count: 3u64,
    };
    let (new_state, request) = plan_borrow_request(&state, native("uusd", 9), 11).unwrap();
    assert_eq!(new_state.request_count, 5u64);
    assert_eq!(new_state.response_count, 3u64);
    assert_eq!(request.id, 5u64);
    assert_eq!(request.period, 11u64);
    assert_eq!(request.borrowed_from, 0u64);
    assert_eq!(request.borrowed_at, 0u64);
}

#[test]
fn funds_must_be_exactly_one_entry() {
    match validate_funds(&vec![]) {
        Err(ContractError::InvalidFunds {}) => (),
        _ => panic!("no funds must be rejected"),
    }

    let two = vec![
        Coin {
            denom: "uusd".to_string(),
            amount: 1u128,
        },
        Coin {
            denom: "uluna".to_string(),
            amount: 2u128,
        },
    ];
    match validate_funds(&two) {
        Err(ContractError::InvalidFunds {}) => (),
        _ => panic!("two fund entries must be rejected"),
    }

    let one = vec![Coin {
        denom: "uusd".to_string(),
        amount: 1u128,
    }];
    assert!(validate_funds(&one).is_ok());
}

#[test]
fn hook_message_carries_the_period() {
    let mut storage = instantiated_storage();
    let owner = "owner_a".to_string();

    let hook = Cw20HookMsg::MakeBorrowRequest { period: 42u64 };
    let Cw20HookMsg::MakeBorrowRequest { period } = hook;
    let created =
        make_borrow_request(&mut storage, &owner, token("contractX", 7), period).unwrap();
    assert_eq!(created.period, 42u64);
}

#[test]
fn query_messages_drive_the_query_surface() {
    let mut storage = instantiated_storage();
    let owner = "owner_a".to_string();

    make_borrow_request(&mut storage, &owner, native("uusd", 1000), 17200).unwrap();

    let queries = vec![
        QueryMsg::State {},
        QueryMsg::BorrowRequestById { id: 1u64 },
        QueryMsg::BorrowRequestByAddr {
            borrower: "owner_a".to_string(),
        },
    ];
    for query in queries {
        match query {
            QueryMsg::State {} => {
                assert_eq!(query_state(&storage).request_count, 1u64);
            }
            QueryMsg::BorrowRequestById { id } => {
                assert_eq!(query_borrow_request_by_id(&storage, id).unwrap().id, id);
            }
            QueryMsg::BorrowRequestByAddr { borrower } => {
                assert_eq!(query_borrow_requests_by_addr(&storage, &borrower).len(), 1);
            }
        }
    }
}

#[test]
fn id_index_store_load_remove() {
    let mut storage = Storage::new();
    let owner = "owner_a".to_string();

    store_borrow_request_id_to_addr(&mut storage, 1, &owner);
    assert_eq!(load_borrow_request_id_to_addr(&storage, 1).unwrap(), owner);

    remove_borrow_request_id_to_addr(&mut storage, 1);
    match load_borrow_request_id_to_addr(&storage, 1) {
        Err(ContractError::NotFound {}) => (),
        _ => panic!("a removed id must be gone"),
    }
}

#[test]
fn owner_index_defaults_to_empty() {
    let storage = Storage::new();
    let owner = "owner_a".to_string();
    assert_eq!(load_borrow_request(&storage, &owner), vec![]);
}

#[test]
fn storing_counters_replaces_them() {
    let mut storage = Storage::new();
    store_state(
        &mut storage,
        &State {
            request_count: 1u64,
            response_count: 2u64,
        },
    );
    store_state(
        &mut storage,
        &State {
            request_count: 8u64,
            response_count: 9u64,
        },
    );
    assert_eq!(
        load_state(&storage),
        State {
            request_count: 8u64,
            response_count: 9u64,
        }
    );
}
