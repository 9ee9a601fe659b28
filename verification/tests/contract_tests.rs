//! The contract-level test cases: instantiation, and request creation
//! through both collateral paths.

use lending::asset::{Asset, AssetInfo};
use lending::commands::make_borrow_request;
use lending::error::ContractError;
use lending::msgs::{BorrowRequestResponse, StateResponse};
use lending::queries::{query_borrow_requests_by_addr, query_state};
use lending::state::{store_state, State, Storage};
use lending::utils::{to_cw20_token, to_native_token, validate_funds, Coin};

/// Mock address 0 used for test.
const MOCK_ADDRESS_0: &str = "mock_address_0";
/// Mock CW20 token address 0 used for test.
const MOCK_CW20_TOKEN_0: &str = "cw20_token_0";
/// Mock native token address 0 used for test.
const MOCK_NATIVE_TOKEN_0: &str = "native_token_0";

fn instantiated_storage() -> Storage {
    let mut storage = Storage::new();
    store_state(&mut storage, &State::default());
    storage
}

#[test]
fn instantiate_contract() {
    let storage = instantiated_storage();

    assert_eq!(
        query_state(&storage),
        StateResponse {
            request_count: 0u64,
            response_count: 0u64,
        },
    );
}

#[test]
fn make_borrow_request_test_case_0() {
    let mut storage = instantiated_storage();

    let amount = 1000u128;
    let period = 17200u64;

    let borrower = MOCK_ADDRESS_0.to_string();
    let collateral = to_cw20_token(MOCK_CW20_TOKEN_0.to_string(), amount).unwrap();

    let _res = make_borrow_request(&mut storage, &borrower, collateral, period).unwrap();

    assert_eq!(
        query_borrow_requests_by_addr(&storage, &borrower),
        vec![BorrowRequestResponse {
            id: 1u64,
            collateral: Asset {
                info: AssetInfo::Token {
                    contract_addr: MOCK_CW20_TOKEN_0.to_string(),
                },
                amount,
            },
            period,
            borrowed_from: 0u64,
            borrowed_at: 0u64,
        }]
    );
}

#[test]
fn make_borrow_request_test_case_1() {
    let _storage = instantiated_storage();

    let amount = 0u128;
    let _period = 17200u64;

    let res = to_cw20_token(MOCK_CW20_TOKEN_0.to_string(), amount);

    match res {
        Err(ContractError::InvalidAmount {}) => (),
        _ => panic!("DO NOT ENTER HERE"),
    }
}

#[test]
fn make_borrow_request_test_case_2() {
    let mut storage = instantiated_storage();

    let amount = 1000u128;
    let period = 0u64;

    let borrower = MOCK_ADDRESS_0.to_string();
    let collateral = to_cw20_token(MOCK_CW20_TOKEN_0.to_string(), amount).unwrap();

    let res = make_borrow_request(&mut storage, &borrower, collateral, period);

    match res {
        Err(ContractError::InvalidPeriod {}) => (),
        _ => panic!("DO NOT ENTER HERE"),
    }
}

#[test]
fn make_borrow_request_test_case_3() {
    let mut storage = instantiated_storage();

    let amount = 1000u128;
    let period = 17200u64;

    let funds = vec![Coin {
        denom: MOCK_NATIVE_TOKEN_0.to_string(),
        amount,
    }];
    validate_funds(&funds).unwrap();

    let borrower = MOCK_ADDRESS_0.to_string();
    let collateral = to_native_token(funds[0].denom.clone(), funds[0].amount).unwrap();

    let _res = make_borrow_request(&mut storage, &borrower, collateral, period).unwrap();

    assert_eq!(
        query_borrow_requests_by_addr(&storage, &borrower),
        vec![BorrowRequestResponse {
            id: 1u64,
            collateral: Asset {
                info: AssetInfo::NativeToken {
                    denom: MOCK_NATIVE_TOKEN_0.to_string(),
                },
                amount,
            },
            period,
            borrowed_from: 0u64,
            borrowed_at: 0u64,
        }]
    );
}

#[test]
fn make_borrow_request_test_case_4() {
    let _storage = instantiated_storage();

    let amount = 0u128;
    let _period = 17200u64;

    let funds = vec![Coin {
        denom: MOCK_NATIVE_TOKEN_0.to_string(),
        amount,
    }];
    let res = validate_funds(&funds);

    match res {
        Err(ContractError::InvalidAmount {}) => (),
        _ => panic!("DO NOT ENTER HERE"),
    }
}

#[test]
fn make_borrow_request_test_case_5() {
    let mut storage = instantiated_storage();

    let amount = 1000u128;
    let period = 0u64;

    let funds = vec![Coin {
        denom: MOCK_NATIVE_TOKEN_0.to_string(),
        amount,
    }];
    validate_funds(&funds).unwrap();

    let borrower = MOCK_ADDRESS_0.to_string();
    let collateral = to_native_token(funds[0].denom.clone(), funds[0].amount).unwrap();

    let res = make_borrow_request(&mut storage, &borrower, collateral, period);

    match res {
        Err(ContractError::InvalidPeriod {}) => (),
        _ => panic!("DO NOT ENTER HERE"),
    }
}

#[test]
fn make_borrow_request_test_case_6() {
    let mut storage = instantiated_storage();

    let amount = 1000u128;
    let period = 17200u64;

    let borrower = MOCK_ADDRESS_0.to_string();

    let collateral = to_cw20_token(MOCK_CW20_TOKEN_0.to_string(), amount).unwrap();
    let _res = make_borrow_request(&mut storage, &borrower, collateral, period).unwrap();

    let collateral = to_native_token(MOCK_NATIVE_TOKEN_0.to_string(), amount).unwrap();
    let _res = make_borrow_request(&mut storage, &borrower, collateral, period).unwrap();

    assert_eq!(
        query_borrow_requests_by_addr(&storage, &borrower),
        vec![
            BorrowRequestResponse {
                id: 1u64,
                collateral: Asset {
                    info: AssetInfo::Token {
                        contract_addr: MOCK_CW20_TOKEN_0.to_string(),
                    },
                    amount,
                },
                period,
                borrowed_from: 0u64,
                borrowed_at: 0u64,
            },
            BorrowRequestResponse {
                id: 2u64,
                collateral: Asset {
                    info: AssetInfo::NativeToken {
                        denom: MOCK_NATIVE_TOKEN_0.to_string(),
                    },
                    amount,
                },
                period,
                borrowed_from: 0u64,
                borrowed_at: 0u64,
            }
        ]
    );
}
