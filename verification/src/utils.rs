//! Validated value constructors for collateral assets, and the check on
//! native fund attachments.

use vstd::prelude::*;

use crate::asset::{Asset, AssetInfo, AssetInfoV, AssetV};
use crate::error::ContractError;

verus! {

/// One native fund entry attached to a call: a denomination and an amount.
#[derive(Debug, Clone, PartialEq, Eq)]
pub struct Coin {
    /// The denomination of the native currency.
    pub denom: String,
    /// The attached amount.
    pub amount: u128,
}

/// Mathematical image of [`Coin`].
#[verifier::ext_equal]
pub ghost struct CoinV {
    pub denom: Seq<char>,
    pub amount: u128,
}

impl View for Coin {
    type V = CoinV;

    open spec fn view(&self) -> CoinV {
        CoinV { denom: self.denom@, amount: self.amount }
    }
}

/// Builds token-contract collateral; rejects a zero amount.
pub fn to_cw20_token(contract_addr: String, amount: u128) -> (r: Result<Asset, ContractError>)
    ensures
        match r {
            Ok(a) => amount != 0 && a@ == (AssetV {
                info: AssetInfoV::Token { contract_addr: contract_addr@ },
                amount,
            }),
            Err(e) => amount == 0 && e == (ContractError::InvalidAmount {}),
        },
{
    if amount == 0 {
        return Err(ContractError::InvalidAmount {});
    }
    Ok(Asset { info: AssetInfo::Token { contract_addr }, amount })
}

/// Builds native-currency collateral; rejects a zero amount.
pub fn to_native_token(denom: String, amount: u128) -> (r: Result<Asset, ContractError>)
    ensures
        match r {
            Ok(a) => amount != 0 && a@ == (AssetV {
                info: AssetInfoV::NativeToken { denom: denom@ },
                amount,
            }),
            Err(e) => amount == 0 && e == (ContractError::InvalidAmount {}),
        },
{
    if amount == 0 {
        return Err(ContractError::InvalidAmount {});
    }
    Ok(Asset { info: AssetInfo::NativeToken { denom }, amount })
}

/// Checks the fund entries attached to a native-collateral call: exactly one
/// entry must be attached, and its amount must be positive.
pub fn validate_funds(funds: &Vec<Coin>) -> (r: Result<(), ContractError>)
    ensures
        match r {
            Ok(_) => funds@.len() == 1 && funds@[0].amount != 0,
            Err(e) => {
                ||| (funds@.len() != 1 && e == (ContractError::InvalidFunds {}))
                ||| (funds@.len() == 1 && funds@[0].amount == 0 && e == (
                    ContractError::InvalidAmount {}
                ))
            },
        },
{
    if funds.len() != 1 {
        return Err(ContractError::InvalidFunds {});
    }
    if funds[0].amount == 0 {
        return Err(ContractError::InvalidAmount {});
    }
    Ok(())
}

} // verus!
