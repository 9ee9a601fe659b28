//! The collateral asset model: a closed sum of native coins and
//! token-contract amounts.

use vstd::prelude::*;

verus! {

/// What kind of collateral an [`Asset`] is: an amount of a native currency,
/// identified by its denomination, or an amount issued by a token contract,
/// identified by the contract's address.
#[derive(Debug, Clone, PartialEq, Eq)]
pub enum AssetInfo {
    /// Token-contract collateral.
    Token { contract_addr: String },
    /// Native-currency collateral.
    NativeToken { denom: String },
}

/// A collateral asset: its kind together with its amount.
///
/// A validated asset (one built by [`crate::utils::to_cw20_token`] or
/// [`crate::utils::to_native_token`]) always has `amount > 0`.
#[derive(Debug, Clone, PartialEq, Eq)]
pub struct Asset {
    /// The kind of collateral.
    pub info: AssetInfo,
    /// The deposited amount.
    pub amount: u128,
}

/// Mathematical image of [`AssetInfo`].
#[verifier::ext_equal]
pub ghost enum AssetInfoV {
    Token { contract_addr: Seq<char> },
    NativeToken { denom: Seq<char> },
}

/// Mathematical image of [`Asset`].
#[verifier::ext_equal]
pub ghost struct AssetV {
    pub info: AssetInfoV,
    pub amount: u128,
}

impl View for AssetInfo {
    type V = AssetInfoV;

    open spec fn view(&self) -> AssetInfoV {
        match self {
            AssetInfo::Token { contract_addr } => AssetInfoV::Token { contract_addr: contract_addr@ },
            AssetInfo::NativeToken { denom } => AssetInfoV::NativeToken { denom: denom@ },
        }
    }
}

impl View for Asset {
    type V = AssetV;

    open spec fn view(&self) -> AssetV {
        AssetV { info: self.info@, amount: self.amount }
    }
}

impl AssetInfo {
    /// An exact copy of this asset kind.
    pub fn duplicate(&self) -> (r: AssetInfo)
        ensures
            r@ == self@,
    {
        match self {
            AssetInfo::Token { contract_addr } => AssetInfo::Token { contract_addr: contract_addr.clone() },
            AssetInfo::NativeToken { denom } => AssetInfo::NativeToken { denom: denom.clone() },
        }
    }
}

impl Asset {
    /// An exact copy of this asset.
    pub fn duplicate(&self) -> (r: Asset)
        ensures
            r@ == self@,
    {
        Asset { info: self.info.duplicate(), amount: self.amount }
    }
}

} // verus!
