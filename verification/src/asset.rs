//! Asset identities as the pool's collaborators name them.

use vstd::prelude::*;

verus! {

/// An asset is either a contract-managed token or a chain-native coin.
#[derive(Clone, Debug, PartialEq, Eq)]
pub enum AssetInfo {
    Token { contract_addr: String },
    NativeToken { denom: String },
}

/// Equality of asset identities: same kind and same name.
pub open spec fn info_eq(a: AssetInfo, b: AssetInfo) -> bool {
    match (a, b) {
        (AssetInfo::Token { contract_addr: x }, AssetInfo::Token { contract_addr: y }) => x@ == y@,
        (AssetInfo::NativeToken { denom: x }, AssetInfo::NativeToken { denom: y }) => x@ == y@,
        _ => false,
    }
}

impl AssetInfo {
    pub fn is_native_token(&self) -> (r: bool)
        ensures
            r == (self is NativeToken),
    {
        match self {
            AssetInfo::NativeToken { .. } => true,
            AssetInfo::Token { .. } => false,
        }
    }

    pub fn equal(&self, asset: &AssetInfo) -> (r: bool)
        ensures
            r == info_eq(*self, *asset),
    {
        match self {
            AssetInfo::Token { contract_addr } => {
                let self_contract_addr = contract_addr;
                match asset {
                    AssetInfo::Token { contract_addr } => self_contract_addr.eq(contract_addr),
                    AssetInfo::NativeToken { .. } => false,
                }
            },
            AssetInfo::NativeToken { denom } => {
                let self_denom = denom;
                match asset {
                    AssetInfo::Token { .. } => false,
                    AssetInfo::NativeToken { denom } => self_denom.eq(denom),
                }
            },
        }
    }
}

} // verus!
