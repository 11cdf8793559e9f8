//! Asset identities and amounts.

use vstd::prelude::*;
use vstd::string::StringExecFns;

verus! {

/// The identity of an asset held by a pool.
#[derive(Debug, Clone, PartialEq, Eq)]
pub enum AssetInfoValidated {
    /// A CW20 token, by its contract address.
    Cw20Token(String),
    /// A native (smart) token, by its denomination.
    SmartToken(String),
}

/// An amount of one asset.
#[derive(Debug, Clone, PartialEq, Eq)]
pub struct AssetValidated {
    pub info: AssetInfoValidated,
    pub amount: u128,
}

/// The denomination of the chain's staking token.
pub const COREUM_DENOM: &'static str = "juno";

impl AssetInfoValidated {
    /// This asset with the given amount.
    pub fn with_balance(self, amount: u128) -> (r: AssetValidated)
        ensures
            r == (AssetValidated { info: self, amount }),
    {
        AssetValidated { info: self, amount }
    }
}

/// The native token `cash`.
pub fn cash() -> (r: AssetInfoValidated)
    ensures
        r matches AssetInfoValidated::SmartToken(d) && d@ == "cash"@,
{
    AssetInfoValidated::SmartToken(String::from_str("cash"))
}

/// `amount` of the native token `denom`.
pub fn native_token(denom: String, amount: u128) -> (r: AssetValidated)
    ensures
        r == (AssetValidated { info: AssetInfoValidated::SmartToken(denom), amount }),
{
    AssetInfoValidated::SmartToken(denom).with_balance(amount)
}

/// `amount` of the staking token.
pub fn juno(amount: u128) -> (r: AssetValidated)
    ensures
        r.amount == amount,
        r.info matches AssetInfoValidated::SmartToken(d) && d@ == COREUM_DENOM@,
{
    native_token(String::from_str(COREUM_DENOM), amount)
}

/// The single rewards-power entry `(staking token, amount)`.
pub fn juno_power(amount: u128) -> (r: Vec<(AssetInfoValidated, u128)>)
    ensures
        r@.len() == 1,
        r@[0].1 == amount,
        r@[0].0 matches AssetInfoValidated::SmartToken(d) && d@ == COREUM_DENOM@,
{
    let mut v: Vec<(AssetInfoValidated, u128)> = Vec::new();
    v.push((AssetInfoValidated::SmartToken(String::from_str(COREUM_DENOM)), amount));
    v
}

} // verus!
