//! Pool types and the per-type configuration that a factory hands to the pools
//! it creates.

use crate::asset::AssetInfoValidated;
use vstd::prelude::*;
use vstd::string::StringExecFns;

verus! {

/// Fees are given in basis points: this many make the whole amount.
pub const BPS_DENOMINATOR: u16 = 10_000;

/// The kinds of pool.
#[derive(Debug, Clone, PartialEq, Eq)]
pub enum PoolType {
    /// Constant product.
    Xyk {},
    /// StableSwap.
    Stable {},
    /// A pool type known by its name.
    Custom(String),
}

impl PoolType {
    /// The name under which this pool type is stored.
    pub open spec fn name(self) -> Seq<char> {
        match self {
            PoolType::Xyk {} => "xyk"@,
            PoolType::Stable {} => "stable"@,
            PoolType::Custom(s) => "custom-"@ + s@,
        }
    }

    /// The name under which this pool type is stored: `xyk`, `stable`, or
    /// `custom-` followed by the custom name.
    pub fn to_string(&self) -> (r: String)
        ensures
            r@ == self.name(),
    {
        match self {
            PoolType::Xyk {} => String::from_str("xyk"),
            PoolType::Stable {} => String::from_str("stable"),
            PoolType::Custom(s) => String::from_str("custom-").concat(s.as_str()),
        }
    }
}

/// The fees of a pool, in basis points.
#[derive(Debug, Clone, Copy, PartialEq, Eq, Structural)]
pub struct FeeConfig {
    /// The fee charged on every swap, as a share of the returned amount.
    pub total_fee_bps: u16,
    /// The part of the swap fee that goes to the protocol.
    pub protocol_fee_bps: u16,
}

impl FeeConfig {
    pub open spec fn spec_valid(self) -> bool {
        self.total_fee_bps <= BPS_DENOMINATOR && self.protocol_fee_bps <= BPS_DENOMINATOR
    }

    /// Whether both fees are at most the whole amount.
    pub fn valid_fee_bps(&self) -> (r: bool)
        ensures
            r == self.spec_valid(),
    {
        self.total_fee_bps <= BPS_DENOMINATOR && self.protocol_fee_bps <= BPS_DENOMINATOR
    }
}

/// The configuration of one pool type.
#[derive(Debug, Clone, PartialEq, Eq)]
pub struct PoolConfig {
    /// The code that pools of this type are created from.
    pub code_id: u64,
    pub pool_type: PoolType,
    /// The default fees; the total fee may be overridden when a pool is created.
    pub fee_config: FeeConfig,
    /// A disabled type creates no new pools; existing ones keep working.
    pub is_disabled: bool,
}

/// What is known of one pool.
#[derive(Debug, Clone, PartialEq, Eq)]
pub struct PairInfo {
    pub asset_infos: Vec<AssetInfoValidated>,
    pub contract_addr: String,
    pub liquidity_token: String,
    pub staking_addr: String,
    pub pool_type: PoolType,
    pub fee_config: FeeConfig,
}

/// A page of pools.
#[derive(Debug, Clone, PartialEq, Eq)]
pub struct PoolsResponse {
    pub pools: Vec<PairInfo>,
}

/// Sets or removes an address.
#[derive(Debug, Clone, PartialEq, Eq)]
pub enum UpdateAddr {
    SetTo(String),
    Remove {},
}

} // verus!
