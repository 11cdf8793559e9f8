use dex_stable_pool::asset::{cash, juno, juno_power, native_token, AssetInfoValidated};
use dex_stable_pool::factory::{FeeConfig, PoolConfig, PoolType, PoolsResponse, UpdateAddr};

#[test]
fn pool_type_to_string() {
    assert_eq!(PoolType::Xyk {}.to_string(), "xyk");
    assert_eq!(PoolType::Stable {}.to_string(), "stable");
}

#[test]
fn custom_pool_type_name() {
    assert_eq!(PoolType::Custom("curve".to_string()).to_string(), "custom-curve");
}

#[test]
fn fee_config_validity() {
    assert!(FeeConfig { total_fee_bps: 30, protocol_fee_bps: 1660 }.valid_fee_bps());
    assert!(FeeConfig { total_fee_bps: 10_000, protocol_fee_bps: 0 }.valid_fee_bps());
    assert!(!FeeConfig { total_fee_bps: 10_001, protocol_fee_bps: 0 }.valid_fee_bps());
    assert!(!FeeConfig { total_fee_bps: 0, protocol_fee_bps: 10_001 }.valid_fee_bps());
}

#[test]
fn pool_config_and_response_hold_their_fields() {
    let config = PoolConfig {
        code_id: 7,
        pool_type: PoolType::Stable {},
        fee_config: FeeConfig { total_fee_bps: 30, protocol_fee_bps: 1660 },
        is_disabled: false,
    };
    assert_eq!(config.pool_type.to_string(), "stable");
    let response = PoolsResponse { pools: vec![] };
    assert!(response.pools.is_empty());
    assert_eq!(UpdateAddr::SetTo("fee".to_string()), UpdateAddr::SetTo("fee".to_string()));
    assert_ne!(UpdateAddr::SetTo("fee".to_string()), UpdateAddr::Remove {});
}

#[test]
fn asset_helpers() {
    assert_eq!(cash(), AssetInfoValidated::SmartToken("cash".to_string()));
    let j = juno(5);
    assert_eq!(j.amount, 5);
    assert_eq!(j.info, AssetInfoValidated::SmartToken("juno".to_string()));
    assert_eq!(
        juno_power(7),
        vec![(AssetInfoValidated::SmartToken("juno".to_string()), 7u128)]
    );
    let t = native_token("tia".to_string(), 3);
    assert_eq!(t.info, AssetInfoValidated::SmartToken("tia".to_string()));
    assert_eq!(t.amount, 3);
}
