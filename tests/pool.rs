use dex_stable_pool::error::ContractError;
use dex_stable_pool::factory::FeeConfig;
use dex_stable_pool::asset::AssetInfoValidated;
use dex_stable_pool::pool::{PoolState, DECIMAL_FRACTIONAL, MINIMUM_LIQUIDITY_AMOUNT};
use dex_stable_pool::swap::{calculate_protocol_fee, ReverseSimulation, SwapResult};
use dex_stable_pool::solver::compute_d;

const FEES: FeeConfig = FeeConfig { total_fee_bps: 30, protocol_fee_bps: 1660 };

fn empty_pool() -> PoolState {
    PoolState::new(vec![6, 6], 100, FEES, 1_000, 0).unwrap()
}

/// A pool holding a million of each asset.
fn million_pool() -> PoolState {
    let mut pool = empty_pool();
    pool.provide_liquidity(1_000, &vec![1_000_000, 1_000_000]).unwrap();
    pool
}

#[test]
fn new_pool_checks_its_parameters() {
    assert_eq!(
        PoolState::new(vec![6], 100, FEES, 0, 0).unwrap_err(),
        ContractError::InvalidNumberOfAssets { min: 2, max: 2 }
    );
    assert_eq!(
        PoolState::new(vec![6, 6, 6], 100, FEES, 0, 0).unwrap_err(),
        ContractError::InvalidNumberOfAssets { min: 2, max: 2 }
    );
    assert_eq!(
        PoolState::new(vec![6, 6], 0, FEES, 0, 0).unwrap_err(),
        ContractError::IncorrectAmp { max_amp: 1_000_000 }
    );
    let pool = PoolState::new(vec![6, 18], 100, FEES, 7, 9).unwrap();
    assert_eq!(pool.greatest_precision, 18);
    assert_eq!(pool.reserves, vec![0, 0]);
    assert_eq!(pool.total_share, 0);
    assert_eq!(pool.cumulative_prices, vec![(0, 1, 0), (1, 0, 0)]);
    assert_eq!(pool.trading_starts, 9);
    assert!(!pool.frozen);
}

#[test]
fn first_deposit_then_balanced_deposit_doubles_shares() {
    let mut pool = empty_pool();
    let first = pool.provide_liquidity(1_000, &vec![500_000, 500_000]).unwrap();
    assert_eq!(first, 1_000_000 - MINIMUM_LIQUIDITY_AMOUNT);
    assert_eq!(pool.total_share, 1_000_000);
    let second = pool.provide_liquidity(1_000, &vec![500_000, 500_000]).unwrap();
    assert_eq!(second, 1_000_000);
    assert_eq!(pool.total_share, 2_000_000);
    assert_eq!(pool.reserves, vec![1_000_000, 1_000_000]);
}

#[test]
fn balanced_deposit_pays_no_imbalance_fee() {
    let mut pool = million_pool();
    let total = pool.total_share;
    let d_before = compute_d(10_000, &pool.reserves).unwrap();
    let d_after = compute_d(10_000, &vec![1_250_000, 1_250_000]).unwrap();
    let share = pool.provide_liquidity(1_000, &vec![250_000, 250_000]).unwrap();
    assert_eq!(share, total * d_after / d_before - total);
    assert_eq!(share, 500_000);
}

#[test]
fn imbalanced_deposit_pays_a_fee() {
    let mut balanced = million_pool();
    let mut one_sided = million_pool();
    let even = balanced.provide_liquidity(1_000, &vec![50_000, 50_000]).unwrap();
    let uneven = one_sided.provide_liquidity(1_000, &vec![100_000]).unwrap();
    assert!(uneven < even);
    assert!(uneven > 90_000);
    assert_eq!(one_sided.reserves, vec![1_100_000, 1_000_000]);
}

#[test]
fn deposit_errors() {
    let mut pool = empty_pool();
    assert_eq!(pool.provide_liquidity(1_000, &vec![0, 0]), Err(ContractError::InvalidZeroAmount));
    assert_eq!(
        pool.provide_liquidity(1_000, &vec![100, 0]),
        Err(ContractError::InvalidProvideLPsWithSingleToken)
    );
    assert_eq!(
        pool.provide_liquidity(1_000, &vec![100, 100]),
        Err(ContractError::MinimumLiquidityAmountError)
    );
    assert_eq!(
        pool.provide_liquidity(1_000, &vec![1, 2, 3]),
        Err(ContractError::TooManyAssets { max: 2, provided: 3 })
    );
    assert_eq!(pool.reserves, vec![0, 0]);
    assert_eq!(pool.total_share, 0);
    pool.frozen = true;
    assert_eq!(
        pool.provide_liquidity(1_000, &vec![500_000, 500_000]),
        Err(ContractError::ContractFrozen)
    );
}

#[test]
fn deposit_too_small_for_a_share() {
    let mut pool = million_pool();
    pool.total_share = 1;
    assert_eq!(
        pool.provide_liquidity(1_000, &vec![1, 1]),
        Err(ContractError::LiquidityAmountTooSmall)
    );
    assert_eq!(pool.reserves, vec![1_000_000, 1_000_000]);
}

#[test]
fn swap_near_parity_with_fees() {
    let mut pool = million_pool();
    let res = pool.swap(2_000, 0, 1, 10_000, None, None, true).unwrap();
    let dy = res.return_amount + res.commission_amount;
    assert_eq!(res.return_amount, 9_970);
    assert_eq!(res.commission_amount, 30);
    assert_eq!(res.protocol_fee_amount, 4);
    assert!(res.return_amount < 10_000);
    assert!(res.return_amount > 9_900);
    assert!(dy <= 10_000 && dy > 9_990);
    assert_eq!(res.commission_amount, dy * 30 / 10_000);
    assert_eq!(res.protocol_fee_amount, res.commission_amount * 1_660 / 10_000);
    assert_eq!(res.spread_amount, 10_000 - dy);
    assert_eq!(
        pool.reserves,
        vec![1_010_000, 1_000_000 - res.return_amount - res.protocol_fee_amount]
    );
}

#[test]
fn simulation_matches_the_swap() {
    let mut pool = million_pool();
    let simulated = pool.query_simulation(2_000, 1, 0, 25_000).unwrap();
    let done = pool.swap(2_000, 1, 0, 25_000, None, None, true).unwrap();
    assert_eq!(simulated, done);
}

#[test]
fn swap_with_fees_does_not_lower_the_invariant() {
    let mut pool = million_pool();
    let before = compute_d(10_000, &pool.reserves).unwrap();
    pool.swap(2_000, 0, 1, 200_000, None, None, true).unwrap();
    let after = compute_d(10_000, &pool.reserves).unwrap();
    assert!(after >= before);
}

#[test]
fn swap_between_precisions() {
    let mut pool = PoolState::new(vec![6, 8], 100, FEES, 0, 0).unwrap();
    pool.provide_liquidity(0, &vec![1_000_000, 100_000_000]).unwrap();
    let res = pool.swap(0, 0, 1, 1_000, None, None, true).unwrap();
    let dy = res.return_amount + res.commission_amount;
    assert!(dy <= 100_000 && dy > 99_000);
}

#[test]
fn swap_errors() {
    let mut pool = PoolState::new(vec![6, 6], 100, FEES, 0, 5_000).unwrap();
    assert_eq!(
        pool.swap(4_999, 0, 1, 10, None, None, true),
        Err(ContractError::TradingNotStarted)
    );
    assert_eq!(pool.swap(5_000, 0, 1, 10, None, None, true), Err(ContractError::InsufficientLiquidity));
    pool.provide_liquidity(5_000, &vec![1_000_000, 1_000_000]).unwrap();
    assert_eq!(pool.swap(5_000, 0, 0, 10, None, None, true), Err(ContractError::InvalidAsset));
    assert_eq!(pool.swap(5_000, 0, 2, 10, None, None, true), Err(ContractError::InvalidAsset));
    assert_eq!(pool.swap(5_000, 0, 1, 0, None, None, true), Err(ContractError::InsufficientLiquidity));
    pool.frozen = true;
    assert_eq!(pool.swap(5_000, 0, 1, 10, None, None, true), Err(ContractError::ContractFrozen));
    assert_eq!(pool.reserves, vec![1_000_000, 1_000_000]);
}

#[test]
fn swap_spread_bound() {
    let mut pool = million_pool();
    let one = DECIMAL_FRACTIONAL;
    let belief = one + one / 100;
    assert_eq!(
        pool.swap(2_000, 0, 1, 10_000, Some(belief), Some(one / 200), true),
        Err(ContractError::MaxSpreadAssertion)
    );
    assert_eq!(pool.reserves, vec![1_000_000, 1_000_000]);
    let res = pool.swap(2_000, 0, 1, 10_000, Some(belief), Some(one / 50), true);
    assert!(res.is_ok());
    let res = million_pool().swap(2_000, 0, 1, 10_000, Some(one), Some(0), true);
    assert!(res.is_ok());
    let res = million_pool().swap(2_000, 0, 1, 10_000, None, Some(0), true);
    assert!(res.is_ok());
}

#[test]
fn balanced_withdrawal() {
    let mut pool = million_pool();
    let (burn, paid) = pool.withdraw_liquidity(3_000, 1_000_000, &vec![]).unwrap();
    assert_eq!(burn, 1_000_000);
    assert_eq!(paid, vec![500_000, 500_000]);
    assert_eq!(pool.reserves, vec![500_000, 500_000]);
    assert_eq!(pool.total_share, 1_000_000);
    assert_eq!(pool.get_share_in_assets(1_000), vec![500, 500]);
}

#[test]
fn imbalanced_withdrawal_burns_a_rounded_up_share() {
    let mut pool = million_pool();
    let (burn, paid) = pool.withdraw_liquidity(3_000, 1_000_000, &vec![10_000]).unwrap();
    assert_eq!(paid, vec![10_000, 0]);
    assert!(burn > 10_000 && burn < 10_200);
    assert_eq!(pool.reserves, vec![990_000, 1_000_000]);
    assert_eq!(pool.total_share, 2_000_000 - burn);
}

#[test]
fn withdrawal_errors() {
    let mut pool = million_pool();
    assert_eq!(
        pool.withdraw_liquidity(3_000, 2_000_001, &vec![]),
        Err(ContractError::InvalidWithdrawAmount)
    );
    assert_eq!(pool.withdraw_liquidity(3_000, 0, &vec![]), Err(ContractError::InvalidWithdrawAmount));
    assert_eq!(
        pool.withdraw_liquidity(3_000, 1_000_000, &vec![1_000_001, 0]),
        Err(ContractError::InvalidWithdrawAmount)
    );
    assert_eq!(
        pool.withdraw_liquidity(3_000, 1, &vec![10_000, 0]),
        Err(ContractError::NotEnoughLpTokens)
    );
    assert_eq!(
        pool.withdraw_liquidity(3_000, 1_000, &vec![1, 1, 1]),
        Err(ContractError::TooManyAssets { max: 2, provided: 3 })
    );
    assert_eq!(pool.reserves, vec![1_000_000, 1_000_000]);
    assert_eq!(pool.total_share, 2_000_000);
}

#[test]
fn prices_accumulate_over_time() {
    let mut pool = million_pool();
    assert_eq!(pool.accumulate_prices(0), Ok(false));
    let p01 = pool.relative_price(100, 0, 1).unwrap();
    let p10 = pool.relative_price(100, 1, 0).unwrap();
    assert!(p01 > 0 && p01 < 1_000_000);
    assert_eq!(pool.accumulate_prices(100), Ok(true));
    assert_eq!(pool.block_time_last, 100);
    assert_eq!(pool.cumulative_prices, vec![(0, 1, 100 * p01), (1, 0, 100 * p10)]);
    assert_eq!(pool.accumulate_prices(100), Ok(false));
    assert_eq!(pool.accumulate_prices(150), Ok(true));
    assert_eq!(pool.cumulative_prices, vec![(0, 1, 150 * p01), (1, 0, 150 * p10)]);
}

#[test]
fn prices_stay_while_a_reserve_is_empty() {
    let mut pool = empty_pool();
    assert_eq!(pool.accumulate_prices(100), Ok(true));
    assert_eq!(pool.block_time_last, 100);
    assert_eq!(pool.cumulative_prices, vec![(0, 1, 0), (1, 0, 0)]);
    assert_eq!(pool.relative_price(100, 0, 1), Err(ContractError::InsufficientLiquidity));
}

#[test]
fn ramp_through_the_pool_schedule() {
    let mut pool = million_pool();
    assert_eq!(pool.amp.start_ramp(1_000 + 86_400, 200, 1_000 + 3 * 86_400), Ok(()));
    let early = pool.query_simulation(1_000 + 86_400, 0, 1, 100_000).unwrap();
    let late = pool.query_simulation(1_000 + 3 * 86_400, 0, 1, 100_000).unwrap();
    assert!(late.return_amount >= early.return_amount);
}

#[test]
fn reverse_simulation_finds_the_offer() {
    let pool = million_pool();
    let rev = pool.query_reverse_simulation(2_000, 0, 1, 9_970).unwrap();
    assert_eq!(rev.commission_amount, 30);
    assert!(rev.offer_amount >= 10_000 && rev.offer_amount <= 10_010);
    assert_eq!(rev.spread_amount, rev.offer_amount - 10_000);
    let mut swapped = million_pool();
    let res = swapped.swap(2_000, 0, 1, rev.offer_amount, None, None, true).unwrap();
    assert!(res.return_amount >= 9_969);
}

#[test]
fn reverse_simulation_errors() {
    let pool = million_pool();
    assert_eq!(
        pool.query_reverse_simulation(2_000, 0, 1, 1_000_000),
        Err(ContractError::InsufficientLiquidity)
    );
    assert_eq!(
        pool.query_reverse_simulation(2_000, 1, 1, 10),
        Err(ContractError::InvalidAsset)
    );
}

#[test]
fn simulations_without_liquidity_or_amount_are_zero() {
    let zero_rev = ReverseSimulation { offer_amount: 0, spread_amount: 0, commission_amount: 0 };
    let zero_swap = SwapResult {
        return_amount: 0,
        spread_amount: 0,
        commission_amount: 0,
        protocol_fee_amount: 0,
    };
    let pool = million_pool();
    assert_eq!(pool.query_reverse_simulation(2_000, 0, 1, 0), Ok(zero_rev));
    assert_eq!(pool.query_simulation(2_000, 0, 1, 0), Ok(zero_swap));
    let empty = empty_pool();
    assert_eq!(empty.query_reverse_simulation(2_000, 0, 1, 10), Ok(zero_rev));
    assert_eq!(empty.query_simulation(2_000, 0, 1, 10), Ok(zero_swap));
    assert_eq!(empty.query_simulation(2_000, 1, 1, 10), Err(ContractError::InvalidAsset));
    assert_eq!(empty.query_reverse_simulation(2_000, 0, 2, 10), Err(ContractError::InvalidAsset));
}

#[test]
fn share_query_with_nothing_outstanding_is_zero() {
    let empty = empty_pool();
    assert_eq!(empty.get_share_in_assets(0), vec![0, 0]);
    let pool = million_pool();
    assert_eq!(pool.get_share_in_assets(0), vec![0, 0]);
}

#[test]
fn without_a_fee_address_the_whole_fee_stays_in_the_pool() {
    let mut pool = million_pool();
    let res = pool.swap(2_000, 0, 1, 10_000, None, None, false).unwrap();
    assert_eq!(res.commission_amount, 30);
    assert_eq!(res.protocol_fee_amount, 0);
    assert_eq!(pool.reserves, vec![1_010_000, 1_000_000 - res.return_amount]);
}

#[test]
fn well_formedness_can_be_checked() {
    let mut pool = million_pool();
    assert!(pool.is_well_formed());
    pool.greatest_precision = 5;
    assert!(!pool.is_well_formed());
    let mut pool = million_pool();
    pool.cumulative_prices.push((1, 1, 0));
    assert!(!pool.is_well_formed());
    let mut pool = million_pool();
    pool.reserves.push(5);
    assert!(!pool.is_well_formed());
    let mut pool = million_pool();
    pool.fee_config.total_fee_bps = 10_001;
    assert!(!pool.is_well_formed());
}

#[test]
fn fee_update_respects_the_freeze() {
    let mut pool = million_pool();
    let fees = FeeConfig { total_fee_bps: 100, protocol_fee_bps: 0 };
    assert_eq!(pool.update_fees(fees), Ok(()));
    assert_eq!(pool.fee_config, fees);
    let res = pool.query_simulation(2_000, 0, 1, 10_000).unwrap();
    assert_eq!(res.commission_amount, 100);
    assert_eq!(res.protocol_fee_amount, 0);
    pool.frozen = true;
    assert_eq!(pool.update_fees(FEES), Err(ContractError::ContractFrozen));
    assert_eq!(pool.fee_config, fees);
}

#[test]
fn protocol_fee_share() {
    let ask = AssetInfoValidated::SmartToken("uusd".to_string());
    let fee = calculate_protocol_fee(ask.clone(), 30, 1_660).unwrap();
    assert_eq!(fee.amount, 4);
    assert_eq!(fee.info, ask);
    assert_eq!(calculate_protocol_fee(ask.clone(), 5, 1_660), None);
    assert_eq!(calculate_protocol_fee(ask, 30, 0), None);
}

#[test]
fn amounts_at_the_top_of_the_range_are_refused_not_wrapped() {
    let half = u128::MAX / 2;
    let mut pool = PoolState::new(vec![0, 0], 100, FEES, 0, 0).unwrap();
    let share = pool.provide_liquidity(0, &vec![half, half]).unwrap();
    assert_eq!(share, 2 * half - MINIMUM_LIQUIDITY_AMOUNT);
    assert_eq!(pool.swap(0, 0, 1, half + 2, None, None, true), Err(ContractError::Overflow));
    assert_eq!(pool.provide_liquidity(0, &vec![half + 2, 0]), Err(ContractError::Overflow));
    assert_eq!(pool.reserves, vec![half, half]);
    assert_eq!(pool.total_share, 2 * half);
}
