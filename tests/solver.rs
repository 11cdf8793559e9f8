use dex_stable_pool::amp::AMP_PRECISION;
use dex_stable_pool::error::ContractError;
use dex_stable_pool::precision::{adjust_precision, greatest_precision};
use dex_stable_pool::solver::{compute_d, compute_y};

const AMP_100: u64 = 100 * AMP_PRECISION;

#[test]
fn balanced_pool_invariant_is_the_sum() {
    assert_eq!(compute_d(AMP_100, &vec![1_000_000, 1_000_000]), Ok(2_000_000));
}

#[test]
fn empty_pool_invariant_is_zero() {
    assert_eq!(compute_d(AMP_100, &vec![0, 0]), Ok(0));
    assert_eq!(compute_d(AMP_100, &vec![]), Ok(0));
}

#[test]
fn invariant_with_an_empty_reserve_is_refused() {
    assert_eq!(
        compute_d(AMP_100, &vec![0, 5]),
        Err(ContractError::InsufficientLiquidity)
    );
}

#[test]
fn imbalanced_invariant_lies_below_the_sum() {
    let d = compute_d(AMP_100, &vec![1_000_000, 3_000_000]).unwrap();
    assert!(d < 4_000_000);
    assert!(d > 3_900_000);
    let low_amp = compute_d(AMP_PRECISION, &vec![1_000_000, 3_000_000]).unwrap();
    assert!(low_amp < d);
}

#[test]
fn large_balanced_invariant() {
    let x: u128 = 1_000_000_000_000_000_000_000_000_000_000;
    assert_eq!(compute_d(AMP_100, &vec![x, x]), Ok(2 * x));
    assert_eq!(compute_d(1_000_000 * AMP_PRECISION, &vec![1, 1]), Ok(2));
}

#[test]
fn three_asset_balanced_invariant() {
    assert_eq!(compute_d(AMP_100, &vec![500, 500, 500]), Ok(1_500));
}

#[test]
fn solving_for_a_balance_recovers_it() {
    let y = compute_y(AMP_100, &vec![1_000_000, 0], 2_000_000, 1).unwrap();
    assert!(y >= 999_999 && y <= 1_000_001);
    let d = compute_d(AMP_100, &vec![1_000_000, 3_000_000]).unwrap();
    let y = compute_y(AMP_100, &vec![1_000_000, 0], d, 1).unwrap();
    assert!(y >= 2_999_998 && y <= 3_000_002);
}

#[test]
fn solving_for_a_balance_after_a_trade() {
    let y = compute_y(AMP_100, &vec![1_010_000, 1_000_000], 2_000_000, 1).unwrap();
    assert!(y < 1_000_000);
    assert!(y >= 989_000);
}

#[test]
fn solving_with_another_empty_balance_is_refused() {
    assert_eq!(
        compute_y(AMP_100, &vec![0, 7], 10, 1),
        Err(ContractError::InsufficientLiquidity)
    );
}

#[test]
fn precision_scaling() {
    assert_eq!(adjust_precision(12_345, 6, 3), Ok(12));
    assert_eq!(adjust_precision(12, 3, 6), Ok(12_000));
    assert_eq!(adjust_precision(77, 8, 8), Ok(77));
    assert_eq!(adjust_precision(u128::MAX, 0, 1), Err(ContractError::Overflow));
    assert_eq!(adjust_precision(0, 0, 200), Ok(0));
    assert_eq!(adjust_precision(5, 200, 0), Ok(0));
}

#[test]
fn normalisation_round_trip_never_gains() {
    for &(x, p, g) in &[(123_456u128, 6u8, 18u8), (1, 0, 6), (999, 8, 8), (42, 2, 9)] {
        let up = adjust_precision(x, p, g).unwrap();
        assert_eq!(adjust_precision(up, g, p), Ok(x));
        let down = adjust_precision(x, g, p).unwrap();
        assert!(adjust_precision(down, p, g).unwrap() <= x);
    }
}

#[test]
fn greatest_of_precisions() {
    assert_eq!(greatest_precision(&vec![6, 18, 8]), 18);
    assert_eq!(greatest_precision(&vec![]), 0);
    assert_eq!(greatest_precision(&vec![3]), 3);
}

#[test]
fn solver_converges_across_the_supported_range() {
    let big: u128 = 1_000_000_000_000_000_000_000_000_000_000;
    let values = [1u128, 1_000_000_000_000_000, big];
    for &amp in &[AMP_PRECISION, 1_000_000 * AMP_PRECISION] {
        for &x in &values {
            for &z in &values {
                if x == big && z == 1 {
                    // dividing by the huge balance first truncates D_P too much to settle
                    assert_eq!(compute_d(amp, &vec![x, z]), Err(ContractError::NoConvergence));
                    continue;
                }
                let d = compute_d(amp, &vec![x, z]).unwrap();
                assert!(d <= x + z);
                assert!(d > 0);
                let y = compute_y(amp, &vec![x, 0], d, 1);
                if amp == AMP_PRECISION && x == 1 && z == big {
                    // the first Newton step from y = D overshoots the root past 2^128
                    assert_eq!(y, Err(ContractError::Overflow));
                    continue;
                }
                assert!(y.unwrap() > 0);
            }
        }
    }
}

#[test]
fn extreme_imbalance_invariant() {
    let big: u128 = 1_000_000_000_000_000_000_000_000_000_000;
    assert_eq!(compute_d(AMP_PRECISION, &vec![1, big]), Ok(251_984_209_963_100_622_433));
    assert_eq!(compute_d(100_000_000, &vec![big, big - 1]), Ok(2 * big - 1));
    assert_eq!(compute_d(AMP_100, &vec![1_000_000, 3_000_000]), Ok(3_996_691));
}
