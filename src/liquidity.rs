//! Liquidity: deposits and withdrawals, balanced or not, with the imbalance
//! fee that keeps them from being used to trade around the swap fee.

use crate::error::ContractError;
use crate::factory::BPS_DENOMINATOR;
use crate::pool::{
    add_all, diff_seq, norm_ok, norm_seq, normalize_all, pad, padded, sub_all, sum_ok, sum_seq,
    PoolState, MINIMUM_LIQUIDITY_AMOUNT,
};
use crate::precision::{adjusted, lemma_adjusted_monotone};
use crate::solver::{compute_d, narrowed, solve_d};
use crate::wide::{wide_limit, Wide};
use vstd::prelude::*;

verus! {

/// The imbalance fee charged on a balance that became `new_i` where the
/// invariant went from `d_old` to `d_new`: the pool's swap fee scaled by
/// `n / (4·(n − 1))`, on the distance from the proportional balance
/// `d_new · old_i / d_old`.
pub open spec fn imbalance_fee(new_i: int, old_i: int, d_new: int, d_old: int, fee_bps: int, n: int) -> int {
    let ideal = d_new * old_i / d_old;
    let diff = if ideal > new_i {
        ideal - new_i
    } else {
        new_i - ideal
    };
    diff * (fee_bps * n) / (4 * BPS_DENOMINATOR * (n - 1))
}

/// Whether no imbalance fee exceeds the balance it is charged on.
pub open spec fn fee_ok(new: Seq<u128>, old: Seq<u128>, d_new: int, d_old: int, fee_bps: int) -> bool {
    forall|i: int|
        0 <= i < new.len() ==> #[trigger] imbalance_fee(
            new[i] as int,
            old[i] as int,
            d_new,
            d_old,
            fee_bps,
            new.len() as int,
        ) <= new[i]
}

/// The balances with their imbalance fees taken off.
pub open spec fn fee_seq(new: Seq<u128>, old: Seq<u128>, d_new: int, d_old: int, fee_bps: int) -> Seq<u128> {
    Seq::new(
        new.len(),
        |i: int|
            (new[i] - imbalance_fee(
                new[i] as int,
                old[i] as int,
                d_new,
                d_old,
                fee_bps,
                new.len() as int,
            )) as u128,
    )
}

/// Takes the imbalance fee off every balance of `new`.
fn apply_imbalance_fee(
    new: &Vec<u128>,
    old: &Vec<u128>,
    d_new: u128,
    d_old: u128,
    fee_bps: u16,
) -> (r: Result<Vec<u128>, ContractError>)
    requires
        new@.len() == old@.len(),
        new@.len() >= 2,
        d_old > 0,
    ensures
        r.is_ok() <==> fee_ok(new@, old@, d_new as int, d_old as int, fee_bps as int),
        r.is_ok() ==> r.unwrap()@ == fee_seq(new@, old@, d_new as int, d_old as int, fee_bps as int),
        r.is_err() ==> r == Err::<Vec<u128>, _>(ContractError::Overflow),
{
    let n = new.len();
    let ghost nn = n as int;
    let dn = Wide::from_u128(d_new);
    let dd = Wide::from_u128(d_old);
    proof {
        assert(fee_bps * nn < wide_limit() && 4 * BPS_DENOMINATOR * (nn - 1) < wide_limit()
            && 4 * BPS_DENOMINATOR * (nn - 1) > 0) by (nonlinear_arith)
            requires
                2 <= nn <= u64::MAX,
                fee_bps <= u16::MAX,
                wide_limit() == (u128::MAX + 1) * (u128::MAX + 1),
        ;
    }
    let rate_num = Wide::from_u128(fee_bps as u128).checked_mul(&Wide::from_u128(n as u128)).unwrap();
    let rate_den = Wide::from_u128(4 * BPS_DENOMINATOR as u128).checked_mul(
        &Wide::from_u128((n - 1) as u128),
    ).unwrap();
    let mut out: Vec<u128> = Vec::new();
    let mut i: usize = 0;
    while i < n
        invariant
            n == new@.len(),
            n == old@.len(),
            n >= 2,
            nn == n,
            i <= n,
            d_old > 0,
            dn.value() == d_new,
            dd.value() == d_old,
            rate_num.value() == fee_bps * nn,
            rate_den.value() == 4 * BPS_DENOMINATOR * (nn - 1),
            rate_den.value() > 0,
            out@.len() == i,
            forall|j: int|
                0 <= j < i ==> #[trigger] imbalance_fee(
                    new@[j] as int,
                    old@[j] as int,
                    d_new as int,
                    d_old as int,
                    fee_bps as int,
                    nn,
                ) <= new@[j],
            forall|j: int|
                0 <= j < i ==> out@[j] == new@[j] - imbalance_fee(
                    new@[j] as int,
                    old@[j] as int,
                    d_new as int,
                    d_old as int,
                    fee_bps as int,
                    nn,
                ),
        decreases n - i,
    {
        let x_new = Wide::from_u128(new[i]);
        let x_old = Wide::from_u128(old[i]);
        proof {
            assert(d_new * old@[i as int] < wide_limit()) by (nonlinear_arith)
                requires
                    d_new <= u128::MAX,
                    old@[i as int] <= u128::MAX,
                    wide_limit() == (u128::MAX + 1) * (u128::MAX + 1),
            ;
            vstd::arithmetic::div_mod::lemma_div_is_ordered_by_denominator(
                d_new * old@[i as int],
                1,
                d_old as int,
            );
        }
        let ideal = dn.checked_mul_ratio(&x_old, &dd).unwrap();
        let diff = if x_new.lt(&ideal) {
            ideal.checked_sub(&x_new).unwrap()
        } else {
            x_new.checked_sub(&ideal).unwrap()
        };
        let fee = match diff.checked_mul_ratio(&rate_num, &rate_den) {
            Some(f) => f,
            None => {
                assert(diff.value() * rate_num.value() / rate_den.value() >= wide_limit());
                assert(ideal.value() == d_new * old@[i as int] / d_old as int);
                assert(new@[i as int] < wide_limit()) by (nonlinear_arith)
                    requires
                        new@[i as int] <= u128::MAX,
                        wide_limit() == (u128::MAX + 1) * (u128::MAX + 1),
                ;
                assert(imbalance_fee(
                    new@[i as int] as int,
                    old@[i as int] as int,
                    d_new as int,
                    d_old as int,
                    fee_bps as int,
                    nn,
                ) > new@[i as int]);
                return Err(ContractError::Overflow);
            },
        };
        if x_new.lt(&fee) {
            assert(imbalance_fee(
                new@[i as int] as int,
                old@[i as int] as int,
                d_new as int,
                d_old as int,
                fee_bps as int,
                nn,
            ) > new@[i as int]);
            return Err(ContractError::Overflow);
        }
        let adjusted_balance = x_new.checked_sub(&fee).unwrap();
        let v = adjusted_balance.to_u128().unwrap();
        out.push(v);
        i = i + 1;
    }
    assert(out@ =~= fee_seq(new@, old@, d_new as int, d_old as int, fee_bps as int));
    Ok(out)
}

/// `total · (d_after − d_before) / d_before` (zero when `D` did not grow).
pub open spec fn minted_share(total: int, d_after: int, d_before: int) -> int {
    total * (if d_after > d_before {
        d_after - d_before
    } else {
        0
    }) / d_before
}

fn share_for(total: u128, d_after: u128, d_before: u128) -> (r: Result<u128, ContractError>)
    requires
        d_before > 0,
    ensures
        r.is_ok() <==> minted_share(total as int, d_after as int, d_before as int) <= u128::MAX,
        r.is_ok() ==> r.unwrap() == minted_share(total as int, d_after as int, d_before as int),
        r.is_err() ==> r == Err::<u128, _>(ContractError::Overflow),
{
    let growth: u128 = if d_after > d_before {
        d_after - d_before
    } else {
        0
    };
    proof {
        assert(total * growth < wide_limit()) by (nonlinear_arith)
            requires
                total <= u128::MAX,
                growth <= u128::MAX,
                wide_limit() == (u128::MAX + 1) * (u128::MAX + 1),
        ;
        vstd::arithmetic::div_mod::lemma_div_is_ordered_by_denominator(
            total * growth,
            1,
            d_before as int,
        );
    }
    let q = Wide::from_u128(total).checked_mul_ratio(
        &Wide::from_u128(growth),
        &Wide::from_u128(d_before),
    ).unwrap();
    match q.to_u128() {
        Some(v) => Ok(v),
        None => Err(ContractError::Overflow),
    }
}

/// A deposit that keeps every balance in proportion to the invariant
/// (`new_i · D_before == D_after · old_i` for every asset) is charged no
/// imbalance fee: the fee-adjusted balances are the new balances themselves,
/// and the shares minted are `total · D_after / D_before − total` exactly.
pub proof fn lemma_balanced_deposit_fee_free(
    new: Seq<u128>,
    old: Seq<u128>,
    d_after: int,
    d_before: int,
    fee_bps: int,
    total: int,
)
    requires
        new.len() == old.len(),
        new.len() >= 2,
        d_before > 0,
        total >= 0,
        0 <= fee_bps,
        forall|i: int| 0 <= i < new.len() ==> #[trigger] new[i] * d_before == d_after * old[i],
    ensures
        fee_ok(new, old, d_after, d_before, fee_bps),
        fee_seq(new, old, d_after, d_before, fee_bps) == new,
        d_after >= d_before ==> minted_share(total, d_after, d_before) == total * d_after / d_before
            - total,
{
    assert forall|i: int| 0 <= i < new.len() implies #[trigger] imbalance_fee(
        new[i] as int,
        old[i] as int,
        d_after,
        d_before,
        fee_bps,
        new.len() as int,
    ) == 0 by {
        assert(d_after * old[i] == new[i] * d_before);
        vstd::arithmetic::div_mod::lemma_div_by_multiple(new[i] as int, d_before);
        let n = new.len() as int;
        assert(0 * (fee_bps * n) == 0);
        assert(4 * BPS_DENOMINATOR * (n - 1) > 0) by (nonlinear_arith)
            requires
                n >= 2,
                BPS_DENOMINATOR == 10_000,
        ;
        vstd::arithmetic::div_mod::lemma_basic_div(0, 4 * BPS_DENOMINATOR * (n - 1));
    }
    assert(fee_seq(new, old, d_after, d_before, fee_bps) =~= new);
    if d_after < d_before {
        return;
    }
    vstd::arithmetic::div_mod::lemma_fundamental_div_mod(total * d_after, d_before);
    let q = total * d_after / d_before;
    let r = total * d_after % d_before;
    assert(total * (d_after - d_before) == d_before * (q - total) + r) by (nonlinear_arith)
        requires
            total * d_after == d_before * q + r,
    ;
    vstd::arithmetic::div_mod::lemma_fundamental_div_mod_converse(
        total * (d_after - d_before),
        d_before,
        q - total,
        r,
    );
}

/// In a pool with shares outstanding, an accepted deposit whose normalised
/// balances stay in proportion to the invariant (`new_i · D_before == D_after ·
/// old_i`) pays no imbalance fee and mints exactly
/// `total · D_after / D_before − total` shares.
pub proof fn lemma_balanced_deposit_shares(pool: PoolState, now: u64, deposits: Seq<u128>)
    requires
        pool.wf(),
        pool.total_share > 0,
        pool.provide_share(now, deposits).is_ok(),
        forall|i: int|
            0 <= i < pool.n() ==> #[trigger] pool.deposit_balances(deposits)[i] * pool.invariant_of(
                now,
                pool.normalized(),
            ) == pool.invariant_of(now, pool.deposit_balances(deposits)) * pool.normalized()[i],
    ensures
        pool.provide_share(now, deposits) == Ok::<u128, ContractError>(
            (pool.total_share * pool.invariant_of(now, pool.deposit_balances(deposits))
                / pool.invariant_of(now, pool.normalized()) - pool.total_share) as u128,
        ),
{
    let old = pool.normalized();
    let new = pool.deposit_balances(deposits);
    let d0 = pool.invariant_of(now, old);
    let d1 = pool.invariant_of(now, new);
    let fee_bps = pool.fee_config.total_fee_bps as int;
    assert(new.len() == old.len());
    lemma_balanced_deposit_fee_free(new, old, d1, d0, fee_bps, pool.total_share as int);
    if d1 < d0 {
        assert(minted_share(pool.total_share as int, d1, d0) == 0) by {
            vstd::arithmetic::div_mod::lemma_basic_div(0, d0);
            assert(pool.total_share * 0 == 0);
        }
    }
}

/// The shares burned for a withdrawal that lowers the invariant from
/// `d_before` to `d_after`: `total · (d_before − d_after) / d_before`, plus one
/// so that rounding never favours the one who withdraws.
pub open spec fn burned_share(total: int, d_before: int, d_after: int) -> int {
    total * (d_before - d_after) / d_before + 1
}

fn burn_for(total: u128, d_before: u128, d_after: u128) -> (r: Option<u128>)
    requires
        0 < d_before,
        d_after <= d_before,
    ensures
        r.is_some() <==> burned_share(total as int, d_before as int, d_after as int) <= u128::MAX,
        r.is_some() ==> r.unwrap() == burned_share(total as int, d_before as int, d_after as int),
{
    let drop = d_before - d_after;
    proof {
        assert(total * drop <= total * d_before) by (nonlinear_arith)
            requires
                drop <= d_before,
                total >= 0,
        ;
        assert(total * d_before == d_before * total) by (nonlinear_arith);
        vstd::arithmetic::div_mod::lemma_multiply_divide_le(
            total * drop,
            d_before as int,
            total as int,
        );
        vstd::arithmetic::div_mod::lemma_div_is_ordered(0, total * drop, d_before as int);
        assert(total < wide_limit()) by (nonlinear_arith)
            requires
                total <= u128::MAX,
                wide_limit() == (u128::MAX + 1) * (u128::MAX + 1),
        ;
    }
    let q = Wide::from_u128(total).checked_mul_ratio(
        &Wide::from_u128(drop),
        &Wide::from_u128(d_before),
    ).unwrap();
    let v = q.to_u128().unwrap();
    if v == u128::MAX {
        None
    } else {
        Some(v + 1)
    }
}

impl PoolState {
    /// The shares a deposit of `deposits` (missing entries are zero) mints to
    /// the depositor at time `now`, before the state update is checked.
    pub open spec fn provide_share(self, now: u64, deposits: Seq<u128>) -> Result<u128, ContractError> {
        let n = self.n();
        let g = self.greatest_precision;
        let dep = padded(deposits, n);
        let amp = self.amp.amp_at(now as int);
        if self.frozen {
            Err(ContractError::ContractFrozen)
        } else if deposits.len() > n {
            Err(ContractError::TooManyAssets { max: n as usize, provided: deposits.len() as usize })
        } else if forall|i: int| 0 <= i < n ==> dep[i] == 0 {
            Err(ContractError::InvalidZeroAmount)
        } else if exists|i: int| 0 <= i < n && dep[i] == 0 && self.reserves@[i] == 0 {
            Err(ContractError::InvalidProvideLPsWithSingleToken)
        } else if !norm_ok(self.reserves@, self.precisions@, g) || !norm_ok(
            dep,
            self.precisions@,
            g,
        ) {
            Err(ContractError::Overflow)
        } else {
            let old = self.normalized();
            let dn = norm_seq(dep, self.precisions@, g);
            if !sum_ok(old, dn) {
                Err(ContractError::Overflow)
            } else {
                let new = sum_seq(old, dn);
                match narrowed(solve_d(amp, old)) {
                    Err(e) => Err(e),
                    Ok(d0) => match narrowed(solve_d(amp, new)) {
                        Err(e) => Err(e),
                        Ok(d1) => if self.total_share == 0 {
                            if d1 <= MINIMUM_LIQUIDITY_AMOUNT {
                                Err(ContractError::MinimumLiquidityAmountError)
                            } else {
                                Ok((d1 - MINIMUM_LIQUIDITY_AMOUNT) as u128)
                            }
                        } else if d0 == 0 {
                            Err(ContractError::InsufficientLiquidity)
                        } else if !fee_ok(
                            new,
                            old,
                            d1 as int,
                            d0 as int,
                            self.fee_config.total_fee_bps as int,
                        ) {
                            Err(ContractError::Overflow)
                        } else {
                            let adj = fee_seq(
                                new,
                                old,
                                d1 as int,
                                d0 as int,
                                self.fee_config.total_fee_bps as int,
                            );
                            match narrowed(solve_d(amp, adj)) {
                                Err(e) => Err(e),
                                Ok(d2) => {
                                    let share = minted_share(
                                        self.total_share as int,
                                        d2 as int,
                                        d0 as int,
                                    );
                                    if share > u128::MAX {
                                        Err(ContractError::Overflow)
                                    } else if share == 0 {
                                        Err(ContractError::LiquidityAmountTooSmall)
                                    } else {
                                        Ok(share as u128)
                                    }
                                },
                            }
                        },
                    },
                }
            }
        }
    }

    /// The normalised balances after a deposit of `deposits`.
    pub open spec fn deposit_balances(self, deposits: Seq<u128>) -> Seq<u128> {
        sum_seq(
            self.normalized(),
            norm_seq(padded(deposits, self.n()), self.precisions@, self.greatest_precision),
        )
    }

    /// The invariant `D` of normalised balances `xs` at time `now`, where it
    /// is defined.
    pub open spec fn invariant_of(self, now: u64, xs: Seq<u128>) -> int {
        narrowed(solve_d(self.amp.amp_at(now as int), xs)).unwrap() as int
    }

    /// LP shares locked for good by a deposit into this pool.
    pub open spec fn locked_share(self) -> int {
        if self.total_share == 0 {
            MINIMUM_LIQUIDITY_AMOUNT as int
        } else {
            0
        }
    }

    /// A deposit as `provide_liquidity` performs it.
    pub open spec fn provide_check(self, now: u64, deposits: Seq<u128>) -> Result<u128, ContractError> {
        match self.provide_share(now, deposits) {
            Err(e) => Err(e),
            Ok(share) => if !sum_ok(self.reserves@, padded(deposits, self.n()))
                || self.total_share + self.locked_share() + share > u128::MAX {
                Err(ContractError::Overflow)
            } else {
                Ok(share)
            },
        }
    }

    /// Deposits `deposits` (already received; missing entries are zero) and
    /// returns the LP shares minted for the depositor. The first deposit also
    /// locks `MINIMUM_LIQUIDITY_AMOUNT` shares for good.
    pub fn provide_liquidity(&mut self, now: u64, deposits: &Vec<u128>) -> (r: Result<
        u128,
        ContractError,
    >)
        requires
            old(self).wf(),
        ensures
            r == old(self).provide_check(now, deposits@),
            r.is_err() ==> old(self).moved_to(*final(self), old(self).reserves@, old(self).total_share),
            r.is_ok() ==> old(self).moved_to(
                *final(self),
                sum_seq(old(self).reserves@, padded(deposits@, old(self).n())),
                (old(self).total_share + old(self).locked_share() + r.unwrap()) as u128,
            ),
            final(self).wf(),
    {
        let n = self.reserves.len();
        let g = self.greatest_precision;
        if self.frozen {
            return Err(ContractError::ContractFrozen);
        }
        if deposits.len() > n {
            return Err(ContractError::TooManyAssets { max: n, provided: deposits.len() });
        }
        let dep = pad(deposits, n);
        let mut i: usize = 0;
        let mut any_nonzero = false;
        while i < n
            invariant
                i <= n,
                dep@.len() == n,
                any_nonzero == exists|j: int| 0 <= j < i && dep@[j] != 0,
            decreases n - i,
        {
            if dep[i] != 0 {
                any_nonzero = true;
            }
            i = i + 1;
        }
        if !any_nonzero {
            return Err(ContractError::InvalidZeroAmount);
        }
        let mut i: usize = 0;
        while i < n
            invariant
                i <= n,
                n == self.n(),
                dep@.len() == n,
                forall|j: int| 0 <= j < i ==> !(dep@[j] == 0 && self.reserves@[j] == 0),
                self.wf(),
                !self.frozen,
                deposits@.len() <= n,
                dep@ == padded(deposits@, n as int),
                exists|j: int| 0 <= j < n && dep@[j] != 0,
            decreases n - i,
        {
            if dep[i] == 0 && self.reserves[i] == 0 {
                return Err(ContractError::InvalidProvideLPsWithSingleToken);
            }
            i = i + 1;
        }
        let old_norm = match normalize_all(&self.reserves, &self.precisions, g) {
            Ok(v) => v,
            Err(e) => {
                return Err(e);
            },
        };
        let dep_norm = match normalize_all(&dep, &self.precisions, g) {
            Ok(v) => v,
            Err(e) => {
                return Err(e);
            },
        };
        let new_norm = match add_all(&old_norm, &dep_norm) {
            Ok(v) => v,
            Err(e) => {
                return Err(e);
            },
        };
        let amp = self.amp.current_amp(now);
        let d0 = match compute_d(amp, &old_norm) {
            Ok(v) => v,
            Err(e) => {
                return Err(e);
            },
        };
        let d1 = match compute_d(amp, &new_norm) {
            Ok(v) => v,
            Err(e) => {
                return Err(e);
            },
        };
        let locked: u128;
        let share: u128;
        if self.total_share == 0 {
            if d1 <= MINIMUM_LIQUIDITY_AMOUNT {
                return Err(ContractError::MinimumLiquidityAmountError);
            }
            locked = MINIMUM_LIQUIDITY_AMOUNT;
            share = d1 - MINIMUM_LIQUIDITY_AMOUNT;
        } else {
            if d0 == 0 {
                return Err(ContractError::InsufficientLiquidity);
            }
            let adj = match apply_imbalance_fee(
                &new_norm,
                &old_norm,
                d1,
                d0,
                self.fee_config.total_fee_bps,
            ) {
                Ok(v) => v,
                Err(e) => {
                    return Err(e);
                },
            };
            let d2 = match compute_d(amp, &adj) {
                Ok(v) => v,
                Err(e) => {
                    return Err(e);
                },
            };
            let s = match share_for(self.total_share, d2, d0) {
                Ok(v) => v,
                Err(e) => {
                    return Err(e);
                },
            };
            if s == 0 {
                return Err(ContractError::LiquidityAmountTooSmall);
            }
            locked = 0;
            share = s;
        }
        assert(share == self.provide_share(now, deposits@).unwrap());
        let new_reserves = match add_all(&self.reserves, &dep) {
            Ok(v) => v,
            Err(e) => {
                return Err(e);
            },
        };
        if self.total_share > u128::MAX - locked || share > u128::MAX - locked
            - self.total_share {
            return Err(ContractError::Overflow);
        }
        self.reserves = new_reserves;
        self.total_share = self.total_share + locked + share;
        Ok(share)
    }

    /// A withdrawal as `withdraw_liquidity` performs it: `(burned shares,
    /// amounts paid out)`.
    pub open spec fn withdraw_check(self, now: u64, lp_amount: u128, assets: Seq<u128>) -> Result<
        (u128, Seq<u128>),
        ContractError,
    > {
        let n = self.n();
        let g = self.greatest_precision;
        let amp = self.amp.amp_at(now as int);
        let fee_bps = self.fee_config.total_fee_bps as int;
        if assets.len() == 0 {
            if lp_amount == 0 || lp_amount > self.total_share {
                Err(ContractError::InvalidWithdrawAmount)
            } else {
                Ok((lp_amount, self.share_in_assets(lp_amount)))
            }
        } else if assets.len() > n {
            Err(ContractError::TooManyAssets { max: n as usize, provided: assets.len() as usize })
        } else {
            let w = padded(assets, n);
            if exists|i: int| 0 <= i < n && w[i] > self.reserves@[i] {
                Err(ContractError::InvalidWithdrawAmount)
            } else if !norm_ok(self.reserves@, self.precisions@, g) {
                Err(ContractError::Overflow)
            } else {
                let old = self.normalized();
                let new = diff_seq(old, norm_seq(w, self.precisions@, g));
                match narrowed(solve_d(amp, old)) {
                    Err(e) => Err(e),
                    Ok(d0) => match narrowed(solve_d(amp, new)) {
                        Err(e) => Err(e),
                        Ok(d1) => if d0 == 0 {
                            Err(ContractError::InsufficientLiquidity)
                        } else if !fee_ok(new, old, d1 as int, d0 as int, fee_bps) {
                            Err(ContractError::Overflow)
                        } else {
                            match narrowed(
                                solve_d(amp, fee_seq(new, old, d1 as int, d0 as int, fee_bps)),
                            ) {
                                Err(e) => Err(e),
                                Ok(d2) => if d2 > d0 {
                                    Err(ContractError::Overflow)
                                } else {
                                    let burn = burned_share(
                                        self.total_share as int,
                                        d0 as int,
                                        d2 as int,
                                    );
                                    if burn > lp_amount {
                                        Err(ContractError::NotEnoughLpTokens)
                                    } else if burn > self.total_share {
                                        Err(ContractError::InvalidWithdrawAmount)
                                    } else {
                                        Ok((burn as u128, w))
                                    }
                                },
                            }
                        },
                    },
                }
            }
        }
    }

    /// Each reserve's part for `amount` of the outstanding shares, truncated;
    /// zeros when no shares are outstanding.
    pub open spec fn share_in_assets(self, amount: u128) -> Seq<u128> {
        Seq::new(
            self.reserves@.len(),
            |i: int|
                if self.total_share == 0 {
                    0u128
                } else {
                    (self.reserves@[i] * amount / self.total_share as int) as u128
                },
        )
    }

    /// Each reserve's part for `amount` of the outstanding shares, truncated.
    pub fn get_share_in_assets(&self, amount: u128) -> (r: Vec<u128>)
        requires
            amount <= self.total_share,
        ensures
            r@ == self.share_in_assets(amount),
            forall|i: int| 0 <= i < r@.len() ==> r@[i] <= self.reserves@[i],
    {
        if self.total_share == 0 {
            let mut zeros: Vec<u128> = Vec::new();
            let mut i: usize = 0;
            while i < self.reserves.len()
                invariant
                    self.total_share == 0,
                    i <= self.reserves@.len(),
                    zeros@.len() == i,
                    forall|j: int| 0 <= j < i ==> zeros@[j] == 0,
                decreases self.reserves@.len() - i,
            {
                zeros.push(0);
                i = i + 1;
            }
            assert(zeros@ =~= self.share_in_assets(amount));
            return zeros;
        }
        let total = Wide::from_u128(self.total_share);
        let amt = Wide::from_u128(amount);
        let mut out: Vec<u128> = Vec::new();
        let mut i: usize = 0;
        while i < self.reserves.len()
            invariant
                0 < self.total_share,
                amount <= self.total_share,
                total.value() == self.total_share,
                amt.value() == amount,
                i <= self.reserves@.len(),
                out@.len() == i,
                forall|j: int|
                    0 <= j < i ==> out@[j] == self.reserves@[j] * amount / self.total_share as int,
                forall|j: int| 0 <= j < i ==> out@[j] <= self.reserves@[j],
            decreases self.reserves@.len() - i,
        {
            let x = self.reserves[i];
            proof {
                assert(x * amount <= x * self.total_share) by (nonlinear_arith)
                    requires
                        amount <= self.total_share,
                        x >= 0,
                ;
                assert(x * self.total_share == self.total_share * x) by (nonlinear_arith);
                vstd::arithmetic::div_mod::lemma_multiply_divide_le(
                    x * amount,
                    self.total_share as int,
                    x as int,
                );
                vstd::arithmetic::div_mod::lemma_div_is_ordered(0, x * amount, self.total_share as int);
                assert(x < wide_limit()) by (nonlinear_arith)
                    requires
                        x <= u128::MAX,
                        wide_limit() == (u128::MAX + 1) * (u128::MAX + 1),
                ;
            }
            let part = Wide::from_u128(x).checked_mul_ratio(&amt, &total).unwrap();
            out.push(part.to_u128().unwrap());
            i = i + 1;
        }
        assert(out@ =~= self.share_in_assets(amount));
        out
    }

    /// Withdraws liquidity for `lp_amount` supplied LP shares. With no asset
    /// amounts given, the shares are burned for their part of every reserve.
    /// Otherwise the given amounts (missing entries are zero) are paid out and
    /// the shares they cost, imbalance fee included and rounded up, are burned;
    /// the rest of `lp_amount` stays with the caller. Returns the burned shares
    /// and the amounts paid out.
    pub fn withdraw_liquidity(&mut self, now: u64, lp_amount: u128, assets: &Vec<u128>) -> (r:
        Result<(u128, Vec<u128>), ContractError>)
        requires
            old(self).wf(),
        ensures
            (match r {
                Ok((burn, paid)) => old(self).withdraw_check(now, lp_amount, assets@) == Ok::<
                    (u128, Seq<u128>),
                    ContractError,
                >((burn, paid@)),
                Err(e) => old(self).withdraw_check(now, lp_amount, assets@) == Err::<
                    (u128, Seq<u128>),
                    ContractError,
                >(e),
            }),
            r.is_err() ==> old(self).moved_to(*final(self), old(self).reserves@, old(self).total_share),
            r.is_ok() ==> old(self).moved_to(
                *final(self),
                diff_seq(old(self).reserves@, r.unwrap().1@),
                (old(self).total_share - r.unwrap().0) as u128,
            ),
            final(self).wf(),
    {
        let n = self.reserves.len();
        let g = self.greatest_precision;
        if assets.len() == 0 {
            if lp_amount == 0 || lp_amount > self.total_share {
                return Err(ContractError::InvalidWithdrawAmount);
            }
            let paid = self.get_share_in_assets(lp_amount);
            self.reserves = sub_all(&self.reserves, &paid);
            self.total_share = self.total_share - lp_amount;
            return Ok((lp_amount, paid));
        }
        if assets.len() > n {
            return Err(ContractError::TooManyAssets { max: n, provided: assets.len() });
        }
        let w = pad(assets, n);
        let mut i: usize = 0;
        while i < n
            invariant
                i <= n,
                n == self.n(),
                w@.len() == n,
                forall|j: int| 0 <= j < i ==> w@[j] <= self.reserves@[j],
                self.wf(),
                *self == *old(self),
                0 < assets@.len() <= n,
                w@ == padded(assets@, n as int),
            decreases n - i,
        {
            if w[i] > self.reserves[i] {
                assert(padded(assets@, n as int)[i as int] > self.reserves@[i as int]);
                return Err(ContractError::InvalidWithdrawAmount);
            }
            i = i + 1;
        }
        let old_norm = match normalize_all(&self.reserves, &self.precisions, g) {
            Ok(v) => v,
            Err(e) => {
                return Err(e);
            },
        };
        proof {
            assert forall|j: int| 0 <= j < n implies #[trigger] adjusted(
                w@[j] as int,
                self.precisions@[j] as int,
                g as int,
            ) <= adjusted(self.reserves@[j] as int, self.precisions@[j] as int, g as int) by {
                lemma_adjusted_monotone(
                    w@[j] as int,
                    self.reserves@[j] as int,
                    self.precisions@[j] as int,
                    g as int,
                );
            }
        }
        let w_norm = match normalize_all(&w, &self.precisions, g) {
            Ok(v) => v,
            Err(e) => {
                return Err(e);
            },
        };
        assert forall|j: int| 0 <= j < n implies w_norm@[j] <= old_norm@[j] by {
            lemma_adjusted_monotone(
                w@[j] as int,
                self.reserves@[j] as int,
                self.precisions@[j] as int,
                g as int,
            );
            assert(w_norm@[j] == adjusted(w@[j] as int, self.precisions@[j] as int, g as int));
            assert(old_norm@[j] == adjusted(
                self.reserves@[j] as int,
                self.precisions@[j] as int,
                g as int,
            ));
        }
        let new_norm = sub_all(&old_norm, &w_norm);
        let amp = self.amp.current_amp(now);
        let d0 = match compute_d(amp, &old_norm) {
            Ok(v) => v,
            Err(e) => {
                return Err(e);
            },
        };
        let d1 = match compute_d(amp, &new_norm) {
            Ok(v) => v,
            Err(e) => {
                return Err(e);
            },
        };
        if d0 == 0 {
            return Err(ContractError::InsufficientLiquidity);
        }
        let adj = match apply_imbalance_fee(&new_norm, &old_norm, d1, d0, self.fee_config.total_fee_bps) {
            Ok(v) => v,
            Err(e) => {
                return Err(e);
            },
        };
        let d2 = match compute_d(amp, &adj) {
            Ok(v) => v,
            Err(e) => {
                return Err(e);
            },
        };
        if d2 > d0 {
            return Err(ContractError::Overflow);
        }
        let burn = match burn_for(self.total_share, d0, d2) {
            Some(b) => b,
            None => {
                return Err(ContractError::NotEnoughLpTokens);
            },
        };
        if burn > lp_amount {
            return Err(ContractError::NotEnoughLpTokens);
        }
        if burn > self.total_share {
            return Err(ContractError::InvalidWithdrawAmount);
        }
        self.reserves = sub_all(&self.reserves, &w);
        self.total_share = self.total_share - burn;
        Ok((burn, w))
    }
}

} // verus!
