//! Swaps: the amount returned for an offer, the fee split, the spread check,
//! and the reverse question of the offer needed for a wanted return.

use crate::asset::{AssetInfoValidated, AssetValidated};
use crate::error::ContractError;
use crate::factory::BPS_DENOMINATOR;
use crate::pool::{bps_part, norm_ok, normalize_all, PoolState, DECIMAL_FRACTIONAL};
use crate::precision::{
    adjust_precision, adjusted, lemma_adjusted_add, lemma_adjusted_monotone,
    lemma_normalize_round_trip, lemma_scale_down,
};
use crate::solver::{any_zero_except, compute_d, compute_y, has_zero_except, narrowed, solve_d, solve_y};
use crate::wide::{wide_limit, Wide};
use vstd::prelude::*;

verus! {

/// What a swap returns, in raw amounts of the ask asset.
#[derive(Debug, Clone, Copy, PartialEq, Eq, Structural)]
pub struct SwapResult {
    /// Sent to the trader.
    pub return_amount: u128,
    /// The shortfall against a one-to-one exchange.
    pub spread_amount: u128,
    /// The fee kept back from the trader.
    pub commission_amount: u128,
    /// The part of the fee sent to the protocol.
    pub protocol_fee_amount: u128,
}

/// What a reverse simulation reports: the offer that yields a wanted return.
#[derive(Debug, Clone, Copy, PartialEq, Eq, Structural)]
pub struct ReverseSimulation {
    /// Raw amount of the offer asset to send.
    pub offer_amount: u128,
    /// The excess of the offer over the ask amount taken one to one, in the
    /// offer asset's precision.
    pub spread_amount: u128,
    /// The swap fee on the ask side.
    pub commission_amount: u128,
}

/// The ask amount before the swap fee that leaves `ask_amount` after it:
/// `ask_amount / (1 − fee)`, truncated; `ask_amount` itself for a fee of 100%.
pub open spec fn before_commission(ask_amount: u128, fee_bps: int) -> int {
    if fee_bps >= BPS_DENOMINATOR {
        ask_amount as int
    } else {
        ask_amount * BPS_DENOMINATOR / (BPS_DENOMINATOR - fee_bps)
    }
}

impl PoolState {
    /// A swap of `amount` of asset `offer` for asset `ask`, before fees:
    /// `(dy, spread)` in raw amounts of the ask asset. `dy` is the drop of the
    /// ask reserve that keeps the invariant `D`; `spread` is what `dy` falls
    /// short of the offered amount taken one to one.
    pub open spec fn swap_outcome(self, now: u64, offer: int, ask: int, amount: u128) -> Result<
        (u128, u128),
        ContractError,
    > {
        let g = self.greatest_precision;
        let xs = self.normalized();
        let amp = self.amp.amp_at(now as int);
        let o = adjusted(amount as int, self.precisions@[offer] as int, g as int);
        if offer == ask || offer >= self.n() || ask >= self.n() {
            Err(ContractError::InvalidAsset)
        } else if has_zero_except(self.reserves@, self.n()) || amount == 0 {
            Err(ContractError::InsufficientLiquidity)
        } else if !norm_ok(self.reserves@, self.precisions@, g) || o > u128::MAX {
            Err(ContractError::Overflow)
        } else {
            match narrowed(solve_d(amp, xs)) {
                Err(e) => Err(e),
                Ok(d) => if xs[offer] + o > u128::MAX {
                    Err(ContractError::Overflow)
                } else {
                    let moved = xs.update(offer, (xs[offer] + o) as u128);
                    match narrowed(solve_y(amp, moved, ask, d as int)) {
                        Err(e) => Err(e),
                        Ok(y) => if y > xs[ask] {
                            Err(ContractError::Overflow)
                        } else {
                            let dy_norm = xs[ask] - y;
                            let spread_norm = if o > dy_norm {
                                o - dy_norm
                            } else {
                                0
                            };
                            let ask_precision = self.precisions@[ask] as int;
                            Ok(
                                (
                                    adjusted(dy_norm, g as int, ask_precision) as u128,
                                    adjusted(spread_norm, g as int, ask_precision) as u128,
                                ),
                            )
                        },
                    }
                },
            }
        }
    }

    /// The fee split of a swap whose ask reserve drops by `dy`. The protocol's
    /// part is charged only when there is a fee address to send it to;
    /// otherwise the whole fee stays in the pool.
    pub open spec fn with_fees(self, dy: u128, spread: u128, has_fee_address: bool) -> SwapResult {
        let commission = dy * self.fee_config.total_fee_bps / BPS_DENOMINATOR as int;
        let protocol_fee = if has_fee_address {
            commission * self.fee_config.protocol_fee_bps / BPS_DENOMINATOR as int
        } else {
            0
        };
        SwapResult {
            return_amount: (dy - commission) as u128,
            spread_amount: spread,
            commission_amount: commission as u128,
            protocol_fee_amount: protocol_fee as u128,
        }
    }

    /// The normalised ask balance that keeps the invariant `D` after a swap of
    /// `amount` (where the swap computation gets that far).
    pub open spec fn swap_curve_balance(self, now: u64, offer: int, ask: int, amount: u128) -> int {
        let g = self.greatest_precision;
        let xs = self.normalized();
        let amp = self.amp.amp_at(now as int);
        let o = adjusted(amount as int, self.precisions@[offer] as int, g as int);
        let d = narrowed(solve_d(amp, xs)).unwrap();
        let moved = xs.update(offer, (xs[offer] + o) as u128);
        narrowed(solve_y(amp, moved, ask, d as int)).unwrap() as int
    }

    /// A swap as `query_simulation` reports it: all zeros when a reserve is
    /// empty or nothing is offered, else the swap with its fee split (the
    /// protocol's part included).
    pub open spec fn simulation(self, now: u64, offer: int, ask: int, amount: u128) -> Result<
        SwapResult,
        ContractError,
    > {
        if offer == ask || offer >= self.n() || ask >= self.n() {
            Err(ContractError::InvalidAsset)
        } else if has_zero_except(self.reserves@, self.n()) || amount == 0 {
            Ok(
                SwapResult {
                    return_amount: 0,
                    spread_amount: 0,
                    commission_amount: 0,
                    protocol_fee_amount: 0,
                },
            )
        } else {
            match self.swap_outcome(now, offer, ask, amount) {
                Err(e) => Err(e),
                Ok((dy, spread)) => Ok(self.with_fees(dy, spread, true)),
            }
        }
    }

    /// The swap computation: `(dy, spread)` for `amount` of asset `offer`
    /// into asset `ask`, before fees. Exactly `swap_outcome`.
    pub fn compute_swap(&self, now: u64, offer: usize, ask: usize, amount: u128) -> (r: Result<
        (u128, u128),
        ContractError,
    >)
        requires
            self.wf(),
        ensures
            r == self.swap_outcome(now, offer as int, ask as int, amount),
    {
        let n = self.reserves.len();
        if offer == ask || offer >= n || ask >= n {
            return Err(ContractError::InvalidAsset);
        }
        if any_zero_except(&self.reserves, n) || amount == 0 {
            return Err(ContractError::InsufficientLiquidity);
        }
        let g = self.greatest_precision;
        let xs = match normalize_all(&self.reserves, &self.precisions, g) {
            Ok(v) => v,
            Err(e) => {
                return Err(e);
            },
        };
        let o = match adjust_precision(amount, self.precisions[offer], g) {
            Ok(v) => v,
            Err(e) => {
                return Err(e);
            },
        };
        let amp = self.amp.current_amp(now);
        let d = match compute_d(amp, &xs) {
            Ok(v) => v,
            Err(e) => {
                return Err(e);
            },
        };
        if xs[offer] > u128::MAX - o {
            return Err(ContractError::Overflow);
        }
        let mut moved = xs.clone();
        moved[offer] = xs[offer] + o;
        let y = match compute_y(amp, &moved, d, ask) {
            Ok(v) => v,
            Err(e) => {
                return Err(e);
            },
        };
        if y > xs[ask] {
            return Err(ContractError::Overflow);
        }
        let dy_norm = xs[ask] - y;
        let spread_norm = if o > dy_norm {
            o - dy_norm
        } else {
            0
        };
        let ask_precision = self.precisions[ask];
        proof {
            lemma_scale_down(dy_norm as int, g as int, ask_precision as int);
            lemma_scale_down(spread_norm as int, g as int, ask_precision as int);
        }
        let dy = match adjust_precision(dy_norm, g, ask_precision) {
            Ok(v) => v,
            Err(e) => {
                return Err(e);
            },
        };
        let spread = match adjust_precision(spread_norm, g, ask_precision) {
            Ok(v) => v,
            Err(e) => {
                return Err(e);
            },
        };
        Ok((dy, spread))
    }
    /// A swap as `swap` performs it: refused before trading starts, while
    /// frozen, or when the realised spread exceeds the caller's bound.
    pub open spec fn swap_check(
        self,
        now: u64,
        offer: int,
        ask: int,
        amount: u128,
        belief_price: Option<u128>,
        max_spread: Option<u128>,
        has_fee_address: bool,
    ) -> Result<SwapResult, ContractError> {
        if (now as int) < self.trading_starts {
            Err(ContractError::TradingNotStarted)
        } else if self.frozen {
            Err(ContractError::ContractFrozen)
        } else {
            match self.swap_outcome(now, offer, ask, amount) {
                Err(e) => Err(e),
                Ok((dy, spread)) => {
                    let res = self.with_fees(dy, spread, has_fee_address);
                    if spread_exceeded(amount, dy, belief_price, max_spread) {
                        Err(ContractError::MaxSpreadAssertion)
                    } else if self.reserves@[offer] + amount > u128::MAX
                        || res.return_amount + res.protocol_fee_amount > self.reserves@[ask] {
                        Err(ContractError::Overflow)
                    } else {
                        Ok(res)
                    }
                },
            }
        }
    }

    /// The reserves after a swap that returned `res`: the offer comes in, the
    /// returned amount and the protocol fee go out, the rest of the fee stays.
    pub open spec fn reserves_after_swap(self, offer: int, ask: int, amount: u128, res: SwapResult) -> Seq<
        u128,
    > {
        self.reserves@.update(offer, (self.reserves@[offer] + amount) as u128).update(
            ask,
            (self.reserves@[ask] - res.return_amount - res.protocol_fee_amount) as u128,
        )
    }

    /// What a swap of `amount` of asset `offer` for asset `ask` would return
    /// now, fees included. Exactly `simulation`.
    pub fn query_simulation(&self, now: u64, offer: usize, ask: usize, amount: u128) -> (r: Result<
        SwapResult,
        ContractError,
    >)
        requires
            self.wf(),
        ensures
            r == self.simulation(now, offer as int, ask as int, amount),
    {
        let n = self.reserves.len();
        if offer == ask || offer >= n || ask >= n {
            return Err(ContractError::InvalidAsset);
        }
        if any_zero_except(&self.reserves, n) || amount == 0 {
            return Ok(
                SwapResult {
                    return_amount: 0,
                    spread_amount: 0,
                    commission_amount: 0,
                    protocol_fee_amount: 0,
                },
            );
        }
        match self.compute_swap(now, offer, ask, amount) {
            Err(e) => Err(e),
            Ok((dy, spread)) => Ok(self.apply_fees(dy, spread, true)),
        }
    }

    /// Swaps `amount` of asset `offer`, already received, for asset `ask`.
    /// `belief_price` (ask per offer) and `max_spread` are decimals with
    /// `DECIMAL_FRACTIONAL` parts to the unit; the spread is checked only when
    /// both are given. The protocol's part of the fee is charged only when
    /// `has_fee_address`; otherwise it stays in the pool.
    pub fn swap(
        &mut self,
        now: u64,
        offer: usize,
        ask: usize,
        amount: u128,
        belief_price: Option<u128>,
        max_spread: Option<u128>,
        has_fee_address: bool,
    ) -> (r: Result<SwapResult, ContractError>)
        requires
            old(self).wf(),
        ensures
            r == old(self).swap_check(
                now,
                offer as int,
                ask as int,
                amount,
                belief_price,
                max_spread,
                has_fee_address,
            ),
            r.is_err() ==> old(self).moved_to(*final(self), old(self).reserves@, old(self).total_share),
            r.is_ok() ==> old(self).moved_to(
                *final(self),
                old(self).reserves_after_swap(offer as int, ask as int, amount, r.unwrap()),
                old(self).total_share,
            ),
            final(self).wf(),
    {
        if now < self.trading_starts {
            return Err(ContractError::TradingNotStarted);
        }
        if self.frozen {
            return Err(ContractError::ContractFrozen);
        }
        let (dy, spread) = match self.compute_swap(now, offer, ask, amount) {
            Ok(v) => v,
            Err(e) => {
                return Err(e);
            },
        };
        let res = self.apply_fees(dy, spread, has_fee_address);
        if check_spread_exceeded(amount, dy, belief_price, max_spread) {
            return Err(ContractError::MaxSpreadAssertion);
        }
        if self.reserves[offer] > u128::MAX - amount || res.protocol_fee_amount
            > self.reserves[ask] || res.return_amount > self.reserves[ask]
            - res.protocol_fee_amount {
            return Err(ContractError::Overflow);
        }
        let new_offer = self.reserves[offer] + amount;
        let new_ask = self.reserves[ask] - res.return_amount - res.protocol_fee_amount;
        self.reserves[offer] = new_offer;
        self.reserves[ask] = new_ask;
        Ok(res)
    }
    /// The offer of asset `offer` that a swap needs to return `ask_amount` of
    /// asset `ask` after fees: the ask reserve is lowered by the amount before
    /// fees and the offer reserve solved for with the invariant `D` kept.
    pub open spec fn reverse_outcome(self, now: u64, offer: int, ask: int, ask_amount: u128) -> Result<
        ReverseSimulation,
        ContractError,
    > {
        let g = self.greatest_precision;
        let xs = self.normalized();
        let amp = self.amp.amp_at(now as int);
        let fee_bps = self.fee_config.total_fee_bps as int;
        let before = before_commission(ask_amount, fee_bps);
        let bn = adjusted(before, self.precisions@[ask] as int, g as int);
        if offer == ask || offer >= self.n() || ask >= self.n() {
            Err(ContractError::InvalidAsset)
        } else if has_zero_except(self.reserves@, self.n()) || ask_amount == 0 {
            Ok(ReverseSimulation { offer_amount: 0, spread_amount: 0, commission_amount: 0 })
        } else if !norm_ok(self.reserves@, self.precisions@, g) || before > u128::MAX || bn
            > u128::MAX {
            Err(ContractError::Overflow)
        } else if bn >= xs[ask] {
            Err(ContractError::InsufficientLiquidity)
        } else {
            match narrowed(solve_d(amp, xs)) {
                Err(e) => Err(e),
                Ok(d) => {
                    let moved = xs.update(ask, (xs[ask] - bn) as u128);
                    match narrowed(solve_y(amp, moved, offer, d as int)) {
                        Err(e) => Err(e),
                        Ok(y) => if y < xs[offer] {
                            Err(ContractError::Overflow)
                        } else {
                            let offer_norm = y - xs[offer];
                            let spread_norm = if offer_norm > bn {
                                offer_norm - bn
                            } else {
                                0
                            };
                            let offer_precision = self.precisions@[offer] as int;
                            Ok(
                                ReverseSimulation {
                                    offer_amount: adjusted(offer_norm, g as int, offer_precision)
                                        as u128,
                                    spread_amount: adjusted(
                                        spread_norm,
                                        g as int,
                                        offer_precision,
                                    ) as u128,
                                    commission_amount: (before * fee_bps
                                        / BPS_DENOMINATOR as int) as u128,
                                },
                            )
                        },
                    }
                },
            }
        }
    }

    /// The offer of asset `offer` needed to receive `ask_amount` of asset
    /// `ask` after fees. Exactly `reverse_outcome`.
    pub fn query_reverse_simulation(&self, now: u64, offer: usize, ask: usize, ask_amount: u128) -> (r:
        Result<ReverseSimulation, ContractError>)
        requires
            self.wf(),
        ensures
            r == self.reverse_outcome(now, offer as int, ask as int, ask_amount),
    {
        let n = self.reserves.len();
        if offer == ask || offer >= n || ask >= n {
            return Err(ContractError::InvalidAsset);
        }
        if any_zero_except(&self.reserves, n) || ask_amount == 0 {
            return Ok(ReverseSimulation { offer_amount: 0, spread_amount: 0, commission_amount: 0 });
        }
        let g = self.greatest_precision;
        let xs = match normalize_all(&self.reserves, &self.precisions, g) {
            Ok(v) => v,
            Err(e) => {
                return Err(e);
            },
        };
        let fee_bps = self.fee_config.total_fee_bps;
        let before = match before_commission_of(ask_amount, fee_bps) {
            Some(v) => v,
            None => {
                return Err(ContractError::Overflow);
            },
        };
        let bn = match adjust_precision(before, self.precisions[ask], g) {
            Ok(v) => v,
            Err(e) => {
                return Err(e);
            },
        };
        if bn >= xs[ask] {
            return Err(ContractError::InsufficientLiquidity);
        }
        let amp = self.amp.current_amp(now);
        let d = match compute_d(amp, &xs) {
            Ok(v) => v,
            Err(e) => {
                return Err(e);
            },
        };
        let mut moved = xs.clone();
        moved[ask] = xs[ask] - bn;
        let y = match compute_y(amp, &moved, d, offer) {
            Ok(v) => v,
            Err(e) => {
                return Err(e);
            },
        };
        if y < xs[offer] {
            return Err(ContractError::Overflow);
        }
        let offer_norm = y - xs[offer];
        let spread_norm = if offer_norm > bn {
            offer_norm - bn
        } else {
            0
        };
        let offer_precision = self.precisions[offer];
        proof {
            lemma_scale_down(offer_norm as int, g as int, offer_precision as int);
            lemma_scale_down(spread_norm as int, g as int, offer_precision as int);
        }
        let offer_amount = match adjust_precision(offer_norm, g, offer_precision) {
            Ok(v) => v,
            Err(e) => {
                return Err(e);
            },
        };
        let spread_amount = match adjust_precision(spread_norm, g, offer_precision) {
            Ok(v) => v,
            Err(e) => {
                return Err(e);
            },
        };
        Ok(
            ReverseSimulation {
                offer_amount,
                spread_amount,
                commission_amount: bps_part(before, fee_bps),
            },
        )
    }
    /// The fee split of a swap whose ask reserve drops by `dy`.
    pub(crate) fn apply_fees(&self, dy: u128, spread: u128, has_fee_address: bool) -> (r: SwapResult)
        requires
            self.wf(),
        ensures
            r == self.with_fees(dy, spread, has_fee_address),
    {
        let commission = bps_part(dy, self.fee_config.total_fee_bps);
        let protocol_fee = if has_fee_address {
            bps_part(commission, self.fee_config.protocol_fee_bps)
        } else {
            0
        };
        SwapResult {
            return_amount: dy - commission,
            spread_amount: spread,
            commission_amount: commission,
            protocol_fee_amount: protocol_fee,
        }
    }
}

/// A swap never leaves the pool below the curve of its old invariant: in the
/// common precision the offer reserve grows by exactly the offered amount, and
/// the ask reserve keeps at least the balance `y` that holds `D`, the retained
/// fee and the rounding of the payout on top.
pub proof fn lemma_swap_stays_on_or_above_curve(
    pool: PoolState,
    now: u64,
    offer: int,
    ask: int,
    amount: u128,
    belief_price: Option<u128>,
    max_spread: Option<u128>,
    has_fee_address: bool,
)
    requires
        pool.wf(),
        0 <= offer,
        0 <= ask,
        pool.swap_check(now, offer, ask, amount, belief_price, max_spread, has_fee_address).is_ok(),
    ensures
        ({
            let res = pool.swap_check(now, offer, ask, amount, belief_price, max_spread, has_fee_address).unwrap();
            let after = pool.reserves_after_swap(offer, ask, amount, res);
            let g = pool.greatest_precision as int;
            &&& adjusted(after[offer] as int, pool.precisions@[offer] as int, g)
                == pool.normalized()[offer] + adjusted(
                amount as int,
                pool.precisions@[offer] as int,
                g,
            )
            &&& adjusted(after[ask] as int, pool.precisions@[ask] as int, g)
                >= pool.swap_curve_balance(now, offer, ask, amount)
        }),
{
    let res = pool.swap_check(now, offer, ask, amount, belief_price, max_spread, has_fee_address).unwrap();
    let after = pool.reserves_after_swap(offer, ask, amount, res);
    let g = pool.greatest_precision as int;
    let po = pool.precisions@[offer] as int;
    let pa = pool.precisions@[ask] as int;
    let xs = pool.normalized();
    let ra = pool.reserves@[ask] as int;
    let y = pool.swap_curve_balance(now, offer, ask, amount);
    let (dy, spread) = pool.swap_outcome(now, offer, ask, amount).unwrap();
    let dy_norm = xs[ask] - y;
    assert(norm_ok(pool.reserves@, pool.precisions@, pool.greatest_precision));
    lemma_adjusted_monotone(0, pool.reserves@[offer] as int, po, g);
    lemma_adjusted_monotone(0, ra, pa, g);
    assert(adjusted(pool.reserves@[offer] as int, po, g) <= u128::MAX);
    assert(adjusted(ra, pa, g) <= u128::MAX);
    assert(xs[offer] == adjusted(pool.reserves@[offer] as int, po, g));
    assert(xs[ask] == adjusted(ra, pa, g));
    lemma_adjusted_add(pool.reserves@[offer] as int, amount as int, po, g);
    assert(0 <= y <= xs[ask]);
    lemma_scale_down(dy_norm, g, pa);
    assert(dy == adjusted(dy_norm, g, pa));
    lemma_normalize_round_trip(dy_norm, pa, g);
    lemma_normalize_round_trip(ra, pa, g);
    lemma_adjusted_monotone(dy_norm, xs[ask] as int, g, pa);
    assert(dy <= ra);
    let commission = dy * pool.fee_config.total_fee_bps / BPS_DENOMINATOR as int;
    assert(commission <= dy) by {
        assert(dy * pool.fee_config.total_fee_bps <= dy * BPS_DENOMINATOR) by (nonlinear_arith)
            requires
                pool.fee_config.total_fee_bps <= BPS_DENOMINATOR,
                dy >= 0,
        ;
        vstd::arithmetic::div_mod::lemma_multiply_divide_le(
            dy * pool.fee_config.total_fee_bps,
            BPS_DENOMINATOR as int,
            dy as int,
        );
    }
    let protocol = commission * pool.fee_config.protocol_fee_bps / BPS_DENOMINATOR as int;
    assert(0 <= protocol <= commission) by {
        assert(commission * pool.fee_config.protocol_fee_bps <= commission * BPS_DENOMINATOR)
            by (nonlinear_arith)
            requires
                pool.fee_config.protocol_fee_bps <= BPS_DENOMINATOR,
                commission >= 0,
        ;
        vstd::arithmetic::div_mod::lemma_multiply_divide_le(
            commission * pool.fee_config.protocol_fee_bps,
            BPS_DENOMINATOR as int,
            commission,
        );
        vstd::arithmetic::div_mod::lemma_div_is_ordered(
            0,
            commission * pool.fee_config.protocol_fee_bps,
            BPS_DENOMINATOR as int,
        );
    }
    assert(after[ask] >= ra - dy);
    lemma_adjusted_monotone(ra - dy, after[ask] as int, pa, g);
    lemma_adjusted_add(ra - dy, dy as int, pa, g);
}

/// What a trader expected: `amount × belief_price`.
pub open spec fn ideal_output(amount: u128, belief_price: u128) -> int {
    amount * belief_price / DECIMAL_FRACTIONAL as int
}

/// Whether the shortfall of `dy` against the expected output is more than the
/// fraction `max_spread` of that output (checked only when both are given).
pub open spec fn spread_exceeded(
    amount: u128,
    dy: u128,
    belief_price: Option<u128>,
    max_spread: Option<u128>,
) -> bool {
    match (belief_price, max_spread) {
        (Some(p), Some(m)) => {
            let ideal = ideal_output(amount, p);
            let shortfall = if ideal > dy {
                ideal - dy
            } else {
                0
            };
            shortfall * DECIMAL_FRACTIONAL > m * ideal
        },
        _ => false,
    }
}

proof fn lemma_floor_compare(s: int, x: int, k: int)
    requires
        s >= 0,
        x >= 0,
        k > 0,
    ensures
        (s * k > x) == (s > x / k),
{
    vstd::arithmetic::div_mod::lemma_fundamental_div_mod(x, k);
    let q = x / k;
    let r = x % k;
    assert((s * k > k * q + r) == (s > q)) by (nonlinear_arith)
        requires
            0 <= r < k,
            s >= 0,
    ;
}

fn check_spread_exceeded(
    amount: u128,
    dy: u128,
    belief_price: Option<u128>,
    max_spread: Option<u128>,
) -> (r: bool)
    ensures
        r == spread_exceeded(amount, dy, belief_price, max_spread),
{
    match belief_price {
        None => false,
        Some(p) => match max_spread {
            None => false,
            Some(m) => {
                let k = Wide::from_u128(DECIMAL_FRACTIONAL);
                let a = Wide::from_u128(amount);
                let pw = Wide::from_u128(p);
                proof {
                    assert(amount * p < wide_limit()) by (nonlinear_arith)
                        requires
                            amount <= u128::MAX,
                            p <= u128::MAX,
                            wide_limit() == (u128::MAX + 1) * (u128::MAX + 1),
                    ;
                    vstd::arithmetic::div_mod::lemma_div_is_ordered_by_denominator(
                        amount * p,
                        1,
                        DECIMAL_FRACTIONAL as int,
                    );
                }
                let ideal = a.checked_mul_ratio(&pw, &k).unwrap();
                let dw = Wide::from_u128(dy);
                let shortfall = if dw.lt(&ideal) {
                    ideal.checked_sub(&dw).unwrap()
                } else {
                    Wide::from_u128(0)
                };
                proof {
                    lemma_floor_compare(
                        shortfall.value() as int,
                        m * ideal.value(),
                        DECIMAL_FRACTIONAL as int,
                    );
                }
                match Wide::from_u128(m).checked_mul_ratio(&ideal, &k) {
                    None => false,
                    Some(allowed) => allowed.lt(&shortfall),
                }
            },
        },
    }
}

/// `before_commission`, or `None` when it does not fit in 128 bits.
fn before_commission_of(ask_amount: u128, fee_bps: u16) -> (r: Option<u128>)
    ensures
        r.is_some() <==> before_commission(ask_amount, fee_bps as int) <= u128::MAX,
        r.is_some() ==> r.unwrap() == before_commission(ask_amount, fee_bps as int),
{
    if fee_bps >= BPS_DENOMINATOR {
        return Some(ask_amount);
    }
    let den = Wide::from_u128((BPS_DENOMINATOR - fee_bps) as u128);
    proof {
        assert(ask_amount * BPS_DENOMINATOR < wide_limit()) by (nonlinear_arith)
            requires
                ask_amount <= u128::MAX,
                BPS_DENOMINATOR == 10_000,
                wide_limit() == (u128::MAX + 1) * (u128::MAX + 1),
        ;
        vstd::arithmetic::div_mod::lemma_div_is_ordered_by_denominator(
            ask_amount * BPS_DENOMINATOR,
            1,
            (BPS_DENOMINATOR - fee_bps) as int,
        );
    }
    let q = Wide::from_u128(ask_amount).checked_mul_ratio(
        &Wide::from_u128(BPS_DENOMINATOR as u128),
        &den,
    ).unwrap();
    q.to_u128()
}

/// The protocol's part of a swap fee, as an amount of the ask asset; `None`
/// when it rounds to zero.
pub fn calculate_protocol_fee(
    ask_asset: AssetInfoValidated,
    commission_amount: u128,
    protocol_fee_bps: u16,
) -> (r: Option<AssetValidated>)
    requires
        protocol_fee_bps <= BPS_DENOMINATOR,
    ensures
        commission_amount * protocol_fee_bps / BPS_DENOMINATOR as int == 0 ==> r.is_none(),
        commission_amount * protocol_fee_bps / BPS_DENOMINATOR as int > 0 ==> r == Some(
            AssetValidated {
                info: ask_asset,
                amount: (commission_amount * protocol_fee_bps / BPS_DENOMINATOR as int) as u128,
            },
        ),
{
    let fee = bps_part(commission_amount, protocol_fee_bps);
    if fee == 0 {
        None
    } else {
        Some(AssetValidated { info: ask_asset, amount: fee })
    }
}

} // verus!
