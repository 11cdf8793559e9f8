//! The state of a stable pool and what its operations share: normalisation of
//! amounts to the common precision and element-wise arithmetic on balances.
//! Every operation computes and checks everything before it writes, so a
//! rejected operation changes nothing.

use crate::amp::{AmpSchedule, AMP_PRECISION, MAX_AMP};
use crate::error::ContractError;
use crate::factory::{FeeConfig, BPS_DENOMINATOR};
use crate::precision::{adjust_precision, adjusted, greatest_precision};
use crate::wide::{wide_limit, Wide};
use vstd::prelude::*;

verus! {

/// LP shares locked for good by the first deposit, so that a pool never
/// returns to an empty state through rounding.
pub const MINIMUM_LIQUIDITY_AMOUNT: u128 = 1_000;

/// Prices and spreads are decimals with this many parts to the unit.
pub const DECIMAL_FRACTIONAL: u128 = 1_000_000_000_000_000_000;

/// The state of one stable pool.
#[derive(Debug, Clone)]
pub struct PoolState {
    /// Decimal precision of each asset.
    pub precisions: Vec<u8>,
    /// Raw reserve of each asset, in its own precision.
    pub reserves: Vec<u128>,
    /// The precision all invariant math is done in: the greatest of `precisions`.
    pub greatest_precision: u8,
    pub amp: AmpSchedule,
    /// LP shares outstanding.
    pub total_share: u128,
    pub fee_config: FeeConfig,
    /// The last time prices were accumulated.
    pub block_time_last: u64,
    /// `(from, to, value)`: the time-weighted sum of the price of asset `from`
    /// in asset `to`, for every ordered pair of distinct assets.
    pub cumulative_prices: Vec<(usize, usize, u128)>,
    /// Swaps are refused before this time.
    pub trading_starts: u64,
    /// Set by the circuit breaker: no swap or deposit while frozen.
    pub frozen: bool,
}

/// Whether every amount fits in 128 bits once rescaled to precision `g`.
pub open spec fn norm_ok(amounts: Seq<u128>, precs: Seq<u8>, g: u8) -> bool {
    forall|i: int|
        0 <= i < amounts.len() ==> #[trigger] adjusted(amounts[i] as int, precs[i] as int, g as int)
            <= u128::MAX
}

/// Every amount rescaled to precision `g`.
pub open spec fn norm_seq(amounts: Seq<u128>, precs: Seq<u8>, g: u8) -> Seq<u128> {
    Seq::new(amounts.len(), |i: int| adjusted(amounts[i] as int, precs[i] as int, g as int) as u128)
}

/// `v` extended with zeros to length `n`.
pub open spec fn padded(v: Seq<u128>, n: int) -> Seq<u128> {
    Seq::new(n as nat, |i: int| if i < v.len() { v[i] } else { 0 })
}

/// Rescales each amount to precision `g`.
pub(crate) fn normalize_all(amounts: &Vec<u128>, precs: &Vec<u8>, g: u8) -> (r: Result<Vec<u128>, ContractError>)
    requires
        amounts@.len() == precs@.len(),
    ensures
        r.is_ok() <==> norm_ok(amounts@, precs@, g),
        r.is_ok() ==> r.unwrap()@ == norm_seq(amounts@, precs@, g),
        r.is_err() ==> r == Err::<Vec<u128>, _>(ContractError::Overflow),
{
    let mut out: Vec<u128> = Vec::new();
    let mut i: usize = 0;
    while i < amounts.len()
        invariant
            i <= amounts@.len(),
            amounts@.len() == precs@.len(),
            out@.len() == i,
            forall|j: int|
                0 <= j < i ==> #[trigger] adjusted(amounts@[j] as int, precs@[j] as int, g as int)
                    <= u128::MAX,
            forall|j: int|
                0 <= j < i ==> out@[j] == adjusted(amounts@[j] as int, precs@[j] as int, g as int),
        decreases amounts@.len() - i,
    {
        match adjust_precision(amounts[i], precs[i], g) {
            Ok(v) => out.push(v),
            Err(e) => {
                return Err(e);
            },
        }
        i = i + 1;
    }
    assert(out@ =~= norm_seq(amounts@, precs@, g));
    Ok(out)
}

/// `v` extended with zeros to length `n`.
pub(crate) fn pad(v: &Vec<u128>, n: usize) -> (r: Vec<u128>)
    requires
        v@.len() <= n,
    ensures
        r@ == padded(v@, n as int),
{
    let mut out: Vec<u128> = Vec::new();
    let mut i: usize = 0;
    while i < n
        invariant
            i <= n,
            v@.len() <= n,
            out@.len() == i,
            forall|j: int| 0 <= j < i ==> out@[j] == (if j < v@.len() { v@[j] } else { 0 }),
        decreases n - i,
    {
        if i < v.len() {
            out.push(v[i]);
        } else {
            out.push(0);
        }
        i = i + 1;
    }
    assert(out@ =~= padded(v@, n as int));
    out
}

impl PoolState {
    pub open spec fn n(self) -> int {
        self.reserves@.len() as int
    }

    pub open spec fn wf(self) -> bool {
        &&& self.n() >= 2
        &&& self.precisions@.len() == self.n()
        &&& forall|i: int| 0 <= i < self.n() ==> self.precisions@[i] <= self.greatest_precision
        &&& self.amp.wf()
        &&& self.fee_config.spec_valid()
        &&& forall|k: int|
            0 <= k < self.cumulative_prices@.len() ==> {
                let (a, b, _) = #[trigger] self.cumulative_prices@[k];
                a < self.n() && b < self.n() && a != b
            }
    }

    /// The reserves in the common precision.
    pub open spec fn normalized(self) -> Seq<u128> {
        norm_seq(self.reserves@, self.precisions@, self.greatest_precision)
    }
    /// `next` is this state with only the reserves and the share total replaced.
    pub open spec fn moved_to(self, next: PoolState, reserves: Seq<u128>, total_share: u128) -> bool {
        &&& next.reserves@ == reserves
        &&& next.total_share == total_share
        &&& next.precisions@ == self.precisions@
        &&& next.greatest_precision == self.greatest_precision
        &&& next.amp == self.amp
        &&& next.fee_config == self.fee_config
        &&& next.block_time_last == self.block_time_last
        &&& next.cumulative_prices@ == self.cumulative_prices@
        &&& next.trading_starts == self.trading_starts
        &&& next.frozen == self.frozen
    }
    /// Whether the state is well formed, as every operation requires: at
    /// least two assets, one precision per reserve and none above the common
    /// one, a valid amplification schedule and fees, and price registers over
    /// pairs of distinct assets of the pool.
    pub fn is_well_formed(&self) -> (r: bool)
        ensures
            r == self.wf(),
    {
        let n = self.reserves.len();
        if n < 2 || self.precisions.len() != n || !self.fee_config.valid_fee_bps() {
            return false;
        }
        let amp = self.amp;
        if amp.init_amp_time > amp.next_amp_time || amp.init_amp < AMP_PRECISION || amp.init_amp
            > MAX_AMP * AMP_PRECISION || amp.next_amp < AMP_PRECISION || amp.next_amp > MAX_AMP
            * AMP_PRECISION {
            return false;
        }
        let mut i: usize = 0;
        while i < n
            invariant
                n == self.reserves@.len(),
                n == self.precisions@.len(),
                i <= n,
                forall|j: int| 0 <= j < i ==> self.precisions@[j] <= self.greatest_precision,
            decreases n - i,
        {
            if self.precisions[i] > self.greatest_precision {
                return false;
            }
            i = i + 1;
        }
        let mut k: usize = 0;
        while k < self.cumulative_prices.len()
            invariant
                n == self.n(),
                k <= self.cumulative_prices@.len(),
                forall|j: int|
                    0 <= j < k ==> {
                        let (a, b, _) = #[trigger] self.cumulative_prices@[j];
                        a < n && b < n && a != b
                    },
            decreases self.cumulative_prices@.len() - k,
        {
            let (a, b, _) = self.cumulative_prices[k];
            if a >= n || b >= n || a == b {
                return false;
            }
            k = k + 1;
        }
        true
    }

    /// A new two-asset pool with empty reserves, created at `now`.
    pub fn new(
        precisions: Vec<u8>,
        amp: u64,
        fee_config: FeeConfig,
        now: u64,
        trading_starts: u64,
    ) -> (r: Result<PoolState, ContractError>)
        requires
            fee_config.spec_valid(),
        ensures
            precisions@.len() != 2 ==> r == Err::<PoolState, _>(
                ContractError::InvalidNumberOfAssets { min: 2, max: 2 },
            ),
            precisions@.len() == 2 && !(0 < amp <= MAX_AMP) ==> r == Err::<PoolState, _>(
                ContractError::IncorrectAmp { max_amp: MAX_AMP },
            ),
            r.is_ok() <==> precisions@.len() == 2 && 0 < amp <= MAX_AMP,
            r.is_ok() ==> {
                let p = r.unwrap();
                &&& p.wf()
                &&& p.precisions@ == precisions@
                &&& p.reserves@ == seq![0u128, 0u128]
                &&& p.greatest_precision == (if precisions@[0] >= precisions@[1] {
                    precisions@[0]
                } else {
                    precisions@[1]
                })
                &&& p.amp == (AmpSchedule {
                    init_amp: (amp * AMP_PRECISION) as u64,
                    init_amp_time: now,
                    next_amp: (amp * AMP_PRECISION) as u64,
                    next_amp_time: now,
                })
                &&& p.total_share == 0
                &&& p.fee_config == fee_config
                &&& p.block_time_last == 0
                &&& p.cumulative_prices@ == seq![(0usize, 1usize, 0u128), (1usize, 0usize, 0u128)]
                &&& p.trading_starts == trading_starts
                &&& !p.frozen
            },
    {
        if precisions.len() != 2 {
            return Err(ContractError::InvalidNumberOfAssets { min: 2, max: 2 });
        }
        let schedule = match AmpSchedule::new(amp, now) {
            Ok(s) => s,
            Err(e) => {
                return Err(e);
            },
        };
        let g = greatest_precision(&precisions);
        let pool = PoolState {
            precisions,
            reserves: vec![0, 0],
            greatest_precision: g,
            amp: schedule,
            total_share: 0,
            fee_config,
            block_time_last: 0,
            cumulative_prices: vec![(0, 1, 0), (1, 0, 0)],
            trading_starts,
            frozen: false,
        };
        assert(pool.reserves@ =~= seq![0u128, 0u128]);
        assert(pool.cumulative_prices@ =~= seq![(0usize, 1usize, 0u128), (1usize, 0usize, 0u128)]);
        Ok(pool)
    }
    /// Replaces the fees of the pool; refused while the pool is frozen.
    pub fn update_fees(&mut self, fee_config: FeeConfig) -> (r: Result<(), ContractError>)
        requires
            old(self).wf(),
            fee_config.spec_valid(),
        ensures
            old(self).frozen ==> r == Err::<(), ContractError>(ContractError::ContractFrozen)
                && *final(self) == *old(self),
            !old(self).frozen ==> r == Ok::<(), ContractError>(()) && *final(self) == (PoolState {
                fee_config,
                ..*old(self)
            }),
            final(self).wf(),
    {
        if self.frozen {
            return Err(ContractError::ContractFrozen);
        }
        self.fee_config = fee_config;
        Ok(())
    }
}

/// Whether every `a[i] + b[i]` fits in 128 bits.
pub open spec fn sum_ok(a: Seq<u128>, b: Seq<u128>) -> bool {
    forall|i: int| 0 <= i < a.len() ==> #[trigger] a[i] + b[i] <= u128::MAX
}

pub open spec fn sum_seq(a: Seq<u128>, b: Seq<u128>) -> Seq<u128> {
    Seq::new(a.len(), |i: int| (a[i] + b[i]) as u128)
}

pub open spec fn diff_seq(a: Seq<u128>, b: Seq<u128>) -> Seq<u128> {
    Seq::new(a.len(), |i: int| (a[i] - b[i]) as u128)
}

/// Element-wise sum.
pub(crate) fn add_all(a: &Vec<u128>, b: &Vec<u128>) -> (r: Result<Vec<u128>, ContractError>)
    requires
        a@.len() == b@.len(),
    ensures
        r.is_ok() <==> sum_ok(a@, b@),
        r.is_ok() ==> r.unwrap()@ == sum_seq(a@, b@),
        r.is_err() ==> r == Err::<Vec<u128>, _>(ContractError::Overflow),
{
    let mut out: Vec<u128> = Vec::new();
    let mut i: usize = 0;
    while i < a.len()
        invariant
            i <= a@.len(),
            a@.len() == b@.len(),
            out@.len() == i,
            forall|j: int| 0 <= j < i ==> #[trigger] a@[j] + b@[j] <= u128::MAX,
            forall|j: int| 0 <= j < i ==> out@[j] == a@[j] + b@[j],
        decreases a@.len() - i,
    {
        if a[i] > u128::MAX - b[i] {
            return Err(ContractError::Overflow);
        }
        out.push(a[i] + b[i]);
        i = i + 1;
    }
    assert(out@ =~= sum_seq(a@, b@));
    Ok(out)
}

/// Element-wise difference, where every `b[i] <= a[i]`.
pub(crate) fn sub_all(a: &Vec<u128>, b: &Vec<u128>) -> (r: Vec<u128>)
    requires
        a@.len() == b@.len(),
        forall|i: int| 0 <= i < a@.len() ==> b@[i] <= a@[i],
    ensures
        r@ == diff_seq(a@, b@),
{
    let mut out: Vec<u128> = Vec::new();
    let mut i: usize = 0;
    while i < a.len()
        invariant
            i <= a@.len(),
            a@.len() == b@.len(),
            forall|j: int| 0 <= j < a@.len() ==> b@[j] <= a@[j],
            out@.len() == i,
            forall|j: int| 0 <= j < i ==> out@[j] == a@[j] - b@[j],
        decreases a@.len() - i,
    {
        out.push(a[i] - b[i]);
        i = i + 1;
    }
    assert(out@ =~= diff_seq(a@, b@));
    out
}

/// `x * bps / 10_000`, truncated.
pub(crate) fn bps_part(x: u128, bps: u16) -> (r: u128)
    requires
        bps <= BPS_DENOMINATOR,
    ensures
        r == x * bps / BPS_DENOMINATOR as int,
        r <= x,
{
    let w = Wide::from_u128(x);
    let b = Wide::from_u128(bps as u128);
    let den = Wide::from_u128(BPS_DENOMINATOR as u128);
    proof {
        assert(x * bps <= x * BPS_DENOMINATOR) by (nonlinear_arith)
            requires
                bps <= BPS_DENOMINATOR,
                x >= 0,
        ;
        vstd::arithmetic::div_mod::lemma_multiply_divide_le(
            x * bps,
            BPS_DENOMINATOR as int,
            x as int,
        );
        vstd::arithmetic::div_mod::lemma_div_is_ordered(0, x * bps, BPS_DENOMINATOR as int);
        assert(x < wide_limit()) by (nonlinear_arith)
            requires
                x <= u128::MAX,
                wide_limit() == (u128::MAX + 1) * (u128::MAX + 1),
        ;
    }
    let q = w.checked_mul_ratio(&b, &den).unwrap();
    q.to_u128().unwrap()
}

} // verus!
