//! Price accumulation: the relative price of the pool's assets, and the
//! time-weighted registers kept for each ordered pair of them.

use crate::error::ContractError;
use crate::pool::PoolState;
use crate::precision::{adjust_precision, adjusted};
use crate::solver::{any_zero_except, has_zero_except};
use vstd::prelude::*;

verus! {

impl PoolState {
    /// The price of one whole unit of asset `from` in raw units of asset `to`:
    /// what a swap of that unit would return before fees.
    pub open spec fn price_of(self, now: u64, from: int, to: int) -> Result<u128, ContractError> {
        let unit = adjusted(1, 0, self.precisions@[from] as int);
        if from >= self.n() {
            Err(ContractError::InvalidAsset)
        } else if unit > u128::MAX {
            Err(ContractError::Overflow)
        } else {
            match self.swap_outcome(now, from, to, unit as u128) {
                Err(e) => Err(e),
                Ok((dy, _)) => Ok(dy),
            }
        }
    }

    /// The price of one whole unit of asset `from` in raw units of asset `to`.
    pub fn relative_price(&self, now: u64, from: usize, to: usize) -> (r: Result<u128, ContractError>)
        requires
            self.wf(),
        ensures
            r == self.price_of(now, from as int, to as int),
    {
        if from >= self.reserves.len() {
            return Err(ContractError::InvalidAsset);
        }
        let unit = match adjust_precision(1, 0, self.precisions[from]) {
            Ok(u) => u,
            Err(e) => {
                return Err(e);
            },
        };
        match self.compute_swap(now, from, to, unit) {
            Err(e) => Err(e),
            Ok((dy, _)) => Ok(dy),
        }
    }

    /// The cumulative prices `0..k` after `elapsed` more seconds at the
    /// current prices, each register wrapping around at 2^128.
    pub open spec fn accumulated(self, now: u64, elapsed: int, k: int) -> Result<
        Seq<(usize, usize, u128)>,
        ContractError,
    >
        decreases k,
    {
        if k <= 0 {
            Ok(seq![])
        } else {
            match self.accumulated(now, elapsed, k - 1) {
                Err(e) => Err(e),
                Ok(prefix) => {
                    let (a, b, v) = self.cumulative_prices@[k - 1];
                    match self.price_of(now, a as int, b as int) {
                        Err(e) => Err(e),
                        Ok(p) => if elapsed * p > u128::MAX {
                            Err(ContractError::Overflow)
                        } else {
                            Ok(prefix.push((a, b, ((v + elapsed * p) % (u128::MAX + 1)) as u128)))
                        },
                    }
                },
            }
        }
    }

    /// Brings the cumulative prices up to `now`. `Ok(false)` and no change when
    /// `now` is not after the last accumulation; otherwise the registers grow by
    /// the elapsed time times the current prices (left as they are while a
    /// reserve is empty) and the time of the last accumulation becomes `now`.
    pub fn accumulate_prices(&mut self, now: u64) -> (r: Result<bool, ContractError>)
        requires
            old(self).wf(),
        ensures
            final(self).wf(),
            now <= old(self).block_time_last ==> (r == Ok::<bool, ContractError>(false)
                && *final(self) == *old(self)),
            now > old(self).block_time_last && has_zero_except(old(self).reserves@, old(self).n())
                ==> (r == Ok::<bool, ContractError>(true)
                && final(self).cumulative_prices@ == old(self).cumulative_prices@),
            now > old(self).block_time_last && !has_zero_except(old(self).reserves@, old(self).n())
                ==> (match old(self).accumulated(
                now,
                now - old(self).block_time_last,
                old(self).cumulative_prices@.len() as int,
            ) {
                Err(e) => r == Err::<bool, ContractError>(e) && *final(self) == *old(self),
                Ok(c) => r == Ok::<bool, ContractError>(true) && final(self).cumulative_prices@ == c,
            }),
            r == Ok::<bool, ContractError>(true) ==> final(self).block_time_last == now,
            final(self).reserves@ == old(self).reserves@,
            final(self).precisions@ == old(self).precisions@,
            final(self).greatest_precision == old(self).greatest_precision,
            final(self).amp == old(self).amp,
            final(self).total_share == old(self).total_share,
            final(self).fee_config == old(self).fee_config,
            final(self).trading_starts == old(self).trading_starts,
            final(self).frozen == old(self).frozen,
            final(self).cumulative_prices@.len() == old(self).cumulative_prices@.len(),
    {
        if now <= self.block_time_last {
            return Ok(false);
        }
        let elapsed = (now - self.block_time_last) as u128;
        if !any_zero_except(&self.reserves, self.reserves.len()) {
            let mut updated: Vec<(usize, usize, u128)> = Vec::new();
            let mut k: usize = 0;
            while k < self.cumulative_prices.len()
                invariant
                    self.wf(),
                    *self == *old(self),
                    now > self.block_time_last,
                    !has_zero_except(self.reserves@, self.n()),
                    k <= self.cumulative_prices@.len(),
                    elapsed == now - self.block_time_last,
                    self.accumulated(now, elapsed as int, k as int) == Ok::<
                        Seq<(usize, usize, u128)>,
                        ContractError,
                    >(updated@),
                decreases self.cumulative_prices@.len() - k,
            {
                let (a, b, v) = self.cumulative_prices[k];
                let p = match self.relative_price(now, a, b) {
                    Ok(p) => p,
                    Err(e) => {
                        proof {
                            self.lemma_accumulated_err(
                                now,
                                elapsed as int,
                                k as int + 1,
                                self.cumulative_prices@.len() as int,
                            );
                        }
                        return Err(e);
                    },
                };
                if p != 0 && elapsed > u128::MAX / p {
                    proof {
                        assert(elapsed * p > u128::MAX) by (nonlinear_arith)
                            requires
                                p > 0,
                                elapsed > u128::MAX / p,
                        ;
                        self.lemma_accumulated_err(
                            now,
                            elapsed as int,
                            k as int + 1,
                            self.cumulative_prices@.len() as int,
                        );
                    }
                    return Err(ContractError::Overflow);
                }
                proof {
                    if p != 0 {
                        assert(elapsed * p <= u128::MAX) by (nonlinear_arith)
                            requires
                                p > 0,
                                elapsed <= u128::MAX / p,
                        ;
                    }
                }
                let add = elapsed * p;
                let next = if v > u128::MAX - add {
                    add - (u128::MAX - v) - 1
                } else {
                    v + add
                };
                assert(next == (v + elapsed * p) % (u128::MAX + 1)) by {
                    if v > u128::MAX - add {
                        vstd::arithmetic::div_mod::lemma_mod_sub_multiples_vanish(
                            v + add,
                            u128::MAX + 1,
                        );
                        vstd::arithmetic::div_mod::lemma_small_mod(
                            (v + add - (u128::MAX + 1)) as nat,
                            (u128::MAX + 1) as nat,
                        );
                    } else {
                        vstd::arithmetic::div_mod::lemma_small_mod(
                            (v + add) as nat,
                            (u128::MAX + 1) as nat,
                        );
                    }
                }
                updated.push((a, b, next));
                k = k + 1;
            }
            proof {
                self.lemma_accumulated_len(now, elapsed as int, k as int);
                assert forall|j: int| 0 <= j < updated@.len() implies {
                    let (a, b, _) = #[trigger] updated@[j];
                    a < self.n() && b < self.n() && a != b
                } by {
                    assert(updated@[j].0 == self.cumulative_prices@[j].0);
                    assert(updated@[j].1 == self.cumulative_prices@[j].1);
                }
            }
            self.cumulative_prices = updated;
        }
        self.block_time_last = now;
        Ok(true)
    }

    proof fn lemma_accumulated_err(self, now: u64, elapsed: int, k: int, m: int)
        requires
            0 <= k <= m,
            self.accumulated(now, elapsed, k).is_err(),
        ensures
            self.accumulated(now, elapsed, m) == self.accumulated(now, elapsed, k),
        decreases m - k,
    {
        if k < m {
            self.lemma_accumulated_err(now, elapsed, k, m - 1);
        }
    }

    proof fn lemma_accumulated_len(self, now: u64, elapsed: int, k: int)
        requires
            0 <= k,
            self.accumulated(now, elapsed, k).is_ok(),
        ensures
            self.accumulated(now, elapsed, k).unwrap().len() == k,
            forall|j: int|
                0 <= j < k ==> {
                    let c = #[trigger] self.accumulated(now, elapsed, k).unwrap()[j];
                    c.0 == self.cumulative_prices@[j].0 && c.1 == self.cumulative_prices@[j].1
                },
        decreases k,
    {
        if k > 0 {
            self.lemma_accumulated_len(now, elapsed, k - 1);
        }
    }
}

} // verus!
