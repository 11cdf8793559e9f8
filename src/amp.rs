//! The amplification scheduler: a coefficient that ramps linearly from one
//! value to another between two timestamps.

use crate::error::ContractError;
use vstd::arithmetic::div_mod::{lemma_div_is_ordered, lemma_multiply_divide_le};
use vstd::prelude::*;

verus! {

/// Amplification values are stored multiplied by this factor.
pub const AMP_PRECISION: u64 = 100;

/// The largest amplification (unscaled).
pub const MAX_AMP: u64 = 1_000_000;

/// A ramp may multiply or divide the amplification by at most this factor.
pub const MAX_AMP_CHANGE: u64 = 10;

/// The shortest ramp, and the shortest time between two ramp starts, in seconds.
pub const MIN_AMP_CHANGING_TIME: u64 = 86_400;

/// A linear ramp from `init_amp` at `init_amp_time` to `next_amp` at `next_amp_time`.
/// Both amplifications are scaled by `AMP_PRECISION`.
#[derive(Debug, Clone, Copy, PartialEq, Eq)]
pub struct AmpSchedule {
    pub init_amp: u64,
    pub init_amp_time: u64,
    pub next_amp: u64,
    pub next_amp_time: u64,
}

/// A scaled amplification that a pool may hold.
pub open spec fn valid_scaled_amp(a: int) -> bool {
    AMP_PRECISION <= a <= MAX_AMP * AMP_PRECISION
}

impl AmpSchedule {
    pub open spec fn wf(self) -> bool {
        &&& self.init_amp_time <= self.next_amp_time
        &&& valid_scaled_amp(self.init_amp as int)
        &&& valid_scaled_amp(self.next_amp as int)
    }

    /// The effective amplification at time `now`.
    pub open spec fn amp_at(self, now: int) -> int {
        let init = self.init_amp as int;
        let next = self.next_amp as int;
        if now >= self.next_amp_time {
            next
        } else if now <= self.init_amp_time {
            init
        } else {
            let elapsed = now - self.init_amp_time;
            let range = self.next_amp_time - self.init_amp_time;
            if next > init {
                init + (next - init) * elapsed / range
            } else {
                init - (init - next) * elapsed / range
            }
        }
    }

    /// A constant amplification, set at time `now`.
    pub fn new(amp: u64, now: u64) -> (r: Result<AmpSchedule, ContractError>)
        ensures
            r.is_ok() <==> 0 < amp <= MAX_AMP,
            r.is_err() ==> r == Err::<AmpSchedule, _>(ContractError::IncorrectAmp { max_amp: MAX_AMP }),
            r.is_ok() ==> r.unwrap().wf() && r.unwrap() == (AmpSchedule {
                init_amp: (amp * AMP_PRECISION) as u64,
                init_amp_time: now,
                next_amp: (amp * AMP_PRECISION) as u64,
                next_amp_time: now,
            }),
    {
        if amp == 0 || amp > MAX_AMP {
            return Err(ContractError::IncorrectAmp { max_amp: MAX_AMP });
        }
        let scaled = amp * AMP_PRECISION;
        Ok(AmpSchedule { init_amp: scaled, init_amp_time: now, next_amp: scaled, next_amp_time: now })
    }

    /// The effective amplification at time `now`: the target once the ramp has
    /// ended, else the linear interpolation between the two endpoints.
    pub fn current_amp(&self, now: u64) -> (r: u64)
        requires
            self.wf(),
        ensures
            r == self.amp_at(now as int),
            valid_scaled_amp(r as int),
    {
        proof {
            lemma_amp_between(*self, now as int);
        }
        if now >= self.next_amp_time {
            return self.next_amp;
        }
        if now <= self.init_amp_time {
            return self.init_amp;
        }
        let elapsed = (now - self.init_amp_time) as u128;
        let range = (self.next_amp_time - self.init_amp_time) as u128;
        if self.next_amp > self.init_amp {
            let amp_range = (self.next_amp - self.init_amp) as u128;
            proof {
                lemma_scaled_step(amp_range as int, elapsed as int, range as int);
                assert(amp_range * elapsed <= u128::MAX) by (nonlinear_arith)
                    requires
                        amp_range <= 100_000_000,
                        elapsed <= u64::MAX,
                ;
            }
            let step = amp_range * elapsed / range;
            (self.init_amp as u128 + step) as u64
        } else {
            let amp_range = (self.init_amp - self.next_amp) as u128;
            proof {
                lemma_scaled_step(amp_range as int, elapsed as int, range as int);
                assert(amp_range * elapsed <= u128::MAX) by (nonlinear_arith)
                    requires
                        amp_range <= 100_000_000,
                        elapsed <= u64::MAX,
                ;
            }
            let step = amp_range * elapsed / range;
            (self.init_amp as u128 - step) as u64
        }
    }

    /// Why a ramp to `next_amp` (unscaled) ending at `next_amp_time`, asked for at
    /// `now`, is refused; `Ok` when it is accepted.
    pub open spec fn ramp_check(self, now: int, next_amp: int, next_amp_time: int) -> Result<
        (),
        ContractError,
    > {
        let current = self.amp_at(now);
        let next_scaled = next_amp * AMP_PRECISION;
        if next_amp == 0 || next_amp > MAX_AMP {
            Err(ContractError::IncorrectAmp { max_amp: MAX_AMP })
        } else if next_scaled * MAX_AMP_CHANGE < current || next_scaled > current * MAX_AMP_CHANGE {
            Err(ContractError::MaxAmpChangeAssertion { max_amp_change: MAX_AMP_CHANGE })
        } else if now < self.init_amp_time + MIN_AMP_CHANGING_TIME || next_amp_time < now
            + MIN_AMP_CHANGING_TIME {
            Err(
                ContractError::MinAmpChangingTimeAssertion {
                    min_amp_changing_time: MIN_AMP_CHANGING_TIME,
                },
            )
        } else {
            Ok(())
        }
    }

    /// Starts a ramp at `now` from the current amplification to `next_amp`
    /// (unscaled), reached at `next_amp_time`.
    pub fn start_ramp(&mut self, now: u64, next_amp: u64, next_amp_time: u64) -> (r: Result<
        (),
        ContractError,
    >)
        requires
            old(self).wf(),
        ensures
            r == old(self).ramp_check(now as int, next_amp as int, next_amp_time as int),
            r.is_err() ==> *final(self) == *old(self),
            r.is_ok() ==> *final(self) == (AmpSchedule {
                init_amp: old(self).amp_at(now as int) as u64,
                init_amp_time: now,
                next_amp: (next_amp * AMP_PRECISION) as u64,
                next_amp_time: next_amp_time,
            }),
            final(self).wf(),
    {
        if next_amp == 0 || next_amp > MAX_AMP {
            return Err(ContractError::IncorrectAmp { max_amp: MAX_AMP });
        }
        let current = self.current_amp(now);
        let next_scaled = next_amp * AMP_PRECISION;
        if next_scaled * MAX_AMP_CHANGE < current || next_scaled > current * MAX_AMP_CHANGE {
            return Err(ContractError::MaxAmpChangeAssertion { max_amp_change: MAX_AMP_CHANGE });
        }
        if (now as u128) < self.init_amp_time as u128 + MIN_AMP_CHANGING_TIME as u128
            || (next_amp_time as u128) < now as u128 + MIN_AMP_CHANGING_TIME as u128 {
            return Err(
                ContractError::MinAmpChangingTimeAssertion {
                    min_amp_changing_time: MIN_AMP_CHANGING_TIME,
                },
            );
        }
        *self = AmpSchedule {
            init_amp: current,
            init_amp_time: now,
            next_amp: next_scaled,
            next_amp_time: next_amp_time,
        };
        Ok(())
    }

    /// Ends any ramp at `now`: the amplification stays at its current value.
    pub fn stop_ramp(&mut self, now: u64)
        requires
            old(self).wf(),
        ensures
            *final(self) == (AmpSchedule {
                init_amp: old(self).amp_at(now as int) as u64,
                init_amp_time: now,
                next_amp: old(self).amp_at(now as int) as u64,
                next_amp_time: now,
            }),
            final(self).wf(),
            final(self).amp_at(now as int) == old(self).amp_at(now as int),
    {
        let current = self.current_amp(now);
        *self = AmpSchedule {
            init_amp: current,
            init_amp_time: now,
            next_amp: current,
            next_amp_time: now,
        };
    }
}

/// `a * e / r` lies in `[0, a]` when `e <= r`.
proof fn lemma_scaled_step(a: int, e: int, r: int)
    requires
        0 <= a,
        0 <= e <= r,
        0 < r,
    ensures
        0 <= a * e / r <= a,
        a * e <= a * r,
{
    assert(a * e <= r * a && 0 <= a * e && a * e == e * a && a * r == r * a) by (nonlinear_arith)
        requires
            0 <= a,
            0 <= e <= r,
    ;
    lemma_multiply_divide_le(a * e, r, a);
    lemma_div_is_ordered(0, a * e, r);
}

/// The effective amplification lies between the ramp's two endpoints.
proof fn lemma_amp_between(s: AmpSchedule, now: int)
    requires
        s.wf(),
    ensures
        s.init_amp <= s.next_amp ==> s.init_amp <= s.amp_at(now) <= s.next_amp,
        s.next_amp <= s.init_amp ==> s.next_amp <= s.amp_at(now) <= s.init_amp,
        valid_scaled_amp(s.amp_at(now)),
{
    if now < s.next_amp_time && now > s.init_amp_time {
        let elapsed = now - s.init_amp_time;
        let range = s.next_amp_time - s.init_amp_time;
        if s.next_amp > s.init_amp {
            lemma_scaled_step(s.next_amp - s.init_amp, elapsed, range);
        } else {
            lemma_scaled_step(s.init_amp - s.next_amp, elapsed, range);
        }
    }
}

/// Along a ramp the effective amplification moves monotonically from
/// `init_amp` towards `next_amp`, never leaves the range between them, and
/// equals `next_amp` exactly from `next_amp_time` on.
pub proof fn lemma_ramp_monotonic(s: AmpSchedule, t1: int, t2: int)
    requires
        s.wf(),
        t1 <= t2,
    ensures
        s.init_amp <= s.next_amp ==> s.amp_at(t1) <= s.amp_at(t2),
        s.next_amp <= s.init_amp ==> s.amp_at(t2) <= s.amp_at(t1),
        s.init_amp <= s.next_amp ==> s.init_amp <= s.amp_at(t1) <= s.next_amp,
        s.next_amp <= s.init_amp ==> s.next_amp <= s.amp_at(t1) <= s.init_amp,
        t1 >= s.next_amp_time ==> s.amp_at(t1) == s.next_amp,
{
    lemma_amp_between(s, t1);
    lemma_amp_between(s, t2);
    if t1 > s.init_amp_time && t2 < s.next_amp_time {
        let range = s.next_amp_time - s.init_amp_time;
        let e1 = t1 - s.init_amp_time;
        let e2 = t2 - s.init_amp_time;
        let a = if s.next_amp > s.init_amp {
            s.next_amp - s.init_amp
        } else {
            s.init_amp - s.next_amp
        };
        assert(a * e1 <= a * e2) by (nonlinear_arith)
            requires
                0 <= a,
                e1 <= e2,
        ;
        lemma_div_is_ordered(a * e1, a * e2, range);
    }
}

} // verus!
