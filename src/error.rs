//! Errors of the pool engine.

use vstd::prelude::*;

verus! {

/// Why an operation of the pool was rejected. A rejected operation changes nothing.
#[derive(Debug, Clone, Copy, PartialEq, Eq, Structural)]
pub enum ContractError {
    /// The amplification is zero or above `max_amp`.
    IncorrectAmp { max_amp: u64 },
    /// The ramp target is too far from the current amplification.
    MaxAmpChangeAssertion { max_amp_change: u64 },
    /// The ramp starts too soon after the last one, or is too short.
    MinAmpChangingTimeAssertion { min_amp_changing_time: u64 },
    /// The pool does not hold the number of assets it needs.
    InvalidNumberOfAssets { min: usize, max: usize },
    /// More amounts were given than the pool has assets.
    TooManyAssets { max: usize, provided: usize },
    /// An asset index outside the pool, or offer and ask are the same asset.
    InvalidAsset,
    /// Trading has not started yet.
    TradingNotStarted,
    /// The circuit breaker has frozen the pool.
    ContractFrozen,
    /// Every deposited amount is zero.
    InvalidZeroAmount,
    /// A first deposit left one of the assets empty.
    InvalidProvideLPsWithSingleToken,
    /// The first deposit does not exceed the permanently locked minimum liquidity.
    MinimumLiquidityAmountError,
    /// The deposit is too small to be credited with any share.
    LiquidityAmountTooSmall,
    /// A pool balance, or the offered amount, is zero.
    InsufficientLiquidity,
    /// The realised spread exceeds the caller's bound.
    MaxSpreadAssertion,
    /// An imbalanced withdrawal needs more LP shares than were supplied.
    NotEnoughLpTokens,
    /// The withdrawal asks for more than the pool holds, or for nothing at all.
    InvalidWithdrawAmount,
    /// A value left the range of the fixed-width arithmetic.
    Overflow,
    /// Newton's iteration did not settle within its iteration cap.
    NoConvergence,
}

} // verus!
