//! StableSwap invariant engine: the invariant solver, amplification ramping,
//! precision normalisation, and the swap and liquidity accounting of a
//! multi-asset stable pool.

pub mod wide;
pub mod amp;
pub mod error;
pub mod precision;
pub mod solver;
pub mod asset;
pub mod factory;
pub mod pool;
pub mod swap;
pub mod liquidity;
pub mod oracle;
