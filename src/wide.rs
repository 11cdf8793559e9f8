//! 256-bit unsigned values held as big-endian bytes; the arithmetic itself is
//! done by `cosmwasm_std::Uint256`.

use cosmwasm_std::{Uint128, Uint256};
use vstd::prelude::*;

verus! {

/// The number that a big-endian byte sequence stands for.
pub open spec fn be_value(s: Seq<u8>) -> nat
    decreases s.len(),
{
    if s.len() == 0 {
        0
    } else {
        be_value(s.drop_last()) * 256 + s.last() as nat
    }
}

/// 2^128: every `u128` is below it.
pub open spec fn u128_limit() -> int {
    u128::MAX as int + 1
}

/// 2^256: every `Wide` is below it.
pub open spec fn wide_limit() -> int {
    u128_limit() * u128_limit()
}

/// An unsigned 256-bit integer.
#[derive(Clone, Copy)]
pub struct Wide {
    pub be: [u8; 32],
}

impl Wide {
    pub open spec fn value(self) -> nat {
        be_value(self.be@)
    }

    /// Relies on `Uint256::from_u128` and `Uint256::to_be_bytes`: the same number.
    #[verifier::external_body]
    pub(crate) fn from_u128(x: u128) -> (r: Wide)
        ensures
            r.value() == x,
    {
        Wide { be: Uint256::from_u128(x).to_be_bytes() }
    }

    /// Relies on `Uint128::try_from(Uint256)`: the same number when it fits in 128 bits.
    #[verifier::external_body]
    pub(crate) fn to_u128(&self) -> (r: Option<u128>)
        ensures
            r.is_some() <==> self.value() < u128_limit(),
            r.is_some() ==> r.unwrap() == self.value(),
    {
        match Uint128::try_from(Uint256::from_be_bytes(self.be)) {
            Ok(v) => Some(v.u128()),
            Err(_) => None,
        }
    }

    /// Relies on `Uint256::lt` (its `PartialOrd`): the numeric order.
    #[verifier::external_body]
    pub(crate) fn lt(&self, other: &Wide) -> (r: bool)
        ensures
            r == (self.value() < other.value()),
    {
        Uint256::from_be_bytes(self.be) < Uint256::from_be_bytes(other.be)
    }

    /// Relies on `Uint256::checked_add`: the sum, unless it reaches 2^256.
    #[verifier::external_body]
    pub(crate) fn checked_add(&self, other: &Wide) -> (r: Option<Wide>)
        ensures
            r.is_some() <==> self.value() + other.value() < wide_limit(),
            r.is_some() ==> r.unwrap().value() == self.value() + other.value(),
    {
        match Uint256::from_be_bytes(self.be).checked_add(Uint256::from_be_bytes(other.be)) {
            Ok(v) => Some(Wide { be: v.to_be_bytes() }),
            Err(_) => None,
        }
    }

    /// Relies on `Uint256::checked_sub`: the difference, unless it is negative.
    #[verifier::external_body]
    pub(crate) fn checked_sub(&self, other: &Wide) -> (r: Option<Wide>)
        ensures
            r.is_some() <==> other.value() <= self.value(),
            r.is_some() ==> r.unwrap().value() == self.value() - other.value(),
    {
        match Uint256::from_be_bytes(self.be).checked_sub(Uint256::from_be_bytes(other.be)) {
            Ok(v) => Some(Wide { be: v.to_be_bytes() }),
            Err(_) => None,
        }
    }

    /// Relies on `Uint256::checked_mul`: the product, unless it reaches 2^256.
    #[verifier::external_body]
    pub(crate) fn checked_mul(&self, other: &Wide) -> (r: Option<Wide>)
        ensures
            r.is_some() <==> self.value() * other.value() < wide_limit(),
            r.is_some() ==> r.unwrap().value() == self.value() * other.value(),
    {
        match Uint256::from_be_bytes(self.be).checked_mul(Uint256::from_be_bytes(other.be)) {
            Ok(v) => Some(Wide { be: v.to_be_bytes() }),
            Err(_) => None,
        }
    }

    /// Relies on `Uint256::checked_multiply_ratio`: `self * num / den`, floored, with a
    /// 512-bit product; an error when `den` is zero or the quotient reaches 2^256.
    #[verifier::external_body]
    pub(crate) fn checked_mul_ratio(&self, num: &Wide, den: &Wide) -> (r: Option<Wide>)
        ensures
            r.is_some() <==> (den.value() > 0 && self.value() * num.value() / den.value()
                < wide_limit()),
            r.is_some() ==> r.unwrap().value() == self.value() * num.value() / den.value(),
    {
        let a = Uint256::from_be_bytes(self.be);
        match a.checked_multiply_ratio(Uint256::from_be_bytes(num.be), Uint256::from_be_bytes(den.be)) {
            Ok(v) => Some(Wide { be: v.to_be_bytes() }),
            Err(_) => None,
        }
    }
}

} // verus!
