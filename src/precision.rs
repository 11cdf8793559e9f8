//! Decimal precisions: the common precision of a pool and the scaling of
//! amounts between an asset's precision and the common one.

use crate::error::ContractError;
use vstd::arithmetic::div_mod::{
    lemma_basic_div, lemma_div_by_multiple, lemma_div_is_ordered, lemma_multiply_divide_le,
};
use vstd::prelude::*;

verus! {

pub open spec fn pow10(k: nat) -> int
    decreases k,
{
    if k == 0 {
        1
    } else {
        10 * pow10((k - 1) as nat)
    }
}

proof fn lemma_pow10_grows(i: nat, j: nat)
    requires
        i <= j,
    ensures
        1 <= pow10(i) <= pow10(j),
    decreases j,
{
    if j > i {
        lemma_pow10_grows(i, (j - 1) as nat);
    } else if i > 0 {
        lemma_pow10_grows((i - 1) as nat, (i - 1) as nat);
    }
}

/// `10^k`, or `None` when it does not fit in a `u128`.
fn pow10_checked(k: u32) -> (r: Option<u128>)
    ensures
        r.is_some() <==> pow10(k as nat) <= u128::MAX,
        r.is_some() ==> r.unwrap() == pow10(k as nat),
{
    let mut p: u128 = 1;
    let mut i: u32 = 0;
    while i < k
        invariant
            i <= k,
            p == pow10(i as nat),
        decreases k - i,
    {
        if p > u128::MAX / 10 {
            proof {
                lemma_pow10_grows((i + 1) as nat, k as nat);
            }
            return None;
        }
        p = p * 10;
        i = i + 1;
    }
    Some(p)
}

/// `value`, written with `current` decimals, rewritten with `new` decimals:
/// multiplied by a power of ten, or divided by one with truncation.
pub open spec fn adjusted(value: int, current: int, new: int) -> int {
    if current <= new {
        value * pow10((new - current) as nat)
    } else {
        value / pow10((current - new) as nat)
    }
}

/// Rescales `value` from `current_precision` decimals to `new_precision`
/// decimals. Scaling down truncates, so it never rounds up.
pub fn adjust_precision(value: u128, current_precision: u8, new_precision: u8) -> (r: Result<
    u128,
    ContractError,
>)
    ensures
        r.is_ok() <==> adjusted(value as int, current_precision as int, new_precision as int)
            <= u128::MAX,
        r.is_ok() ==> r.unwrap() == adjusted(
            value as int,
            current_precision as int,
            new_precision as int,
        ),
        r.is_err() ==> r == Err::<u128, _>(ContractError::Overflow),
{
    if current_precision == new_precision {
        assert(pow10(0) == 1);
        assert(value * 1 == value);
        return Ok(value);
    }
    if current_precision < new_precision {
        let k = (new_precision - current_precision) as u32;
        proof {
            lemma_pow10_grows(0, k as nat);
        }
        if value == 0 {
            return Ok(0);
        }
        match pow10_checked(k) {
            None => {
                assert(value * pow10(k as nat) >= pow10(k as nat)) by (nonlinear_arith)
                    requires
                        value >= 1,
                        pow10(k as nat) >= 1,
                ;
                Err(ContractError::Overflow)
            },
            Some(p) => {
                if value > u128::MAX / p {
                    assert(value * p > u128::MAX) by (nonlinear_arith)
                        requires
                            value > u128::MAX / p,
                            p >= 1,
                    ;
                    Err(ContractError::Overflow)
                } else {
                    assert(value * p <= u128::MAX) by (nonlinear_arith)
                        requires
                            value <= u128::MAX / p,
                            p >= 1,
                    ;
                    Ok(value * p)
                }
            },
        }
    } else {
        let k = (current_precision - new_precision) as u32;
        proof {
            lemma_pow10_grows(0, k as nat);
            lemma_div_is_ordered(0, value as int, pow10(k as nat));
            assert(value <= pow10(k as nat) * value) by (nonlinear_arith)
                requires
                    value >= 0,
                    pow10(k as nat) >= 1,
            ;
            lemma_multiply_divide_le(value as int, pow10(k as nat), value as int);
        }
        match pow10_checked(k) {
            None => {
                proof {
                    lemma_basic_div(value as int, pow10(k as nat));
                }
                Ok(0)
            },
            Some(p) => Ok(value / p),
        }
    }
}

/// Rescaling to fewer decimals never gives more than the value.
pub proof fn lemma_scale_down(value: int, current: int, new: int)
    requires
        0 <= value,
        new <= current,
    ensures
        0 <= adjusted(value, current, new) <= value,
{
    if current == new {
        assert(pow10(0) == 1);
        assert(value * 1 == value);
    } else {
        let k = (current - new) as nat;
        lemma_pow10_grows(0, k);
        assert(value <= pow10(k) * value) by (nonlinear_arith)
            requires
                value >= 0,
                pow10(k) >= 1,
        ;
        lemma_multiply_divide_le(value, pow10(k), value);
        lemma_div_is_ordered(0, value, pow10(k));
    }
}

/// Rescaling keeps the order of amounts.
pub proof fn lemma_adjusted_monotone(a: int, b: int, current: int, new: int)
    requires
        0 <= a <= b,
    ensures
        0 <= adjusted(a, current, new) <= adjusted(b, current, new),
{
    if current <= new {
        let k = (new - current) as nat;
        lemma_pow10_grows(0, k);
        assert(0 <= a * pow10(k) <= b * pow10(k)) by (nonlinear_arith)
            requires
                0 <= a <= b,
                pow10(k) >= 1,
        ;
    } else {
        let k = (current - new) as nat;
        lemma_pow10_grows(0, k);
        lemma_div_is_ordered(a, b, pow10(k));
        lemma_div_is_ordered(0, a, pow10(k));
    }
}

/// Rescaling to more decimals adds up.
pub proof fn lemma_adjusted_add(a: int, b: int, current: int, new: int)
    requires
        current <= new,
    ensures
        adjusted(a + b, current, new) == adjusted(a, current, new) + adjusted(b, current, new),
{
    let p = pow10((new - current) as nat);
    assert((a + b) * p == a * p + b * p) by (nonlinear_arith);
}

/// The greatest of the given precisions (zero for none).
pub fn greatest_precision(precisions: &Vec<u8>) -> (r: u8)
    ensures
        forall|i: int| 0 <= i < precisions@.len() ==> precisions@[i] <= r,
        precisions@.len() == 0 ==> r == 0,
        precisions@.len() > 0 ==> exists|i: int| 0 <= i < precisions@.len() && precisions@[i] == r,
{
    let mut max: u8 = 0;
    let mut i: usize = 0;
    while i < precisions.len()
        invariant
            i <= precisions@.len(),
            forall|j: int| 0 <= j < i ==> precisions@[j] <= max,
            i == 0 ==> max == 0,
            i > 0 ==> exists|j: int| 0 <= j < i && precisions@[j] == max,
        decreases precisions@.len() - i,
    {
        if precisions[i] > max || i == 0 {
            max = precisions[i];
        }
        i = i + 1;
    }
    max
}

/// Normalising an amount to a greater precision and back gives the amount back,
/// so the round trip never gains value; and rescaling a normalised amount down
/// and up again never exceeds it.
pub proof fn lemma_normalize_round_trip(x: int, asset_precision: int, common_precision: int)
    requires
        0 <= x,
        0 <= asset_precision <= common_precision,
    ensures
        adjusted(adjusted(x, asset_precision, common_precision), common_precision, asset_precision)
            == x,
        adjusted(adjusted(x, common_precision, asset_precision), asset_precision, common_precision)
            <= x,
        asset_precision == common_precision ==> adjusted(
            adjusted(x, common_precision, asset_precision),
            asset_precision,
            common_precision,
        ) == x,
{
    let k = (common_precision - asset_precision) as nat;
    lemma_pow10_grows(0, k);
    let p = pow10(k);
    if asset_precision < common_precision {
        assert(x * p == p * x) by (nonlinear_arith);
        lemma_div_by_multiple(x, p);
        assert((x / p) * p <= x) by (nonlinear_arith)
            requires
                p >= 1,
                x >= 0,
        ;
    } else {
        assert(pow10(0) == 1);
    }
}

} // verus!
