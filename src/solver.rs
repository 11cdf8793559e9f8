//! The invariant solver: Newton's method for the StableSwap invariant `D` of a
//! set of balances, and for one balance `y` given `D` and the others.
//!
//! Balances are normalised integers. `amp` is the amplification scaled by
//! `AMP_PRECISION`, so the curve's `A·n^n` is `amp·n^n / AMP_PRECISION`; every
//! formula below is multiplied through by `AMP_PRECISION` so that no fraction of
//! the amplification is lost. Intermediate values are 256-bit; a step whose
//! value leaves that range fails with `Overflow`.

use crate::amp::{valid_scaled_amp, AMP_PRECISION};
use crate::error::ContractError;
use crate::wide::{wide_limit, Wide};
use vstd::prelude::*;

verus! {

/// The iteration cap of both solvers.
pub const MAX_ITERATIONS: u64 = 64;

pub open spec fn power(b: int, e: nat) -> int
    decreases e,
{
    if e == 0 {
        1
    } else {
        b * power(b, (e - 1) as nat)
    }
}

/// Sum of `xs[0..j]`, leaving out index `skip`.
pub open spec fn partial_sum(xs: Seq<u128>, skip: int, j: int) -> int
    decreases j,
{
    if j <= 0 {
        0
    } else {
        partial_sum(xs, skip, j - 1) + if j - 1 == skip {
            0
        } else {
            xs[j - 1] as int
        }
    }
}

/// The sum of all balances.
pub open spec fn balance_sum(xs: Seq<u128>) -> int {
    partial_sum(xs, xs.len() as int, xs.len() as int)
}

/// Starting from `d`, multiplies by `d / (x * n)` with truncation for each
/// balance `x` of `xs[0..j]` but index `skip` (`n` is the number of balances).
/// `None` where a divisor is zero or a value reaches 2^256.
pub open spec fn partial_prod(d: int, xs: Seq<u128>, skip: int, j: int) -> Option<int>
    decreases j,
{
    if j <= 0 {
        Some(d)
    } else {
        match partial_prod(d, xs, skip, j - 1) {
            None => None,
            Some(p) => if j - 1 == skip {
                Some(p)
            } else {
                let den = xs[j - 1] * xs.len();
                if den > 0 && p * d / den < wide_limit() {
                    Some(p * d / den)
                } else {
                    None
                }
            },
        }
    }
}

/// `amp · n^n`: the scaled `A·n^n` of the invariant.
pub open spec fn ann_of(amp: int, n: int) -> int {
    amp * power(n, n as nat)
}

/// One Newton step for `D`:
/// `(Ann·S + n·D_P)·D / ((Ann − 1)·D + (n + 1)·D_P)`, with `D_P = D^(n+1) / (n^n·Πx)`.
pub open spec fn d_step(ann: int, xs: Seq<u128>, d: int) -> Option<int> {
    let n = xs.len() as int;
    match partial_prod(d, xs, n, n) {
        None => None,
        Some(dp) => {
            let num = ann * balance_sum(xs) + dp * (AMP_PRECISION * n);
            let den = (ann - AMP_PRECISION) * d + dp * (AMP_PRECISION * (n + 1));
            if num < wide_limit() && den < wide_limit() && den > 0 && num * d / den
                < wide_limit() {
                Some(num * d / den)
            } else {
                None
            }
        },
    }
}

pub open spec fn close(a: int, b: int) -> bool {
    -1 <= a - b <= 1
}

/// Newton's iteration for `D` from `d`, with `k` steps left.
pub open spec fn d_iterate(ann: int, xs: Seq<u128>, d: int, k: nat) -> Result<int, ContractError>
    decreases k,
{
    if k == 0 {
        Err(ContractError::NoConvergence)
    } else {
        match d_step(ann, xs, d) {
            None => Err(ContractError::Overflow),
            Some(next) => if close(next, d) {
                Ok(next)
            } else {
                d_iterate(ann, xs, next, (k - 1) as nat)
            },
        }
    }
}

pub open spec fn has_zero_except(xs: Seq<u128>, skip: int) -> bool {
    exists|j: int| 0 <= j < xs.len() && j != skip && xs[j] == 0
}

/// The invariant `D` of `xs`: zero for empty reserves, else the end of Newton's
/// iteration from `D = S`.
pub open spec fn solve_d(amp: int, xs: Seq<u128>) -> Result<int, ContractError> {
    let n = xs.len() as int;
    if balance_sum(xs) == 0 {
        Ok(0)
    } else if has_zero_except(xs, n) {
        Err(ContractError::InsufficientLiquidity)
    } else if ann_of(amp, n) >= wide_limit() {
        Err(ContractError::Overflow)
    } else {
        d_iterate(ann_of(amp, n), xs, balance_sum(xs), MAX_ITERATIONS as nat)
    }
}

/// One Newton step for `y` in `y² + (b − D)·y = c`: `(y² + c) / (2y + b − D)`.
pub open spec fn y_step(b: int, c: int, d: int, y: int) -> Option<int> {
    let num = y * y + c;
    if num < wide_limit() && 2 * y + b < wide_limit() && 2 * y + b - d > 0 {
        Some(num / (2 * y + b - d))
    } else {
        None
    }
}

/// Newton's iteration for `y` from `y`, with `k` steps left.
pub open spec fn y_iterate(b: int, c: int, d: int, y: int, k: nat) -> Result<int, ContractError>
    decreases k,
{
    if k == 0 {
        Err(ContractError::NoConvergence)
    } else {
        match y_step(b, c, d, y) {
            None => Err(ContractError::Overflow),
            Some(next) => if close(next, y) {
                Ok(next)
            } else {
                y_iterate(b, c, d, next, (k - 1) as nat)
            },
        }
    }
}

/// The balance at index `i` that, with the other balances of `xs`, has
/// invariant `d`: `b = S' + D/Ann`, `c = D^(n+1) / (n^n·Π'·Ann)` over the other
/// balances, then Newton's iteration from `y = D`.
pub open spec fn solve_y(amp: int, xs: Seq<u128>, i: int, d: int) -> Result<int, ContractError> {
    let n = xs.len() as int;
    let ann = ann_of(amp, n);
    if has_zero_except(xs, i) {
        Err(ContractError::InsufficientLiquidity)
    } else if ann >= wide_limit() {
        Err(ContractError::Overflow)
    } else {
        match partial_prod(d, xs, i, n) {
            None => Err(ContractError::Overflow),
            Some(c0) => {
                let dp = d * AMP_PRECISION;
                let c = c0 * dp / (ann * n);
                let b = partial_sum(xs, i, n) + dp / ann;
                if ann * n >= wide_limit() || c >= wide_limit() || b >= wide_limit() {
                    Err(ContractError::Overflow)
                } else {
                    y_iterate(b, c, d, d, MAX_ITERATIONS as nat)
                }
            },
        }
    }
}

/// A solver result brought back to 128 bits.
pub open spec fn narrowed(r: Result<int, ContractError>) -> Result<u128, ContractError> {
    match r {
        Ok(v) => if v <= u128::MAX {
            Ok(v as u128)
        } else {
            Err(ContractError::Overflow)
        },
        Err(e) => Err(e),
    }
}

proof fn lemma_d_iterate_settled(ann: int, xs: Seq<u128>, d: int, k: nat)
    requires
        d_iterate(ann, xs, d, k).is_ok(),
    ensures
        exists|prev: int|
            d_step(ann, xs, prev) == Some(d_iterate(ann, xs, d, k).unwrap()) && close(
                d_iterate(ann, xs, d, k).unwrap(),
                prev,
            ),
    decreases k,
{
    if let Some(next) = d_step(ann, xs, d) {
        if !close(next, d) {
            lemma_d_iterate_settled(ann, xs, next, (k - 1) as nat);
        }
    }
}

proof fn lemma_y_iterate_settled(b: int, c: int, d: int, y: int, k: nat)
    requires
        y_iterate(b, c, d, y, k).is_ok(),
    ensures
        exists|prev: int|
            y_step(b, c, d, prev) == Some(y_iterate(b, c, d, y, k).unwrap()) && close(
                y_iterate(b, c, d, y, k).unwrap(),
                prev,
            ),
    decreases k,
{
    if let Some(next) = y_step(b, c, d, y) {
        if !close(next, y) {
            lemma_y_iterate_settled(b, c, d, next, (k - 1) as nat);
        }
    }
}

/// A non-zero `D` that the solver returns has settled: it is the Newton step
/// of some iterate from which it differs by at most one unit, so it meets the
/// invariant equation up to the solver's rounding tolerance.
pub proof fn lemma_solved_d_settled(amp: int, xs: Seq<u128>)
    requires
        solve_d(amp, xs).is_ok(),
        balance_sum(xs) > 0,
    ensures
        exists|prev: int|
            d_step(ann_of(amp, xs.len() as int), xs, prev) == Some(solve_d(amp, xs).unwrap())
                && close(solve_d(amp, xs).unwrap(), prev),
{
    lemma_d_iterate_settled(
        ann_of(amp, xs.len() as int),
        xs,
        balance_sum(xs),
        MAX_ITERATIONS as nat,
    );
}

/// A balance `y` that the solver returns has settled in the same sense: it is
/// the Newton step of some iterate from which it differs by at most one unit.
pub proof fn lemma_solved_y_settled(amp: int, xs: Seq<u128>, i: int, d: int)
    requires
        solve_y(amp, xs, i, d).is_ok(),
    ensures
        exists|b: int, c: int, prev: int|
            y_step(b, c, d, prev) == Some(solve_y(amp, xs, i, d).unwrap()) && close(
                solve_y(amp, xs, i, d).unwrap(),
                prev,
            ),
{
    let n = xs.len() as int;
    let ann = ann_of(amp, n);
    let c0 = partial_prod(d, xs, i, n).unwrap();
    let dp = d * AMP_PRECISION;
    let c = c0 * dp / (ann * n);
    let b = partial_sum(xs, i, n) + dp / ann;
    lemma_y_iterate_settled(b, c, d, d, MAX_ITERATIONS as nat);
}

proof fn lemma_partial_sum_bound(xs: Seq<u128>, skip: int, j: int)
    requires
        0 <= j <= xs.len(),
    ensures
        0 <= partial_sum(xs, skip, j) <= j * u128::MAX,
    decreases j,
{
    if j > 0 {
        lemma_partial_sum_bound(xs, skip, j - 1);
    }
}

proof fn lemma_partial_prod_none(d: int, xs: Seq<u128>, skip: int, j: int, k: int)
    requires
        j <= k,
        partial_prod(d, xs, skip, j).is_none(),
    ensures
        partial_prod(d, xs, skip, k).is_none(),
    decreases k - j,
{
    if j < k {
        lemma_partial_prod_none(d, xs, skip, j, k - 1);
    }
}

proof fn lemma_power_grows(b: int, i: nat, j: nat)
    requires
        b >= 1,
        i <= j,
    ensures
        1 <= power(b, i) <= power(b, j),
    decreases j,
{
    if j > i {
        lemma_power_grows(b, i, (j - 1) as nat);
        assert(power(b, (j - 1) as nat) <= b * power(b, (j - 1) as nat)) by (nonlinear_arith)
            requires
                b >= 1,
                power(b, (j - 1) as nat) >= 1,
        ;
    } else if i > 0 {
        lemma_power_grows(b, (i - 1) as nat, (i - 1) as nat);
        assert(1 <= b * power(b, (i - 1) as nat)) by (nonlinear_arith)
            requires
                b >= 1,
                power(b, (i - 1) as nat) >= 1,
        ;
    }
}

/// The sum of `xs`, leaving out index `skip`.
fn wide_sum(xs: &Vec<u128>, skip: usize) -> (r: Wide)
    ensures
        r.value() == partial_sum(xs@, skip as int, xs@.len() as int),
{
    let mut acc = Wide::from_u128(0);
    let mut j: usize = 0;
    while j < xs.len()
        invariant
            j <= xs@.len(),
            acc.value() == partial_sum(xs@, skip as int, j as int),
        decreases xs@.len() - j,
    {
        proof {
            lemma_partial_sum_bound(xs@, skip as int, j as int + 1);
            assert((j + 1) * u128::MAX < wide_limit()) by (nonlinear_arith)
                requires
                    j + 1 <= u64::MAX,
                    wide_limit() == (u128::MAX + 1) * (u128::MAX + 1),
            ;
        }
        if j != skip {
            let x = Wide::from_u128(xs[j]);
            acc = acc.checked_add(&x).unwrap();
        }
        j = j + 1;
    }
    acc
}

/// `partial_prod(d, xs, skip, len)` on 256-bit values.
fn progressive_product(d: &Wide, xs: &Vec<u128>, skip: usize, n: &Wide) -> (r: Option<Wide>)
    requires
        n.value() == xs@.len(),
    ensures
        r.is_some() <==> partial_prod(d.value() as int, xs@, skip as int, xs@.len() as int).is_some(),
        r.is_some() ==> partial_prod(d.value() as int, xs@, skip as int, xs@.len() as int) == Some(
            r.unwrap().value() as int,
        ),
{
    let mut acc = *d;
    let mut j: usize = 0;
    while j < xs.len()
        invariant
            j <= xs@.len(),
            n.value() == xs@.len(),
            partial_prod(d.value() as int, xs@, skip as int, j as int) == Some(acc.value() as int),
        decreases xs@.len() - j,
    {
        if j != skip {
            let x = Wide::from_u128(xs[j]);
            proof {
                assert(x.value() * n.value() < wide_limit()) by (nonlinear_arith)
                    requires
                        x.value() <= u128::MAX,
                        n.value() <= u64::MAX,
                        wide_limit() == (u128::MAX + 1) * (u128::MAX + 1),
                ;
            }
            let den = x.checked_mul(n).unwrap();
            match acc.checked_mul_ratio(d, &den) {
                Some(v) => {
                    acc = v;
                },
                None => {
                    proof {
                        lemma_partial_prod_none(
                            d.value() as int,
                            xs@,
                            skip as int,
                            j as int + 1,
                            xs@.len() as int,
                        );
                    }
                    return None;
                },
            }
        }
        j = j + 1;
    }
    Some(acc)
}

/// `n^n`, or `None` when it reaches 2^256.
fn self_power(n: usize) -> (r: Option<Wide>)
    requires
        n >= 1,
    ensures
        r.is_some() <==> power(n as int, n as nat) < wide_limit(),
        r.is_some() ==> r.unwrap().value() == power(n as int, n as nat),
{
    let base = Wide::from_u128(n as u128);
    let mut acc = Wide::from_u128(1);
    let mut j: usize = 0;
    assert(1 < wide_limit()) by (nonlinear_arith)
        requires
            wide_limit() == (u128::MAX + 1) * (u128::MAX + 1),
    ;
    while j < n
        invariant
            j <= n,
            base.value() == n,
            acc.value() == power(n as int, j as nat),
            acc.value() < wide_limit(),
        decreases n - j,
    {
        assert(base.value() * acc.value() == power(n as int, (j + 1) as nat));
        match base.checked_mul(&acc) {
            Some(v) => {
                acc = v;
            },
            None => {
                proof {
                    lemma_power_grows(n as int, (j + 1) as nat, n as nat);
                }
                return None;
            },
        }
        j = j + 1;
    }
    Some(acc)
}

/// `amp · n^n`, or `None` when it reaches 2^256.
fn ann_wide(amp: u64, n: usize) -> (r: Option<Wide>)
    requires
        n >= 1,
        amp >= 1,
    ensures
        r.is_some() <==> ann_of(amp as int, n as int) < wide_limit(),
        r.is_some() ==> r.unwrap().value() == ann_of(amp as int, n as int),
{
    match self_power(n) {
        None => {
            proof {
                assert(amp * power(n as int, n as nat) >= power(n as int, n as nat))
                    by (nonlinear_arith)
                    requires
                        amp >= 1,
                        power(n as int, n as nat) >= 0,
                ;
            }
            None
        },
        Some(nn) => Wide::from_u128(amp as u128).checked_mul(&nn),
    }
}

/// Whether some balance but the one at `skip` is zero.
pub(crate) fn any_zero_except(xs: &Vec<u128>, skip: usize) -> (r: bool)
    ensures
        r == has_zero_except(xs@, skip as int),
{
    let mut j: usize = 0;
    while j < xs.len()
        invariant
            j <= xs@.len(),
            forall|k: int| 0 <= k < j && k != skip ==> xs@[k] != 0,
        decreases xs@.len() - j,
    {
        if j != skip && xs[j] == 0 {
            return true;
        }
        j = j + 1;
    }
    false
}

/// A 256-bit result brought back to 128 bits.
fn narrow(w: &Wide) -> (r: Result<u128, ContractError>)
    ensures
        r == narrowed(Ok(w.value() as int)),
{
    match w.to_u128() {
        Some(v) => Ok(v),
        None => Err(ContractError::Overflow),
    }
}

/// The invariant `D` of `balances` at scaled amplification `amp`: exactly
/// `solve_d`, narrowed to 128 bits.
pub fn compute_d(amp: u64, balances: &Vec<u128>) -> (r: Result<u128, ContractError>)
    requires
        valid_scaled_amp(amp as int),
    ensures
        r == narrowed(solve_d(amp as int, balances@)),
{
    let ghost xs = balances@;
    let n = balances.len();
    let s = wide_sum(balances, n);
    let zero = Wide::from_u128(0);
    if !zero.lt(&s) {
        return Ok(0);
    }
    if any_zero_except(balances, n) {
        return Err(ContractError::InsufficientLiquidity);
    }
    let ann = match ann_wide(amp, n) {
        Some(a) => a,
        None => {
            return Err(ContractError::Overflow);
        },
    };
    proof {
        lemma_power_grows(n as int, 0, n as nat);
        assert(ann.value() >= AMP_PRECISION) by (nonlinear_arith)
            requires
                ann.value() == amp * power(n as int, n as nat),
                amp >= AMP_PRECISION,
                power(n as int, n as nat) >= 1,
        ;
    }
    let p = Wide::from_u128(AMP_PRECISION as u128);
    let n_w = Wide::from_u128(n as u128);
    let n1_w = Wide::from_u128(n as u128 + 1);
    assert(AMP_PRECISION * (n + 1) < wide_limit() && AMP_PRECISION * n < wide_limit())
        by (nonlinear_arith)
        requires
            n <= u64::MAX,
            wide_limit() == (u128::MAX + 1) * (u128::MAX + 1),
    ;
    let pn = p.checked_mul(&n_w).unwrap();
    let pn1 = p.checked_mul(&n1_w).unwrap();
    let ann_p = ann.checked_sub(&p).unwrap();
    let one = Wide::from_u128(1);
    let mut d = s;
    let mut k: u64 = 0;
    while k < MAX_ITERATIONS
        invariant
            k <= MAX_ITERATIONS,
            xs == balances@,
            n == xs.len(),
            ann.value() == ann_of(amp as int, n as int),
            ann.value() < wide_limit(),
            p.value() == AMP_PRECISION,
            n_w.value() == n,
            pn.value() == AMP_PRECISION * n,
            pn1.value() == AMP_PRECISION * (n + 1),
            ann_p.value() == ann.value() - AMP_PRECISION,
            s.value() == balance_sum(xs),
            one.value() == 1,
            solve_d(amp as int, xs) == d_iterate(
                ann.value() as int,
                xs,
                d.value() as int,
                (MAX_ITERATIONS - k) as nat,
            ),
        decreases MAX_ITERATIONS - k,
    {
        let dp = match progressive_product(&d, balances, n, &n_w) {
            Some(v) => v,
            None => {
                return Err(ContractError::Overflow);
            },
        };
        let num = match ann.checked_mul(&s) {
            Some(a) => match dp.checked_mul(&pn) {
                Some(b) => match a.checked_add(&b) {
                    Some(v) => v,
                    None => {
                        return Err(ContractError::Overflow);
                    },
                },
                None => {
                    return Err(ContractError::Overflow);
                },
            },
            None => {
                return Err(ContractError::Overflow);
            },
        };
        let den = match ann_p.checked_mul(&d) {
            Some(a) => match dp.checked_mul(&pn1) {
                Some(b) => match a.checked_add(&b) {
                    Some(v) => v,
                    None => {
                        return Err(ContractError::Overflow);
                    },
                },
                None => {
                    return Err(ContractError::Overflow);
                },
            },
            None => {
                return Err(ContractError::Overflow);
            },
        };
        let next = match num.checked_mul_ratio(&d, &den) {
            Some(v) => v,
            None => {
                return Err(ContractError::Overflow);
            },
        };
        assert(d_step(ann.value() as int, xs, d.value() as int) == Some(next.value() as int));
        let diff = if d.lt(&next) {
            next.checked_sub(&d).unwrap()
        } else {
            d.checked_sub(&next).unwrap()
        };
        if !one.lt(&diff) {
            return narrow(&next);
        }
        d = next;
        k = k + 1;
    }
    Err(ContractError::NoConvergence)
}

/// The balance at index `target` that gives invariant `d` together with the
/// other balances of `balances` (the value at `target` itself is not read):
/// exactly `solve_y`, narrowed to 128 bits.
pub fn compute_y(amp: u64, balances: &Vec<u128>, d: u128, target: usize) -> (r: Result<
    u128,
    ContractError,
>)
    requires
        valid_scaled_amp(amp as int),
        target < balances@.len(),
    ensures
        r == narrowed(solve_y(amp as int, balances@, target as int, d as int)),
{
    let ghost xs = balances@;
    let n = balances.len();
    if any_zero_except(balances, target) {
        return Err(ContractError::InsufficientLiquidity);
    }
    let ann = match ann_wide(amp, n) {
        Some(a) => a,
        None => {
            return Err(ContractError::Overflow);
        },
    };
    proof {
        lemma_power_grows(n as int, 0, n as nat);
        assert(ann.value() >= AMP_PRECISION) by (nonlinear_arith)
            requires
                ann.value() == amp * power(n as int, n as nat),
                amp >= AMP_PRECISION,
                power(n as int, n as nat) >= 1,
        ;
    }
    let d_w = Wide::from_u128(d);
    let n_w = Wide::from_u128(n as u128);
    let p = Wide::from_u128(AMP_PRECISION as u128);
    let one = Wide::from_u128(1);
    let c0 = match progressive_product(&d_w, balances, target, &n_w) {
        Some(v) => v,
        None => {
            return Err(ContractError::Overflow);
        },
    };
    proof {
        assert(d * AMP_PRECISION < wide_limit()) by (nonlinear_arith)
            requires
                d <= u128::MAX,
                wide_limit() == (u128::MAX + 1) * (u128::MAX + 1),
        ;
    }
    let dp = d_w.checked_mul(&p).unwrap();
    let an = match ann.checked_mul(&n_w) {
        Some(v) => v,
        None => {
            return Err(ContractError::Overflow);
        },
    };
    proof {
        assert(an.value() > 0) by (nonlinear_arith)
            requires
                an.value() == ann.value() * n,
                ann.value() >= AMP_PRECISION,
                n >= 1,
        ;
        assert(dp.value() * 1 == dp.value());
        vstd::arithmetic::div_mod::lemma_div_is_ordered_by_denominator(
            dp.value() as int,
            1,
            ann.value() as int,
        );
        assert(dp.value() as int / 1 == dp.value());
    }
    let c = match c0.checked_mul_ratio(&dp, &an) {
        Some(v) => v,
        None => {
            return Err(ContractError::Overflow);
        },
    };
    let q = dp.checked_mul_ratio(&one, &ann).unwrap();
    let s_rest = wide_sum(balances, target);
    let b = match s_rest.checked_add(&q) {
        Some(v) => v,
        None => {
            return Err(ContractError::Overflow);
        },
    };
    let mut y = d_w;
    let mut k: u64 = 0;
    while k < MAX_ITERATIONS
        invariant
            k <= MAX_ITERATIONS,
            xs == balances@,
            d_w.value() == d,
            one.value() == 1,
            solve_y(amp as int, xs, target as int, d as int) == y_iterate(
                b.value() as int,
                c.value() as int,
                d as int,
                y.value() as int,
                (MAX_ITERATIONS - k) as nat,
            ),
        decreases MAX_ITERATIONS - k,
    {
        let num = match y.checked_mul(&y) {
            Some(a) => match a.checked_add(&c) {
                Some(v) => v,
                None => {
                    return Err(ContractError::Overflow);
                },
            },
            None => {
                return Err(ContractError::Overflow);
            },
        };
        let sum = match y.checked_add(&y) {
            Some(a) => match a.checked_add(&b) {
                Some(v) => v,
                None => {
                    return Err(ContractError::Overflow);
                },
            },
            None => {
                return Err(ContractError::Overflow);
            },
        };
        let den = match sum.checked_sub(&d_w) {
            Some(v) => v,
            None => {
                return Err(ContractError::Overflow);
            },
        };
        proof {
            assert(num.value() * 1 == num.value());
            if den.value() > 0 {
                vstd::arithmetic::div_mod::lemma_div_is_ordered_by_denominator(
                    num.value() as int,
                    1,
                    den.value() as int,
                );
            }
        }
        let next = match num.checked_mul_ratio(&one, &den) {
            Some(v) => v,
            None => {
                return Err(ContractError::Overflow);
            },
        };
        assert(y_step(b.value() as int, c.value() as int, d as int, y.value() as int) == Some(
            next.value() as int,
        ));
        let diff = if y.lt(&next) {
            next.checked_sub(&y).unwrap()
        } else {
            y.checked_sub(&next).unwrap()
        };
        if !one.lt(&diff) {
            return narrow(&next);
        }
        y = next;
        k = k + 1;
    }
    Err(ContractError::NoConvergence)
}

} // verus!
