//! Division that rounds up, and the bounds that follow from it.
use vstd::arithmetic::div_mod::{lemma_div_minus_one, lemma_fundamental_div_mod};
use vstd::prelude::*;

verus! {

/// `a / b`, rounded up.
pub open spec fn ceil_div(a: int, b: int) -> int
    recommends
        a >= 0,
        b > 0,
{
    (a + b - 1) / b
}

pub open spec fn min(a: int, b: int) -> int {
    if a <= b {
        a
    } else {
        b
    }
}

pub open spec fn max(a: int, b: int) -> int {
    if a >= b {
        a
    } else {
        b
    }
}

/// `ceil_div(a, b)` is the one `q` with `(q - 1) * b < a <= q * b`.
pub proof fn lemma_ceil_div(a: int, b: int)
    requires
        a >= 0,
        b > 0,
    ensures
        (ceil_div(a, b) - 1) * b < a <= ceil_div(a, b) * b,
        0 <= ceil_div(a, b) <= a,
        a > 0 ==> ceil_div(a, b) > 0,
{
    let q = ceil_div(a, b);
    let r = (a + b - 1) % b;
    lemma_fundamental_div_mod(a + b - 1, b);
    assert(a + b - 1 == b * q + r && 0 <= r < b);
    assert((q - 1) * b == b * q - b) by (nonlinear_arith);
    assert(q * b == b * q) by (nonlinear_arith);
    assert(q >= 0) by (nonlinear_arith)
        requires
            b * q > -b,
            b > 0,
    ;
    assert(q <= a) by (nonlinear_arith)
        requires
            b * q - b < a,
            a >= 0,
            b > 0,
    ;
    assert(a > 0 ==> q > 0) by (nonlinear_arith)
        requires
            b * q >= a,
            b > 0,
    ;
}

/// Only the quotient rounded up lies between the bounds.
pub proof fn lemma_ceil_div_unique(a: int, b: int, q: int)
    requires
        a >= 0,
        b > 0,
        (q - 1) * b < a <= q * b,
    ensures
        q == ceil_div(a, b),
{
    let c = ceil_div(a, b);
    lemma_ceil_div(a, b);
    assert(q == c) by (nonlinear_arith)
        requires
            (q - 1) * b < a <= q * b,
            (c - 1) * b < a <= c * b,
            b > 0,
    ;
}

/// Taking one `b` away takes one off the quotient.
pub proof fn lemma_ceil_div_step(a: int, b: int)
    requires
        b > 0,
    ensures
        ceil_div(a - b, b) == ceil_div(a, b) - 1,
{
    lemma_div_minus_one(a + b - 1, b);
}

/// Rounding up keeps the order.
pub proof fn lemma_ceil_div_monotone(a: int, c: int, b: int)
    requires
        0 <= a <= c,
        b > 0,
    ensures
        ceil_div(a, b) <= ceil_div(c, b),
{
    lemma_ceil_div(a, b);
    lemma_ceil_div(c, b);
    let p = ceil_div(a, b);
    let q = ceil_div(c, b);
    assert(p <= q) by (nonlinear_arith)
        requires
            (p - 1) * b < a,
            a <= c,
            c <= q * b,
            b > 0,
    ;
}

} // verus!
