//! Sums over the first integers.
use vstd::prelude::*;

verus! {

/// `f(0) + f(1) + ... + f(m - 1)`.
pub open spec fn sum(m: int, f: spec_fn(int) -> int) -> int
    decreases m,
{
    if m <= 0 {
        0
    } else {
        sum(m - 1, f) + f(m - 1)
    }
}

/// Two functions that agree have the same sum.
pub proof fn lemma_sum_same(m: int, f: spec_fn(int) -> int, g: spec_fn(int) -> int)
    requires
        forall|x: int| 0 <= x < m ==> #[trigger] f(x) == g(x),
    ensures
        sum(m, f) == sum(m, g),
    decreases m,
{
    if m > 0 {
        lemma_sum_same(m - 1, f, g);
        assert(f(m - 1) == g(m - 1));
    }
}

/// Two functions that agree but at `a` have sums that differ by what they differ there.
pub proof fn lemma_sum_change(m: int, f: spec_fn(int) -> int, g: spec_fn(int) -> int, a: int)
    requires
        0 <= a < m,
        forall|x: int| 0 <= x < m && x != a ==> #[trigger] f(x) == g(x),
    ensures
        sum(m, g) == sum(m, f) - f(a) + g(a),
    decreases m,
{
    if a == m - 1 {
        lemma_sum_same(m - 1, f, g);
    } else {
        lemma_sum_change(m - 1, f, g, a);
        assert(f(m - 1) == g(m - 1));
    }
}

/// The sum of terms that are all `v`.
pub proof fn lemma_sum_const(m: int, f: spec_fn(int) -> int, v: int)
    requires
        m >= 0,
        forall|x: int| 0 <= x < m ==> #[trigger] f(x) == v,
    ensures
        sum(m, f) == m * v,
    decreases m,
{
    if m > 0 {
        lemma_sum_const(m - 1, f, v);
        assert(f(m - 1) == v);
        assert(m * v == (m - 1) * v + v) by (nonlinear_arith);
    } else {
        assert(m * v == 0) by (nonlinear_arith)
            requires
                m == 0,
        ;
    }
}

/// The sum of terms that are not negative.
pub proof fn lemma_sum_nonnegative(m: int, f: spec_fn(int) -> int)
    requires
        forall|x: int| 0 <= x < m ==> #[trigger] f(x) >= 0,
    ensures
        sum(m, f) >= 0,
    decreases m,
{
    if m > 0 {
        lemma_sum_nonnegative(m - 1, f);
        assert(f(m - 1) >= 0);
    }
}

/// Where no term is larger than 1, only terms that are all 1 reach a sum of `m`.
pub proof fn lemma_sum_full(m: int, f: spec_fn(int) -> int)
    requires
        forall|x: int| 0 <= x < m ==> #[trigger] f(x) <= 1,
    ensures
        sum(m, f) <= m || m < 0,
        sum(m, f) >= m ==> forall|x: int| 0 <= x < m ==> #[trigger] f(x) == 1,
    decreases m,
{
    if m > 0 {
        lemma_sum_full(m - 1, f);
        assert(f(m - 1) <= 1);
    }
}

/// The sum of terms that are no larger than `v`.
pub proof fn lemma_sum_bounded(m: int, f: spec_fn(int) -> int, v: int)
    requires
        m >= 0,
        forall|x: int| 0 <= x < m ==> #[trigger] f(x) <= v,
    ensures
        sum(m, f) <= m * v,
    decreases m,
{
    if m > 0 {
        lemma_sum_bounded(m - 1, f, v);
        assert(f(m - 1) <= v);
        assert(m * v == (m - 1) * v + v) by (nonlinear_arith);
    } else {
        assert(m * v == 0) by (nonlinear_arith)
            requires
                m == 0,
        ;
    }
}

/// A sum of terms that are not negative is no smaller than any of its first terms together, nor
/// than any one of them.
pub proof fn lemma_sum_first(m: int, f: spec_fn(int) -> int, a: int)
    requires
        0 <= a <= m,
        forall|x: int| 0 <= x < m ==> #[trigger] f(x) >= 0,
    ensures
        sum(a, f) <= sum(m, f),
        a < m ==> sum(a, f) + f(a) <= sum(m, f),
        a < m ==> f(a) <= sum(m, f),
    decreases m,
{
    lemma_sum_nonnegative(a, f);
    if a < m {
        assert(f(m - 1) >= 0);
        lemma_sum_first(m - 1, f, a);
    }
}

/// Larger terms have a larger sum.
pub proof fn lemma_sum_monotone(m: int, f: spec_fn(int) -> int, g: spec_fn(int) -> int)
    requires
        forall|x: int| 0 <= x < m ==> #[trigger] f(x) <= g(x),
    ensures
        sum(m, f) <= sum(m, g),
    decreases m,
{
    if m > 0 {
        lemma_sum_monotone(m - 1, f, g);
        assert(f(m - 1) <= g(m - 1));
    }
}

} // verus!
