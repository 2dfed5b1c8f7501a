//! Saturating arithmetic.
use vstd::prelude::*;

verus! {

/// The smaller of two numbers.
pub open spec fn least(a: int, b: int) -> int {
    if a <= b { a } else { b }
}

/// The larger of two numbers.
pub open spec fn greatest(a: int, b: int) -> int {
    if a >= b { a } else { b }
}

/// The absolute value.
pub open spec fn magnitude(a: int) -> int {
    if a < 0 { -a } else { a }
}

/// `a * b`, held at the largest `u64`.
pub fn sat_mul_u64(a: u64, b: u64) -> (r: u64)
    ensures
        r == least(a * b, u64::MAX as int),
{
    match a.checked_mul(b) {
        Some(v) => v,
        None => u64::MAX,
    }
}

/// `a * b`, held at the largest `usize`.
pub fn sat_mul_usize(a: usize, b: usize) -> (r: usize)
    ensures
        r == least(a * b, usize::MAX as int),
{
    match a.checked_mul(b) {
        Some(v) => v,
        None => usize::MAX,
    }
}

/// `a * b`, held inside the range of `i64`.
pub fn sat_mul_i64(a: i64, b: i64) -> (r: i64)
    ensures
        r == crate::bytes::clip(a * b, i64::MIN as int, i64::MAX as int),
{
    match a.checked_mul(b) {
        Some(v) => v,
        None => {
            assert(a != 0 && b != 0) by (nonlinear_arith)
                requires
                    !(i64::MIN <= a * b <= i64::MAX),
            ;
            if (a < 0) == (b < 0) {
                assert(a * b >= 0) by (nonlinear_arith)
                    requires
                        (a < 0) == (b < 0),
                ;
                i64::MAX
            } else {
                assert(a * b <= 0) by (nonlinear_arith)
                    requires
                        (a < 0) != (b < 0),
                ;
                i64::MIN
            }
        },
    }
}

/// The sum of `f(0)` up to `f(n - 1)`.
pub open spec fn total(n: int, f: spec_fn(int) -> int) -> int
    decreases n,
{
    if n <= 0 {
        0
    } else {
        total(n - 1, f) + f(n - 1)
    }
}

/// A sum of `n` terms between 0 and `cap` lies between 0 and `n * cap`.
pub proof fn lemma_total_bound(n: int, f: spec_fn(int) -> int, cap: int)
    requires
        0 <= n,
        forall|i: int| 0 <= i < n ==> 0 <= #[trigger] f(i) <= cap,
    ensures
        0 <= total(n, f) <= n * cap,
    decreases n,
{
    if n > 0 {
        lemma_total_bound(n - 1, f, cap);
        assert((n - 1) * cap + cap == n * cap) by (nonlinear_arith);
    } else {
        assert(n * cap == 0) by (nonlinear_arith)
            requires
                n == 0,
        ;
    }
}

/// Sums of equal terms are equal.
pub proof fn lemma_total_equal(n: int, f: spec_fn(int) -> int, g: spec_fn(int) -> int)
    requires
        forall|i: int| 0 <= i < n ==> #[trigger] f(i) == g(i),
    ensures
        total(n, f) == total(n, g),
    decreases n,
{
    if n > 0 {
        lemma_total_equal(n - 1, f, g);
    }
}

/// A sum of equal terms.
pub proof fn lemma_total_constant(n: int, f: spec_fn(int) -> int, c: int)
    requires
        0 <= n,
        forall|i: int| 0 <= i < n ==> #[trigger] f(i) == c,
    ensures
        total(n, f) == n * c,
    decreases n,
{
    if n > 0 {
        lemma_total_constant(n - 1, f, c);
        assert((n - 1) * c + c == n * c) by (nonlinear_arith);
    } else {
        assert(n * c == 0) by (nonlinear_arith)
            requires
                n == 0,
        ;
    }
}

/// A sum whose terms all grow by `c`.
pub proof fn lemma_total_raised(
    n: int,
    f: spec_fn(int) -> int,
    g: spec_fn(int) -> int,
    c: int,
)
    requires
        0 <= n,
        forall|i: int| 0 <= i < n ==> #[trigger] g(i) == f(i) + c,
    ensures
        total(n, g) == total(n, f) + n * c,
    decreases n,
{
    if n > 0 {
        lemma_total_raised(n - 1, f, g, c);
        assert((n - 1) * c + c == n * c) by (nonlinear_arith);
    } else {
        assert(n * c == 0) by (nonlinear_arith)
            requires
                n == 0,
        ;
    }
}

/// A sum of terms that are not negative is at least as large as each of them.
pub proof fn lemma_total_holds_each(n: int, f: spec_fn(int) -> int, i: int)
    requires
        0 <= i < n,
        forall|k: int| 0 <= k < n ==> 0 <= #[trigger] f(k),
    ensures
        0 <= f(i) <= total(n, f),
    decreases n,
{
    assert(total(0, f) == 0);
    assert(total(n, f) == total(n - 1, f) + f(n - 1));
    if i < n - 1 {
        lemma_total_holds_each(n - 1, f, i);
    } else if n > 1 {
        lemma_total_holds_each(n - 1, f, 0);
    }
    assert(0 <= f(n - 1));
}

} // verus!
