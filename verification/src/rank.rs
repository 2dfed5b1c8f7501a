//! Order statistics of a list.
use vstd::prelude::*;

use crate::arith::total;

verus! {

/// How many of the first `n` values are at most `v`.
pub open spec fn count_up_to(s: Seq<u64>, v: int, n: int) -> int
    decreases n,
{
    if n <= 0 {
        0
    } else {
        count_up_to(s, v, n - 1) + (if s[n - 1] <= v { 1int } else { 0 })
    }
}

/// `v` is the value at place `k` of the list in ascending order: at most `k` values are smaller,
/// and more than `k` are no larger.
pub open spec fn is_ranked(s: Seq<u64>, k: int, v: int) -> bool {
    &&& count_up_to(s, v - 1, s.len() as int) <= k
    &&& k < count_up_to(s, v, s.len() as int)
}

/// The value at place `k` of the list in ascending order.
pub open spec fn ranked(s: Seq<u64>, k: int) -> int {
    choose|v: int| is_ranked(s, k, v)
}

/// The median: the middle value, or the rounded-down mean of the two middle ones; 0 for an empty
/// list.
pub open spec fn median(s: Seq<u64>) -> int {
    let mid = s.len() as int / 2;
    if s.len() == 0 {
        0
    } else if s.len() % 2 == 0 {
        (ranked(s, mid - 1) + ranked(s, mid)) / 2
    } else {
        ranked(s, mid)
    }
}

proof fn lemma_count_monotone(s: Seq<u64>, a: int, b: int, n: int)
    requires
        a <= b,
    ensures
        count_up_to(s, a, n) <= count_up_to(s, b, n),
        n >= 0 ==> 0 <= count_up_to(s, a, n) <= n,
    decreases n,
{
    if n > 0 {
        lemma_count_monotone(s, a, b, n - 1);
    }
}

proof fn lemma_count_all(s: Seq<u64>, n: int)
    requires
        0 <= n,
    ensures
        count_up_to(s, u64::MAX as int, n) == n,
        count_up_to(s, -1, n) == 0,
    decreases n,
{
    if n > 0 {
        lemma_count_all(s, n - 1);
    }
}

/// At most one value has a given place.
pub proof fn rank_is_unique(s: Seq<u64>, k: int, v: int, w: int)
    requires
        is_ranked(s, k, v),
        is_ranked(s, k, w),
    ensures
        v == w,
        ranked(s, k) == v,
{
    if v < w {
        lemma_count_monotone(s, v, w - 1, s.len() as int);
    }
    if w < v {
        lemma_count_monotone(s, w, v - 1, s.len() as int);
    }
    let c = ranked(s, k);
    if c < v {
        lemma_count_monotone(s, c, v - 1, s.len() as int);
    }
    if v < c {
        lemma_count_monotone(s, v, c - 1, s.len() as int);
    }
}

fn count_at_most(s: &[u64], v: u64) -> (c: usize)
    ensures
        c == count_up_to(s@, v as int, s@.len() as int),
{
    let mut c: usize = 0;
    let mut i: usize = 0;
    while i < s.len()
        invariant
            i <= s@.len(),
            c == count_up_to(s@, v as int, i as int),
            c <= i,
        decreases s@.len() - i,
    {
        if s[i] <= v {
            c += 1;
        }
        i += 1;
    }
    c
}

/// The value at place `k` of the list in ascending order.
pub fn value_at_rank(s: &[u64], k: usize) -> (v: u64)
    requires
        k < s@.len(),
    ensures
        is_ranked(s@, k as int, v as int),
        v == ranked(s@, k as int),
{
    let mut lo: u64 = 0;
    let mut hi: u64 = u64::MAX;
    proof {
        lemma_count_all(s@, s@.len() as int);
    }
    while lo < hi
        invariant
            lo <= hi,
            k < count_up_to(s@, hi as int, s@.len() as int),
            count_up_to(s@, lo - 1, s@.len() as int) <= k,
        decreases hi - lo,
    {
        let mid: u64 = lo + (hi - lo) / 2;
        if count_at_most(s, mid) > k {
            hi = mid;
        } else {
            lo = mid + 1;
        }
    }
    proof {
        rank_is_unique(s@, k as int, lo as int, lo as int);
    }
    lo
}

/// A ranked value is one of the list.
pub proof fn ranked_value_occurs(s: Seq<u64>, k: int, v: int, n: int)
    requires
        0 <= n <= s.len(),
        count_up_to(s, v - 1, n) < count_up_to(s, v, n),
    ensures
        exists|i: int| 0 <= i < n && #[trigger] s[i] == v,
    decreases n,
{
    if n > 0 {
        if s[n - 1] != v {
            ranked_value_occurs(s, k, v, n - 1);
        }
    }
}

/// The median of a list whose values are at most `cap`.
pub fn median_of(s: &[u64], cap: u64) -> (m: u64)
    requires
        forall|i: int| 0 <= i < s@.len() ==> #[trigger] s@[i] <= cap,
        cap <= 9223372036854775807,
    ensures
        m == median(s@),
        m <= cap,
{
    if s.len() == 0 {
        return 0;
    }
    let mid: usize = s.len() / 2;
    let b: u64 = value_at_rank(s, mid);
    proof {
        ranked_value_occurs(s@, mid as int, b as int, s@.len() as int);
    }
    if s.len() % 2 == 0 {
        let a: u64 = value_at_rank(s, mid - 1);
        proof {
            ranked_value_occurs(s@, mid - 1, a as int, s@.len() as int);
        }
        (a + b) / 2
    } else {
        b
    }
}

proof fn lemma_some_value_ranked(s: Seq<u64>, k: int, lo: int, hi: int)
    requires
        lo <= hi,
        count_up_to(s, lo - 1, s.len() as int) <= k,
        k < count_up_to(s, hi, s.len() as int),
    ensures
        is_ranked(s, k, ranked(s, k)),
    decreases hi - lo,
{
    if lo == hi {
        assert(is_ranked(s, k, lo));
    } else {
        let mid = lo + (hi - lo) / 2;
        if count_up_to(s, mid, s.len() as int) > k {
            lemma_some_value_ranked(s, k, lo, mid);
        } else {
            lemma_some_value_ranked(s, k, mid + 1, hi);
        }
    }
}

/// Every place of a list has a value.
pub proof fn every_place_has_a_value(s: Seq<u64>, k: int)
    requires
        0 <= k < s.len(),
    ensures
        is_ranked(s, k, ranked(s, k)),
{
    lemma_count_all(s, s.len() as int);
    lemma_some_value_ranked(s, k, 0, u64::MAX as int);
}

proof fn lemma_counts_are_totals(s: Seq<u64>, v: int, n: int)
    requires
        0 <= n,
    ensures
        count_up_to(s, v - 1, n) == total(n, |i: int| if s[i] < v { 1int } else { 0 }),
        n - count_up_to(s, v, n) == total(n, |i: int| if s[i] > v { 1int } else { 0 }),
    decreases n,
{
    if n > 0 {
        lemma_counts_are_totals(s, v, n - 1);
    }
}

/// The median splits a list: at most half of the values lie below it, and at most half above. It
/// is a value of the list, or halfway between two of them where the list has an even length.
pub proof fn median_splits_the_list(s: Seq<u64>)
    requires
        s.len() > 0,
    ensures
        2 * total(s.len() as int, |i: int| if s[i] < median(s) { 1int } else { 0 }) <= s.len(),
        2 * total(s.len() as int, |i: int| if s[i] > median(s) { 1int } else { 0 }) <= s.len(),
        exists|i: int, j: int|
            0 <= i < s.len() && 0 <= j < s.len() && (#[trigger] s[i] + #[trigger] s[j]) / 2 == median(
                s,
            ) && (s.len() % 2 == 1 ==> i == j),
{
    let n = s.len() as int;
    let mid = n / 2;
    let b = ranked(s, mid);
    let m = median(s);
    every_place_has_a_value(s, mid);
    ranked_value_occurs(s, mid, b, n);
    let j = choose|j: int| 0 <= j < n && #[trigger] s[j] == b;
    lemma_counts_are_totals(s, m, n);
    if n % 2 == 0 {
        let a = ranked(s, mid - 1);
        every_place_has_a_value(s, mid - 1);
        ranked_value_occurs(s, mid - 1, a, n);
        let i = choose|i: int| 0 <= i < n && #[trigger] s[i] == a;
        assert((s[i] + s[j]) / 2 == m);
        if a > b {
            lemma_count_monotone(s, b, a - 1, n);
        }
        lemma_count_monotone(s, m - 1, b - 1, n);
        lemma_count_monotone(s, a, m, n);
    } else {
        assert((s[j] + s[j]) / 2 == m);
    }
}

} // verus!
