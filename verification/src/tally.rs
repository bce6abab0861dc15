use vstd::prelude::*;

verus! {

/// `f(0) + f(1) + ... + f(n - 1)`.
pub open spec fn sum_below(n: int, f: spec_fn(int) -> int) -> int
    decreases n,
{
    if n <= 0 {
        0
    } else {
        sum_below(n - 1, f) + f(n - 1)
    }
}

/// The largest of `0, f(0), ..., f(n - 1)`.
pub open spec fn max_below(n: int, f: spec_fn(int) -> int) -> int
    decreases n,
{
    if n <= 0 {
        0
    } else {
        let m = max_below(n - 1, f);
        if f(n - 1) > m {
            f(n - 1)
        } else {
            m
        }
    }
}

/// Some `j < n` satisfies `p`.
pub open spec fn any_below(n: int, p: spec_fn(int) -> bool) -> bool
    decreases n,
{
    if n <= 0 {
        false
    } else {
        any_below(n - 1, p) || p(n - 1)
    }
}

/// A sum of non-negative terms grows with the number of terms.
pub proof fn lemma_sum_below_mono(n: int, m: int, f: spec_fn(int) -> int)
    requires
        0 <= n <= m,
        forall|j: int| 0 <= j < m ==> #[trigger] f(j) >= 0,
    ensures
        0 <= sum_below(n, f) <= sum_below(m, f),
    decreases m,
{
    if n < m {
        lemma_sum_below_mono(n, m - 1, f);
    } else if n > 0 {
        lemma_sum_below_mono(n - 1, m - 1, f);
    }
}

/// Sums agree when their terms agree.
pub proof fn lemma_sum_below_ext(n: int, f: spec_fn(int) -> int, g: spec_fn(int) -> int)
    requires
        forall|j: int| 0 <= j < n ==> #[trigger] f(j) == g(j),
    ensures
        sum_below(n, f) == sum_below(n, g),
    decreases n,
{
    if n > 0 {
        lemma_sum_below_ext(n - 1, f, g);
    }
}

/// The maximum bounds each term and is one of the terms or zero.
pub proof fn lemma_max_below_bound(n: int, f: spec_fn(int) -> int)
    ensures
        max_below(n, f) >= 0,
        forall|j: int| 0 <= j < n ==> #[trigger] f(j) <= max_below(n, f),
        max_below(n, f) == 0 || exists|j: int| 0 <= j < n && #[trigger] f(j) == max_below(n, f),
    decreases n,
{
    if n > 0 {
        lemma_max_below_bound(n - 1, f);
        if max_below(n - 1, f) != 0 && f(n - 1) <= max_below(n - 1, f) {
            let j = choose|j: int| 0 <= j < n - 1 && #[trigger] f(j) == max_below(n - 1, f);
            assert(f(j) == max_below(n, f));
        }
    }
}

/// A witness below `n` makes `any_below` true.
pub proof fn lemma_any_below_intro(n: int, p: spec_fn(int) -> bool, i: int)
    requires
        0 <= i < n,
        p(i),
    ensures
        any_below(n, p),
    decreases n,
{
    if i < n - 1 {
        lemma_any_below_intro(n - 1, p, i);
    }
}

/// Each non-negative term is at most the sum.
pub proof fn lemma_sum_below_term(n: int, f: spec_fn(int) -> int, i: int)
    requires
        0 <= i < n,
        forall|j: int| 0 <= j < n ==> #[trigger] f(j) >= 0,
    ensures
        f(i) <= sum_below(n, f),
    decreases n,
{
    if i < n - 1 {
        lemma_sum_below_term(n - 1, f, i);
    } else {
        lemma_sum_below_mono(n - 1, n - 1, f);
    }
}

/// `any_below` holds exactly when a witness exists below `n`.
pub proof fn lemma_any_below_elim(n: int, p: spec_fn(int) -> bool)
    ensures
        any_below(n, p) <==> exists|k: int| 0 <= k < n && #[trigger] p(k),
    decreases n,
{
    if n > 0 {
        lemma_any_below_elim(n - 1, p);
        if p(n - 1) {
            assert(exists|k: int| 0 <= k < n && #[trigger] p(k));
        }
        if exists|k: int| 0 <= k < n && #[trigger] p(k) {
            let k = choose|k: int| 0 <= k < n && #[trigger] p(k);
            if k < n - 1 {
                assert(exists|k: int| 0 <= k < n - 1 && #[trigger] p(k));
            }
        }
    }
}

/// A sum whose terms vanish except at `x` is the term at `x`.
pub proof fn lemma_sum_below_single(n: int, f: spec_fn(int) -> int, x: int)
    requires
        0 <= x < n,
        forall|j: int| 0 <= j < n && j != x ==> #[trigger] f(j) == 0,
    ensures
        sum_below(n, f) == f(x),
    decreases n,
{
    if n - 1 > x {
        lemma_sum_below_single(n - 1, f, x);
    } else {
        lemma_sum_below_zero(n - 1, f);
    }
}

/// A sum of vanishing terms is zero.
pub proof fn lemma_sum_below_zero(n: int, f: spec_fn(int) -> int)
    requires
        forall|j: int| 0 <= j < n ==> #[trigger] f(j) == 0,
    ensures
        sum_below(n, f) == 0,
    decreases n,
{
    if n > 0 {
        lemma_sum_below_zero(n - 1, f);
    }
}

/// The maximum of terms that are each zero or `v` (some term being `v`) is `v`.
pub proof fn lemma_max_below_of(n: int, f: spec_fn(int) -> int, x: int, v: int)
    requires
        0 <= x < n,
        v >= 0,
        f(x) == v,
        forall|j: int| 0 <= j < n ==> #[trigger] f(j) == 0 || f(j) == v,
    ensures
        max_below(n, f) == v,
{
    lemma_max_below_bound(n, f);
}

/// The maximum of vanishing terms is zero.
pub proof fn lemma_max_below_zero(n: int, f: spec_fn(int) -> int)
    requires
        forall|j: int| 0 <= j < n ==> #[trigger] f(j) == 0,
    ensures
        max_below(n, f) == 0,
{
    lemma_max_below_bound(n, f);
}

/// Two different non-negative terms are together at most the sum.
pub proof fn lemma_sum_below_two(n: int, f: spec_fn(int) -> int, a: int, b: int)
    requires
        0 <= a < n,
        0 <= b < n,
        a != b,
        forall|j: int| 0 <= j < n ==> #[trigger] f(j) >= 0,
    ensures
        f(a) + f(b) <= sum_below(n, f),
    decreases n,
{
    if a == n - 1 {
        lemma_sum_below_term(n - 1, f, b);
    } else if b == n - 1 {
        lemma_sum_below_term(n - 1, f, a);
    } else {
        lemma_sum_below_two(n - 1, f, a, b);
    }
}

} // verus!
