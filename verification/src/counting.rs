//! Counting the positions of a word that meet some condition.

use vstd::prelude::*;

verus! {

/// The number of positions `i` with `0 <= i < n` at which `p` holds.
pub open spec fn count_where(n: int, p: spec_fn(int) -> bool) -> nat
    decreases n,
{
    if n <= 0 {
        0
    } else {
        count_where(n - 1, p) + if p(n - 1) {
            1nat
        } else {
            0nat
        }
    }
}

/// A count over `n` positions is at most `n`.
pub proof fn lemma_count_bounded(n: int, p: spec_fn(int) -> bool)
    requires
        0 <= n,
    ensures
        count_where(n, p) <= n,
    decreases n,
{
    if n > 0 {
        lemma_count_bounded(n - 1, p);
    }
}

/// Two conditions that agree on every position below `n` have the same count.
pub proof fn lemma_count_agree(n: int, p: spec_fn(int) -> bool, q: spec_fn(int) -> bool)
    requires
        forall|i: int| 0 <= i < n ==> #[trigger] p(i) == q(i),
    ensures
        count_where(n, p) == count_where(n, q),
    decreases n,
{
    if n > 0 {
        lemma_count_agree(n - 1, p, q);
    }
}

/// Where `p` implies `q` on every position below `n`, `p` counts no more than `q`.
pub proof fn lemma_count_implies(n: int, p: spec_fn(int) -> bool, q: spec_fn(int) -> bool)
    requires
        forall|i: int| 0 <= i < n && #[trigger] p(i) ==> q(i),
    ensures
        count_where(n, p) <= count_where(n, q),
    decreases n,
{
    if n > 0 {
        lemma_count_implies(n - 1, p, q);
    }
}

/// A count over more positions is no smaller.
pub proof fn lemma_count_grows(m: int, n: int, p: spec_fn(int) -> bool)
    requires
        m <= n,
    ensures
        count_where(m, p) <= count_where(n, p),
    decreases n - m,
{
    if m < n {
        lemma_count_grows(m, n - 1, p);
        if n <= 0 {
            assert(count_where(m, p) == 0);
        }
    }
}

/// A position `i < n` at which `p` holds is counted beyond the positions below it.
pub proof fn lemma_count_includes(i: int, n: int, p: spec_fn(int) -> bool)
    requires
        0 <= i < n,
        p(i),
    ensures
        count_where(i, p) + 1 <= count_where(n, p),
{
    lemma_count_grows(i + 1, n, p);
}

/// Where `p` holds at no position from `m` up to `n`, the count stops growing at `m`.
pub proof fn lemma_count_stops(m: int, n: int, p: spec_fn(int) -> bool)
    requires
        0 <= m <= n,
        forall|i: int| m <= i < n ==> !#[trigger] p(i),
    ensures
        count_where(n, p) == count_where(m, p),
    decreases n - m,
{
    if m < n {
        lemma_count_stops(m, n - 1, p);
    }
}

/// Where `p` holds nowhere below `n`, nothing is counted.
pub proof fn lemma_count_none(n: int, p: spec_fn(int) -> bool)
    requires
        forall|i: int| 0 <= i < n ==> !#[trigger] p(i),
    ensures
        count_where(n, p) == 0,
    decreases n,
{
    if n > 0 {
        lemma_count_none(n - 1, p);
    }
}

/// The positions with `p` divide into those with `q` and those without.
pub proof fn lemma_count_split(n: int, p: spec_fn(int) -> bool, q: spec_fn(int) -> bool)
    ensures
        count_where(n, p) == count_where(n, |i: int| p(i) && q(i)) + count_where(
            n,
            |i: int| p(i) && !q(i),
        ),
    decreases n,
{
    if n > 0 {
        lemma_count_split(n - 1, p, q);
    }
}

/// Where `q` holds wherever `p` does and also at a position where `p` does not,
/// `q` counts more than `p`.
pub proof fn lemma_count_strict(n: int, p: spec_fn(int) -> bool, q: spec_fn(int) -> bool, k: int)
    requires
        0 <= k < n,
        forall|i: int| 0 <= i < n && #[trigger] p(i) ==> q(i),
        q(k),
        !p(k),
    ensures
        count_where(n, p) < count_where(n, q),
    decreases n,
{
    if k == n - 1 {
        lemma_count_implies(n - 1, p, q);
    } else {
        lemma_count_strict(n - 1, p, q, k);
    }
}

/// Where `q` is `p` with one more position, `q` counts one more than `p`.
pub proof fn lemma_count_one_more(n: int, p: spec_fn(int) -> bool, q: spec_fn(int) -> bool, k: int)
    requires
        0 <= k < n,
        forall|i: int| 0 <= i < n && i != k ==> #[trigger] p(i) == q(i),
        q(k),
        !p(k),
    ensures
        count_where(n, q) == count_where(n, p) + 1,
    decreases n,
{
    if k == n - 1 {
        lemma_count_agree(n - 1, p, q);
    } else {
        lemma_count_one_more(n - 1, p, q, k);
    }
}

} // verus!
