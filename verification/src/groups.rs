//! How a guess would split the candidates: the candidates that would get the
//! same feedback form a group, and the sizes of the groups say how much the
//! guess would tell.

use vstd::prelude::*;
use crate::counting::{
    count_where, lemma_count_agree, lemma_count_bounded, lemma_count_includes, lemma_count_none,
};
use crate::error::SolverError;
use crate::feedback::LetterFeedback;
use crate::simulate::{mark_letters, simulate_spec};
use crate::words::letters;

verus! {

/// The feedback that a guess would get against each candidate, were that
/// candidate the answer.
pub open spec fn patterns_of(word: Seq<char>, candidates: Seq<Seq<char>>) -> Seq<
    Seq<LetterFeedback>,
> {
    Seq::new(candidates.len(), |i: int| simulate_spec(word, candidates[i]))
}

/// The positions at which a pattern occurs that no earlier position holds.
pub open spec fn first_seen_at(patterns: Seq<Seq<LetterFeedback>>) -> spec_fn(int) -> bool {
    |i: int| forall|j: int| 0 <= j < i ==> #[trigger] patterns[j] != patterns[i]
}

/// The positions that hold the given pattern.
pub open spec fn same_as_at(patterns: Seq<Seq<LetterFeedback>>, pattern: Seq<LetterFeedback>) -> spec_fn(
    int,
) -> bool {
    |j: int| patterns[j] == pattern
}

/// The number of different patterns in a sequence.
pub open spec fn distinct_patterns(patterns: Seq<Seq<LetterFeedback>>) -> nat {
    count_where(patterns.len() as int, first_seen_at(patterns))
}

/// Whether `sizes` are the sizes of the groups of equal patterns, in the
/// order in which the patterns first occur: the pattern that first occurs at
/// position `i` is the next after those that first occur before `i`, and its
/// group has as many members as there are positions with that pattern.
pub open spec fn groups_patterns(sizes: Seq<usize>, patterns: Seq<Seq<LetterFeedback>>) -> bool {
    &&& sizes.len() == distinct_patterns(patterns)
    &&& forall|i: int|
        0 <= i < patterns.len() && #[trigger] first_seen_at(patterns)(i) ==> sizes[count_where(
            i,
            first_seen_at(patterns),
        ) as int] == count_where(patterns.len() as int, same_as_at(patterns, patterns[i]))
}

/// The sum of some sizes.
pub open spec fn total_of(sizes: Seq<usize>) -> nat
    decreases sizes.len(),
{
    if sizes.len() == 0 {
        0
    } else {
        total_of(sizes.drop_last()) + sizes.last() as nat
    }
}

/// One more group of one member adds one to the sum.
proof fn lemma_total_push(sizes: Seq<usize>, size: usize)
    ensures
        total_of(sizes.push(size)) == total_of(sizes) + size,
{
    assert(sizes.push(size).drop_last() =~= sizes);
}

/// One more member in one group adds one to the sum.
proof fn lemma_total_update(sizes: Seq<usize>, k: int, size: usize)
    requires
        0 <= k < sizes.len(),
    ensures
        total_of(sizes.update(k, size)) == total_of(sizes) - sizes[k] + size,
    decreases sizes.len(),
{
    if k == sizes.len() - 1 {
        assert(sizes.update(k, size).drop_last() =~= sizes.drop_last());
    } else {
        lemma_total_update(sizes.drop_last(), k, size);
        assert(sizes.update(k, size).drop_last() =~= sizes.drop_last().update(k, size));
    }
}

/// Whether two patterns hold the same marks.
fn same_pattern(a: &Vec<LetterFeedback>, b: &Vec<LetterFeedback>) -> (yes: bool)
    ensures
        yes == (a@ == b@),
{
    if a.len() != b.len() {
        return false;
    }
    let mut i: usize = 0;
    while i < a.len()
        invariant
            a@.len() == b@.len(),
            i <= a.len(),
            forall|j: int| 0 <= j < i ==> a@[j] == b@[j],
        decreases a.len() - i,
    {
        if a[i] != b[i] {
            return false;
        }
        i += 1;
    }
    assert(a@ =~= b@);
    true
}

/// What is kept of the group with the number `k` after the first `upto`
/// patterns: the position at which its pattern first occurred, the pattern,
/// and how often it has occurred so far.
spec fn group_kept(
    patterns: Seq<Seq<LetterFeedback>>,
    upto: int,
    firsts: Seq<int>,
    seen: Seq<Vec<LetterFeedback>>,
    sizes: Seq<usize>,
    k: int,
) -> bool {
    &&& 0 <= firsts[k] < upto
    &&& first_seen_at(patterns)(firsts[k])
    &&& count_where(firsts[k], first_seen_at(patterns)) == k
    &&& seen[k]@ == patterns[firsts[k]]
    &&& sizes[k] == count_where(upto, same_as_at(patterns, patterns[firsts[k]]))
}

/// Whether the pattern at position `j` is that of one of the groups.
spec fn has_group(patterns: Seq<Seq<LetterFeedback>>, firsts: Seq<int>, j: int) -> bool {
    exists|k: int| 0 <= k < firsts.len() && patterns[#[trigger] firsts[k]] == patterns[j]
}

/// What the grouping has reached after the first `upto` patterns: `firsts`
/// holds the positions at which a new pattern occurred, `seen` the pattern
/// at each, and `sizes` how often each has occurred so far.
spec fn grouped_up_to(
    patterns: Seq<Seq<LetterFeedback>>,
    upto: int,
    firsts: Seq<int>,
    seen: Seq<Vec<LetterFeedback>>,
    sizes: Seq<usize>,
) -> bool {
    &&& seen.len() == firsts.len()
    &&& sizes.len() == firsts.len()
    &&& firsts.len() == count_where(upto, first_seen_at(patterns))
    &&& forall|k: int|
        0 <= k < firsts.len() ==> #[trigger] group_kept(patterns, upto, firsts, seen, sizes, k)
    &&& forall|j: int| 0 <= j < upto ==> #[trigger] has_group(patterns, firsts, j)
    &&& total_of(sizes) == upto
}

/// Two positions at which new patterns occurred hold different patterns.
proof fn lemma_firsts_differ(patterns: Seq<Seq<LetterFeedback>>, a: int, b: int)
    requires
        0 <= a,
        0 <= b,
        a != b,
        first_seen_at(patterns)(a),
        first_seen_at(patterns)(b),
    ensures
        patterns[a] != patterns[b],
{
    if a < b {
        assert(patterns[a] != patterns[b]);
    } else {
        assert(patterns[b] != patterns[a]);
    }
}

/// The step of the grouping for a pattern that has occurred before.
proof fn lemma_grouped_again(
    patterns: Seq<Seq<LetterFeedback>>,
    upto: int,
    firsts: Seq<int>,
    seen: Seq<Vec<LetterFeedback>>,
    sizes: Seq<usize>,
    k: int,
)
    requires
        0 <= upto < patterns.len(),
        grouped_up_to(patterns, upto, firsts, seen, sizes),
        0 <= k < firsts.len(),
        seen[k]@ == patterns[upto],
    ensures
        sizes[k] <= upto,
        sizes[k] < usize::MAX ==> grouped_up_to(
            patterns,
            upto + 1,
            firsts,
            seen,
            sizes.update(k, (sizes[k] + 1) as usize),
        ),
{
    let first = first_seen_at(patterns);
    assert(group_kept(patterns, upto, firsts, seen, sizes, k));
    lemma_count_bounded(upto, same_as_at(patterns, patterns[firsts[k]]));
    if sizes[k] < usize::MAX {
        let after = sizes.update(k, (sizes[k] + 1) as usize);
        assert(!first(upto)) by {
            assert(patterns[firsts[k]] == patterns[upto]);
        }
        assert forall|m: int| 0 <= m < firsts.len() implies #[trigger] group_kept(
            patterns,
            upto + 1,
            firsts,
            seen,
            after,
            m,
        ) by {
            assert(group_kept(patterns, upto, firsts, seen, sizes, m));
            if m != k {
                lemma_firsts_differ(patterns, firsts[m], firsts[k]);
            }
        }
        assert forall|j: int| 0 <= j < upto + 1 implies #[trigger] has_group(
            patterns,
            firsts,
            j,
        ) by {
            if j == upto {
                assert(patterns[firsts[k]] == patterns[j]);
            } else {
                assert(has_group(patterns, firsts, j));
            }
        }
        lemma_total_update(sizes, k, (sizes[k] + 1) as usize);
    }
}

/// The step of the grouping for a pattern that has not occurred before.
proof fn lemma_grouped_new(
    patterns: Seq<Seq<LetterFeedback>>,
    upto: int,
    firsts: Seq<int>,
    seen: Seq<Vec<LetterFeedback>>,
    sizes: Seq<usize>,
    pattern: Vec<LetterFeedback>,
)
    requires
        0 <= upto < patterns.len(),
        grouped_up_to(patterns, upto, firsts, seen, sizes),
        pattern@ == patterns[upto],
        forall|k: int| 0 <= k < seen.len() ==> (#[trigger] seen[k])@ != patterns[upto],
    ensures
        grouped_up_to(patterns, upto + 1, firsts.push(upto), seen.push(pattern), sizes.push(1)),
{
    let first = first_seen_at(patterns);
    let firsts_after = firsts.push(upto);
    let seen_after = seen.push(pattern);
    let sizes_after = sizes.push(1);
    assert(first(upto)) by {
        assert forall|j: int| 0 <= j < upto implies #[trigger] patterns[j] != patterns[upto] by {
            assert(has_group(patterns, firsts, j));
            let k = choose|k: int|
                0 <= k < firsts.len() && patterns[#[trigger] firsts[k]] == patterns[j];
            assert(group_kept(patterns, upto, firsts, seen, sizes, k));
            assert(seen[k]@ != patterns[upto]);
        }
    }
    assert forall|k: int| 0 <= k < firsts_after.len() implies #[trigger] group_kept(
        patterns,
        upto + 1,
        firsts_after,
        seen_after,
        sizes_after,
        k,
    ) by {
        if k < firsts.len() {
            assert(group_kept(patterns, upto, firsts, seen, sizes, k));
            assert(seen[k]@ != patterns[upto]);
        } else {
            lemma_count_none(upto, same_as_at(patterns, patterns[upto]));
        }
    }
    assert forall|j: int| 0 <= j < upto + 1 implies #[trigger] has_group(
        patterns,
        firsts_after,
        j,
    ) by {
        if j == upto {
            assert(firsts_after[firsts.len() as int] == upto);
        } else {
            assert(has_group(patterns, firsts, j));
            let k = choose|k: int|
                0 <= k < firsts.len() && patterns[#[trigger] firsts[k]] == patterns[j];
            assert(firsts_after[k] == firsts[k]);
        }
    }
    lemma_total_push(sizes, 1);
}

/// Once every pattern is grouped, the sizes are those of the groups.
proof fn lemma_grouped_all(
    patterns: Seq<Seq<LetterFeedback>>,
    firsts: Seq<int>,
    seen: Seq<Vec<LetterFeedback>>,
    sizes: Seq<usize>,
)
    requires
        grouped_up_to(patterns, patterns.len() as int, firsts, seen, sizes),
    ensures
        groups_patterns(sizes, patterns),
        forall|k: int| 0 <= k < sizes.len() ==> #[trigger] sizes[k] >= 1,
{
    let n = patterns.len() as int;
    let first = first_seen_at(patterns);
    assert forall|i: int| 0 <= i < n && #[trigger] first(i) implies sizes[count_where(
        i,
        first,
    ) as int] == count_where(n, same_as_at(patterns, patterns[i])) by {
        let k = count_where(i, first) as int;
        lemma_count_includes(i, n, first);
        assert(group_kept(patterns, n, firsts, seen, sizes, k));
        let at = firsts[k];
        if at < i {
            lemma_count_includes(at, i, first);
        } else if i < at {
            lemma_count_includes(i, at, first);
        }
    }
    assert forall|k: int| 0 <= k < sizes.len() implies #[trigger] sizes[k] >= 1 by {
        assert(group_kept(patterns, n, firsts, seen, sizes, k));
        let at = firsts[k];
        assert(same_as_at(patterns, patterns[at])(at));
        lemma_count_includes(at, n, same_as_at(patterns, patterns[at]));
    }
}

/// The sizes of the groups into which a guess would split the candidates:
/// one group for each feedback pattern that the guess would get against
/// some candidate, in the order in which the patterns first occur. Every
/// candidate must have as many letters as the guess.
pub fn pattern_groups(word: &str, candidates: &Vec<String>) -> (result: Result<
    Vec<usize>,
    SolverError,
>)
    ensures
        (exists|i: int|
            0 <= i < candidates@.len() && (#[trigger] candidates@[i])@.len() != word@.len())
            ==> result matches Err(SolverError::InvalidInput),
        (forall|i: int|
            0 <= i < candidates@.len() ==> (#[trigger] candidates@[i])@.len() == word@.len()) ==> (
        result matches Ok(sizes) && groups_patterns(
            sizes@,
            patterns_of(word@, candidates.deep_view()),
        ) && total_of(sizes@) == candidates@.len() && forall|k: int|
            0 <= k < sizes@.len() ==> #[trigger] sizes@[k] >= 1),
{
    let ghost patterns = patterns_of(word@, candidates.deep_view());
    let w: Vec<char> = letters(word);
    let n: usize = candidates.len();
    let mut seen: Vec<Vec<LetterFeedback>> = Vec::new();
    let mut sizes: Vec<usize> = Vec::new();
    let ghost mut firsts: Seq<int> = Seq::empty();
    let mut i: usize = 0;
    while i < n
        invariant
            n == candidates@.len(),
            i <= n,
            w@ == word@,
            patterns == patterns_of(word@, candidates.deep_view()),
            patterns.len() == n,
            forall|j: int| 0 <= j < i ==> (#[trigger] candidates@[j])@.len() == word@.len(),
            grouped_up_to(patterns, i as int, firsts, seen@, sizes@),
        decreases n - i,
    {
        let c: Vec<char> = letters(candidates[i].as_str());
        if c.len() != w.len() {
            return Err(SolverError::InvalidInput);
        }
        let pattern: Vec<LetterFeedback> = mark_letters(&w, &c);
        assert(pattern@ == patterns[i as int]) by {
            assert(candidates.deep_view()[i as int] == candidates@[i as int]@);
        }
        let mut k: usize = 0;
        while k < seen.len() && !same_pattern(&seen[k], &pattern)
            invariant
                k <= seen.len(),
                forall|m: int| 0 <= m < k ==> (#[trigger] seen@[m])@ != pattern@,
            decreases seen.len() - k,
        {
            k += 1;
        }
        if k < seen.len() {
            proof {
                lemma_grouped_again(patterns, i as int, firsts, seen@, sizes@, k as int);
            }
            let size: usize = sizes[k];
            sizes.set(k, size + 1);
        } else {
            proof {
                lemma_grouped_new(patterns, i as int, firsts, seen@, sizes@, pattern);
                firsts = firsts.push(i as int);
            }
            seen.push(pattern);
            sizes.push(1);
        }
        i += 1;
    }
    proof {
        lemma_grouped_all(patterns, firsts, seen@, sizes@);
    }
    Ok(sizes)
}

/// There are no more groups than candidates: one candidate, or none, is
/// never split.
pub proof fn lemma_groups_within_candidates(patterns: Seq<Seq<LetterFeedback>>)
    ensures
        distinct_patterns(patterns) <= patterns.len(),
{
    lemma_count_bounded(patterns.len() as int, first_seen_at(patterns));
}

/// A guess that would get the same feedback against every candidate puts
/// them all into one group: such a guess tells nothing.
pub proof fn lemma_one_pattern_one_group(patterns: Seq<Seq<LetterFeedback>>)
    requires
        forall|i: int, j: int|
            0 <= i < patterns.len() && 0 <= j < patterns.len() ==> #[trigger] patterns[i]
                == #[trigger] patterns[j],
    ensures
        distinct_patterns(patterns) <= 1,
        patterns.len() > 0 ==> distinct_patterns(patterns) == 1,
{
    let n = patterns.len() as int;
    let first = first_seen_at(patterns);
    let origin = |i: int| i == 0;
    assert forall|i: int| 0 <= i < n implies #[trigger] first(i) == origin(i) by {
        if i > 0 {
            assert(patterns[0] == patterns[i]);
        }
    }
    lemma_count_agree(n, first, origin);
    lemma_count_origin(n);
}

/// Only one position is the first.
proof fn lemma_count_origin(n: int)
    ensures
        count_where(n, |i: int| i == 0) == if n > 0 {
            1nat
        } else {
            0nat
        },
    decreases n,
{
    if n > 0 {
        lemma_count_origin(n - 1);
    }
}

} // verus!
