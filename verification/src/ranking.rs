//! Ranking scored words: the best first, and of two words with the same
//! score the one that came first.

use vstd::prelude::*;
use crate::counting::{
    count_where, lemma_count_agree, lemma_count_bounded, lemma_count_none, lemma_count_one_more,
    lemma_count_strict,
};
use crate::error::SolverError;

verus! {

/// The number of words that a suggestion holds at most.
pub const SUGGESTION_LIMIT: usize = 10;

/// Whether the word at position `j` comes before the word at position `i`
/// in the ranking: it has the higher score, or the same score and the
/// earlier position.
pub open spec fn outranks(scores: Seq<u64>, j: int, i: int) -> bool {
    scores[j] > scores[i] || (scores[j] == scores[i] && j < i)
}

/// The positions of the words that come before the word at position `i`.
pub open spec fn outranking_at(scores: Seq<u64>, i: int) -> spec_fn(int) -> bool {
    |j: int| outranks(scores, j, i)
}

/// The place of the word at position `i` in the ranking, counting from 0:
/// the number of words that come before it.
pub open spec fn rank_of(scores: Seq<u64>, i: int) -> nat {
    count_where(scores.len() as int, outranking_at(scores, i))
}

/// Whether `word` is the word at the given place of the ranking.
pub open spec fn has_place(words: Seq<Seq<char>>, scores: Seq<u64>, place: int, word: Seq<char>) -> bool {
    exists|i: int| 0 <= i < words.len() && rank_of(scores, i) == place && #[trigger] words[i] == word
}

/// Whether `ranked` holds the words of the first `limit` places of the
/// ranking, each at its place, or all the words if there are fewer.
pub open spec fn is_ranking(
    ranked: Seq<Seq<char>>,
    words: Seq<Seq<char>>,
    scores: Seq<u64>,
    limit: nat,
) -> bool {
    &&& ranked.len() == if words.len() <= limit {
        words.len()
    } else {
        limit
    }
    &&& forall|i: int|
        0 <= i < words.len() && rank_of(scores, i) < limit ==> ranked[rank_of(scores, i) as int]
            == #[trigger] words[i]
    &&& forall|place: int|
        0 <= place < ranked.len() ==> #[trigger] has_place(words, scores, place, ranked[place])
}

/// A word that comes before another has the lower place.
pub proof fn lemma_rank_follows_order(scores: Seq<u64>, a: int, b: int)
    requires
        0 <= a < scores.len(),
        0 <= b < scores.len(),
        outranks(scores, a, b),
    ensures
        rank_of(scores, a) < rank_of(scores, b),
{
    lemma_count_strict(
        scores.len() as int,
        outranking_at(scores, a),
        outranking_at(scores, b),
        a,
    );
}

/// Every place is below the number of words.
pub proof fn lemma_rank_below_len(scores: Seq<u64>, i: int)
    requires
        0 <= i < scores.len(),
    ensures
        rank_of(scores, i) < scores.len(),
{
    let anywhere = |j: int| true;
    lemma_count_strict(scores.len() as int, outranking_at(scores, i), anywhere, i);
    lemma_count_bounded(scores.len() as int, anywhere);
}

/// No two words share a place.
pub proof fn lemma_ranks_differ(scores: Seq<u64>, a: int, b: int)
    requires
        0 <= a < scores.len(),
        0 <= b < scores.len(),
        a != b,
    ensures
        rank_of(scores, a) != rank_of(scores, b),
{
    if outranks(scores, a, b) {
        lemma_rank_follows_order(scores, a, b);
    } else {
        lemma_rank_follows_order(scores, b, a);
    }
}

/// The positions that are marked as taken.
spec fn taken_at(taken: Seq<bool>) -> spec_fn(int) -> bool {
    |j: int| taken[j]
}

/// What holds once the first `place` places of the ranking are filled: the
/// words of those places are taken, each stands at its place, and no other
/// word is taken.
spec fn filled_up_to(
    ranked: Seq<Seq<char>>,
    words: Seq<Seq<char>>,
    scores: Seq<u64>,
    taken: Seq<bool>,
    place: int,
) -> bool {
    &&& taken.len() == scores.len()
    &&& ranked.len() == place
    &&& count_where(scores.len() as int, taken_at(taken)) == place
    &&& forall|i: int|
        0 <= i < scores.len() ==> (#[trigger] taken[i] <==> rank_of(scores, i) < place)
    &&& forall|i: int|
        0 <= i < scores.len() && rank_of(scores, i) < place ==> ranked[rank_of(scores, i) as int]
            == #[trigger] words[i]
    &&& forall|at: int| 0 <= at < place ==> #[trigger] has_place(words, scores, at, ranked[at])
}

/// Where every position is taken, all are counted.
proof fn lemma_all_taken(taken: Seq<bool>, n: int)
    requires
        0 <= n <= taken.len(),
        forall|j: int| 0 <= j < n ==> #[trigger] taken[j],
    ensures
        count_where(n, taken_at(taken)) == n,
    decreases n,
{
    if n > 0 {
        lemma_all_taken(taken, n - 1);
    }
}

/// The word that no other free word comes before has the next place.
proof fn lemma_best_is_next(
    ranked: Seq<Seq<char>>,
    words: Seq<Seq<char>>,
    scores: Seq<u64>,
    taken: Seq<bool>,
    place: int,
    best: int,
    word: Seq<char>,
)
    requires
        words.len() == scores.len(),
        filled_up_to(ranked, words, scores, taken, place),
        0 <= best < scores.len(),
        !taken[best],
        forall|m: int|
            0 <= m < scores.len() && !#[trigger] taken[m] && m != best ==> outranks(
                scores,
                best,
                m,
            ),
        word == words[best],
    ensures
        rank_of(scores, best) == place,
        filled_up_to(ranked.push(word), words, scores, taken.update(best, true), place + 1),
{
    let n = scores.len() as int;
    assert forall|j: int| 0 <= j < n implies #[trigger] outranking_at(scores, best)(j) == taken_at(
        taken,
    )(j) by {
        if taken[j] {
            if !outranks(scores, j, best) {
                lemma_rank_follows_order(scores, best, j);
            }
        }
    }
    lemma_count_agree(n, outranking_at(scores, best), taken_at(taken));
    let after = taken.update(best, true);
    lemma_count_one_more(n, taken_at(taken), taken_at(after), best);
    assert forall|i: int| 0 <= i < n implies (#[trigger] after[i] <==> rank_of(scores, i) < place
        + 1) by {
        if i != best {
            lemma_ranks_differ(scores, i, best);
            assert(after[i] == taken[i]);
        }
    }
    let longer = ranked.push(word);
    assert forall|i: int| 0 <= i < n && rank_of(scores, i) < place + 1 implies longer[rank_of(
        scores,
        i,
    ) as int] == #[trigger] words[i] by {
        if i != best {
            lemma_ranks_differ(scores, i, best);
        }
    }
    assert forall|at: int| 0 <= at < place + 1 implies #[trigger] has_place(
        words,
        scores,
        at,
        longer[at],
    ) by {
        if at == place {
            assert(words[best] == longer[at]);
        } else {
            assert(has_place(words, scores, at, ranked[at]));
        }
    }
}

/// The best of the scored words, at most ten of them, the best first. A
/// word with a higher score comes before one with a lower score, and of two
/// words with the same score the one that stands first in `words` comes
/// first. There must be one score for each word.
pub fn rank(words: &Vec<String>, scores: &Vec<u64>) -> (result: Result<Vec<String>, SolverError>)
    ensures
        words@.len() != scores@.len() ==> result matches Err(SolverError::InvalidInput),
        words@.len() == scores@.len() ==> (result matches Ok(ranked) && is_ranking(
            ranked.deep_view(),
            words.deep_view(),
            scores@,
            SUGGESTION_LIMIT as nat,
        )),
{
    if words.len() != scores.len() {
        return Err(SolverError::InvalidInput);
    }
    let n: usize = words.len();
    let limit: usize = if n <= SUGGESTION_LIMIT {
        n
    } else {
        SUGGESTION_LIMIT
    };
    let mut taken: Vec<bool> = Vec::new();
    let mut i: usize = 0;
    while i < n
        invariant
            i <= n,
            taken@.len() == i,
            forall|j: int| 0 <= j < i ==> !#[trigger] taken@[j],
        decreases n - i,
    {
        taken.push(false);
        i += 1;
    }
    let mut ranked: Vec<String> = Vec::new();
    let mut place: usize = 0;
    proof {
        lemma_count_none(n as int, taken_at(taken@));
        assert forall|i: int| 0 <= i < n implies (#[trigger] taken@[i] <==> rank_of(scores@, i)
            < 0) by {}
    }
    while place < limit
        invariant
            n == words@.len(),
            n == scores@.len(),
            limit <= n,
            place <= limit,
            filled_up_to(ranked.deep_view(), words.deep_view(), scores@, taken@, place as int),
        decreases limit - place,
    {
        let mut best: usize = n;
        let mut j: usize = 0;
        while j < n
            invariant
                n == scores@.len(),
                taken@.len() == n,
                j <= n,
                best <= n,
                best == n ==> forall|m: int| 0 <= m < j ==> #[trigger] taken@[m],
                best < n ==> best < j && !taken@[best as int],
                best < n ==> forall|m: int|
                    0 <= m < j && !#[trigger] taken@[m] && m != best ==> outranks(
                        scores@,
                        best as int,
                        m,
                    ),
            decreases n - j,
        {
            if !taken[j] && (best == n || scores[j] > scores[best]) {
                best = j;
            }
            j += 1;
        }
        proof {
            if best == n {
                lemma_all_taken(taken@, n as int);
            }
        }
        let word: String = words[best].clone();
        proof {
            assert(word@ == words.deep_view()[best as int]);
            lemma_best_is_next(
                ranked.deep_view(),
                words.deep_view(),
                scores@,
                taken@,
                place as int,
                best as int,
                word@,
            );
        }
        let ghost before = ranked.deep_view();
        taken.set(best, true);
        ranked.push(word);
        assert(ranked.deep_view() =~= before.push(word@));
        place += 1;
    }
    proof {
        assert forall|i: int|
            0 <= i < n && rank_of(scores@, i) < SUGGESTION_LIMIT implies ranked.deep_view()[rank_of(
            scores@,
            i,
        ) as int] == #[trigger] words.deep_view()[i] by {
            lemma_rank_below_len(scores@, i);
        }
    }
    Ok(ranked)
}

} // verus!
