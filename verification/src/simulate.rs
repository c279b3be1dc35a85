//! The pattern simulator: the marks that the game puts on a guess when the
//! answer is known.

use vstd::prelude::*;
use crate::counting::{
    count_where, lemma_count_agree, lemma_count_none, lemma_count_one_more, lemma_count_split,
    lemma_count_strict,
};
use crate::error::SolverError;
use crate::feedback::LetterFeedback;
use crate::words::{holds_at, letter_count, letters};

verus! {

/// The positions at which the guess holds `letter` and the answer holds another letter.
pub open spec fn unmatched_guess_at(guess: Seq<char>, answer: Seq<char>, letter: char) -> spec_fn(
    int,
) -> bool {
    |j: int| guess[j] == letter && guess[j] != answer[j]
}

/// The positions at which the answer holds `letter` and the guess holds another letter.
pub open spec fn unmatched_answer_at(guess: Seq<char>, answer: Seq<char>, letter: char) -> spec_fn(
    int,
) -> bool {
    |k: int| answer[k] == letter && guess[k] != answer[k]
}

/// How often `letter` stands in the first `upto` positions of the guess
/// without matching the answer there.
pub open spec fn unmatched_in_guess(
    guess: Seq<char>,
    answer: Seq<char>,
    letter: char,
    upto: int,
) -> nat {
    count_where(upto, unmatched_guess_at(guess, answer, letter))
}

/// How often `letter` stands in the answer at a position where the guess
/// does not match: the occurrences that are left for `Present` marks.
pub open spec fn unmatched_in_answer(guess: Seq<char>, answer: Seq<char>, letter: char) -> nat {
    count_where(answer.len() as int, unmatched_answer_at(guess, answer, letter))
}

/// The mark on position `i` of the guess. A letter that matches the answer
/// is `Correct`. Any other is `Present` as long as the answer has unmatched
/// occurrences of it left, counting from the left of the guess, and `Absent`
/// after that.
pub open spec fn mark_at(guess: Seq<char>, answer: Seq<char>, i: int) -> LetterFeedback {
    if guess[i] == answer[i] {
        LetterFeedback::Correct
    } else if unmatched_in_guess(guess, answer, guess[i], i) < unmatched_in_answer(
        guess,
        answer,
        guess[i],
    ) {
        LetterFeedback::Present
    } else {
        LetterFeedback::Absent
    }
}

/// The marks on a guess, for an answer of the same length.
pub open spec fn simulate_spec(guess: Seq<char>, answer: Seq<char>) -> Seq<LetterFeedback> {
    Seq::new(guess.len(), |i: int| mark_at(guess, answer, i))
}

/// The smaller of two numbers.
pub open spec fn smaller(a: nat, b: nat) -> nat {
    if a <= b {
        a
    } else {
        b
    }
}

/// The unmatched positions of the answer that hold `letter` and are already
/// used up by a mark.
pub open spec fn used_answer_at(
    used: Seq<bool>,
    guess: Seq<char>,
    answer: Seq<char>,
    letter: char,
) -> spec_fn(int) -> bool {
    |k: int| used[k] && answer[k] == letter && guess[k] != answer[k]
}

/// What holds between the two passes and after each step of the second:
/// every matching position is used up, and of each letter as many unmatched
/// occurrences in the answer are used up as the guess has asked for so far,
/// up to the number that there are.
spec fn accounted(used: Seq<bool>, guess: Seq<char>, answer: Seq<char>, upto: int) -> bool {
    &&& used.len() == answer.len()
    &&& forall|k: int| 0 <= k < answer.len() && guess[k] == answer[k] ==> #[trigger] used[k]
    &&& forall|x: char|
        count_where(answer.len() as int, #[trigger] used_answer_at(used, guess, answer, x))
            == smaller(unmatched_in_guess(guess, answer, x, upto), unmatched_in_answer(guess, answer, x))
}

/// Before the second pass nothing but the matching positions is used up.
proof fn lemma_accounted_at_start(used: Seq<bool>, guess: Seq<char>, answer: Seq<char>)
    requires
        guess.len() == answer.len(),
        used.len() == answer.len(),
        forall|k: int| 0 <= k < answer.len() ==> #[trigger] used[k] == (guess[k] == answer[k]),
    ensures
        accounted(used, guess, answer, 0),
{
    assert forall|x: char|
        count_where(answer.len() as int, #[trigger] used_answer_at(used, guess, answer, x))
            == smaller(
            unmatched_in_guess(guess, answer, x, 0),
            unmatched_in_answer(guess, answer, x),
        ) by {
        lemma_count_none(answer.len() as int, used_answer_at(used, guess, answer, x));
    }
}

/// A step of the second pass over a position that matches, or whose letter
/// the answer has no unused occurrence of.
proof fn lemma_accounted_skip(used: Seq<bool>, guess: Seq<char>, answer: Seq<char>, i: int)
    requires
        guess.len() == answer.len(),
        0 <= i < guess.len(),
        accounted(used, guess, answer, i),
        guess[i] != answer[i] ==> forall|k: int|
            0 <= k < answer.len() ==> #[trigger] used[k] || answer[k] != guess[i],
    ensures
        accounted(used, guess, answer, i + 1),
        guess[i] != answer[i] ==> mark_at(guess, answer, i) == LetterFeedback::Absent,
{
    let n = answer.len() as int;
    let x = guess[i];
    if guess[i] != answer[i] {
        lemma_count_agree(
            n,
            used_answer_at(used, guess, answer, x),
            unmatched_answer_at(guess, answer, x),
        );
    }
    assert forall|y: char|
        count_where(n, #[trigger] used_answer_at(used, guess, answer, y)) == smaller(
            unmatched_in_guess(guess, answer, y, i + 1),
            unmatched_in_answer(guess, answer, y),
        ) by {
        assert(unmatched_guess_at(guess, answer, y)(i) == (y == x && guess[i] != answer[i]));
    }
}

/// A step of the second pass that uses up position `k` of the answer for
/// position `i` of the guess.
proof fn lemma_accounted_take(
    used: Seq<bool>,
    guess: Seq<char>,
    answer: Seq<char>,
    i: int,
    k: int,
)
    requires
        guess.len() == answer.len(),
        0 <= i < guess.len(),
        0 <= k < answer.len(),
        accounted(used, guess, answer, i),
        guess[i] != answer[i],
        !used[k],
        answer[k] == guess[i],
    ensures
        accounted(used.update(k, true), guess, answer, i + 1),
        mark_at(guess, answer, i) == LetterFeedback::Present,
{
    let n = answer.len() as int;
    let x = guess[i];
    let after = used.update(k, true);
    lemma_count_strict(
        n,
        used_answer_at(used, guess, answer, x),
        unmatched_answer_at(guess, answer, x),
        k,
    );
    assert forall|y: char|
        count_where(n, #[trigger] used_answer_at(after, guess, answer, y)) == smaller(
            unmatched_in_guess(guess, answer, y, i + 1),
            unmatched_in_answer(guess, answer, y),
        ) by {
        assert(unmatched_guess_at(guess, answer, y)(i) == (y == x));
        if y == x {
            lemma_count_one_more(
                n,
                used_answer_at(used, guess, answer, x),
                used_answer_at(after, guess, answer, x),
                k,
            );
        } else {
            lemma_count_agree(
                n,
                used_answer_at(used, guess, answer, y),
                used_answer_at(after, guess, answer, y),
            );
        }
    }
}

/// The marks on a guess against an answer of the same length, in two passes:
/// the first marks the matching positions, the second hands the answer's
/// remaining letters out to the rest of the guess from left to right.
pub(crate) fn mark_letters(guess: &Vec<char>, answer: &Vec<char>) -> (pattern: Vec<LetterFeedback>)
    requires
        guess@.len() == answer@.len(),
    ensures
        pattern@ == simulate_spec(guess@, answer@),
{
    let n: usize = guess.len();
    let mut pattern: Vec<LetterFeedback> = Vec::new();
    let mut used: Vec<bool> = Vec::new();
    let mut i: usize = 0;
    while i < n
        invariant
            n == guess@.len(),
            n == answer@.len(),
            i <= n,
            pattern@.len() == i,
            used@.len() == i,
            forall|k: int| 0 <= k < i ==> #[trigger] used@[k] == (guess@[k] == answer@[k]),
            forall|k: int|
                0 <= k < i ==> #[trigger] pattern@[k] == if guess@[k] == answer@[k] {
                    LetterFeedback::Correct
                } else {
                    LetterFeedback::Absent
                },
        decreases n - i,
    {
        if guess[i] == answer[i] {
            pattern.push(LetterFeedback::Correct);
            used.push(true);
        } else {
            pattern.push(LetterFeedback::Absent);
            used.push(false);
        }
        i += 1;
    }
    proof {
        lemma_accounted_at_start(used@, guess@, answer@);
    }
    i = 0;
    while i < n
        invariant
            n == guess@.len(),
            n == answer@.len(),
            i <= n,
            pattern@.len() == n,
            accounted(used@, guess@, answer@, i as int),
            forall|j: int| 0 <= j < i ==> #[trigger] pattern@[j] == mark_at(guess@, answer@, j),
            forall|j: int|
                i <= j < n ==> #[trigger] pattern@[j] == if guess@[j] == answer@[j] {
                    LetterFeedback::Correct
                } else {
                    LetterFeedback::Absent
                },
        decreases n - i,
    {
        let letter: char = guess[i];
        let mut k: usize = n;
        if letter != answer[i] {
            k = 0;
            while k < n && (used[k] || answer[k] != letter)
                invariant
                    n == answer@.len(),
                    used@.len() == n,
                    k <= n,
                    forall|m: int| 0 <= m < k ==> #[trigger] used@[m] || answer@[m] != letter,
                decreases n - k,
            {
                k += 1;
            }
        }
        if k < n {
            proof {
                lemma_accounted_take(used@, guess@, answer@, i as int, k as int);
            }
            used.set(k, true);
            pattern.set(i, LetterFeedback::Present);
        } else {
            proof {
                lemma_accounted_skip(used@, guess@, answer@, i as int);
            }
        }
        i += 1;
    }
    assert(pattern@ =~= simulate_spec(guess@, answer@));
    pattern
}

/// The feedback pattern that the game gives for `guess` when the answer is
/// `answer`. Words of different lengths cannot be compared.
pub fn simulate(guess: &str, answer: &str) -> (result: Result<Vec<LetterFeedback>, SolverError>)
    ensures
        guess@.len() != answer@.len() ==> result == Err::<Vec<LetterFeedback>, SolverError>(
            SolverError::InvalidInput,
        ),
        guess@.len() == answer@.len() ==> result is Ok && result->Ok_0@ == simulate_spec(
            guess@,
            answer@,
        ),
{
    let g: Vec<char> = letters(guess);
    let a: Vec<char> = letters(answer);
    if g.len() != a.len() {
        return Err(SolverError::InvalidInput);
    }
    Ok(mark_letters(&g, &a))
}

/// The positions at which the guess holds `letter` and the pattern says `Present`.
pub open spec fn present_at(guess: Seq<char>, pattern: Seq<LetterFeedback>, letter: char) -> spec_fn(
    int,
) -> bool {
    |j: int| guess[j] == letter && pattern[j] == LetterFeedback::Present
}

/// The positions at which the guess holds `letter` and the pattern says
/// `Present` or `Correct`.
pub open spec fn marked_at(guess: Seq<char>, pattern: Seq<LetterFeedback>, letter: char) -> spec_fn(
    int,
) -> bool {
    |j: int| guess[j] == letter && pattern[j] != LetterFeedback::Absent
}

/// The positions at which the pattern says `Correct`.
pub open spec fn correct_at(pattern: Seq<LetterFeedback>) -> spec_fn(int) -> bool {
    |j: int| pattern[j] == LetterFeedback::Correct
}

/// The positions at which two words hold the same letter.
pub open spec fn matching_at(guess: Seq<char>, answer: Seq<char>) -> spec_fn(int) -> bool {
    |j: int| guess[j] == answer[j]
}

/// Among the first `upto` positions of a guess, a letter is marked `Present`
/// as often as it stands there unmatched, but no more often than the answer
/// has unmatched occurrences of it.
pub proof fn lemma_presents_so_far(guess: Seq<char>, answer: Seq<char>, letter: char, upto: int)
    requires
        guess.len() == answer.len(),
        0 <= upto <= guess.len(),
    ensures
        count_where(upto, present_at(guess, simulate_spec(guess, answer), letter)) == smaller(
            unmatched_in_guess(guess, answer, letter, upto),
            unmatched_in_answer(guess, answer, letter),
        ),
    decreases upto,
{
    if upto > 0 {
        lemma_presents_so_far(guess, answer, letter, upto - 1);
        let i = upto - 1;
        assert(simulate_spec(guess, answer)[i] == mark_at(guess, answer, i));
        assert(unmatched_guess_at(guess, answer, letter)(i) == (guess[i] == letter && guess[i]
            != answer[i]));
    }
}

/// The simulator marks a position `Correct` exactly where guess and answer
/// hold the same letter, so there are as many `Correct` marks as matching
/// positions.
pub proof fn lemma_correct_marks_are_matches(guess: Seq<char>, answer: Seq<char>)
    requires
        guess.len() == answer.len(),
    ensures
        forall|i: int|
            0 <= i < guess.len() ==> (#[trigger] simulate_spec(guess, answer)[i]
                == LetterFeedback::Correct <==> guess[i] == answer[i]),
        count_where(guess.len() as int, correct_at(simulate_spec(guess, answer))) == count_where(
            guess.len() as int,
            matching_at(guess, answer),
        ),
{
    lemma_count_agree(
        guess.len() as int,
        correct_at(simulate_spec(guess, answer)),
        matching_at(guess, answer),
    );
}

/// The simulator never marks a letter `Present` or `Correct` more often
/// than the letter occurs in the answer.
pub proof fn lemma_marks_within_answer(guess: Seq<char>, answer: Seq<char>, letter: char)
    requires
        guess.len() == answer.len(),
    ensures
        count_where(guess.len() as int, marked_at(guess, simulate_spec(guess, answer), letter))
            <= letter_count(answer, letter),
{
    let n = guess.len() as int;
    let pattern = simulate_spec(guess, answer);
    let marked = marked_at(guess, pattern, letter);
    let holds = holds_at(answer, letter);
    let matching = matching_at(guess, answer);
    lemma_presents_so_far(guess, answer, letter, n);
    lemma_count_split(n, marked, matching);
    lemma_count_split(n, holds, matching);
    lemma_count_agree(
        n,
        |i: int| marked(i) && matching(i),
        |i: int| holds(i) && matching(i),
    );
    lemma_count_agree(
        n,
        |i: int| marked(i) && !matching(i),
        present_at(guess, pattern, letter),
    );
    lemma_count_agree(
        n,
        |i: int| holds(i) && !matching(i),
        unmatched_answer_at(guess, answer, letter),
    );
}

} // verus!
