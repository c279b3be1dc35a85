//! How the constraint matcher and the pattern simulator relate.
//!
//! The matcher reads three kinds of constraint off a recorded guess. It does
//! not look at the letter under an `Absent` mark in the candidate, nor at the
//! order of the marks on a repeated letter. Where those two things are in
//! order, it accepts exactly the candidates for which the simulator gives
//! the recorded feedback back.

use vstd::prelude::*;
use crate::counting::{
    count_where, lemma_count_agree, lemma_count_grows, lemma_count_implies, lemma_count_includes,
    lemma_count_split, lemma_count_stops,
};
use crate::feedback::LetterFeedback;
use crate::matcher::{
    forbidden_at, is_consistent_spec, marked_absent, max_allowed, min_required, required_at,
    GuessView,
};
use crate::simulate::{
    lemma_presents_so_far, mark_at, marked_at, matching_at, present_at, simulate_spec,
    unmatched_answer_at, unmatched_guess_at, unmatched_in_answer,
};
use crate::words::{holds_at, letter_count};

verus! {

/// Whether the candidate holds, under each `Absent` mark of the guess, a
/// letter other than the guessed one. (Had it held the same letter, the game
/// would have marked the position `Correct`.)
pub open spec fn absent_marks_displaced(candidate: Seq<char>, guess: GuessView) -> bool {
    forall|i: int|
        0 <= i < guess.word.len() && #[trigger] guess.feedback[i] == LetterFeedback::Absent
            ==> candidate[i] != guess.word[i]
}

/// Whether, of two positions of the guess with the same letter, the left one
/// is never `Absent` while the right one is `Present`. The game hands out
/// its `Present` marks from the left, so feedback that it gave is of this
/// form.
pub open spec fn presents_come_first(guess: GuessView) -> bool {
    forall|i: int, j: int|
        0 <= i < j < guess.word.len() && guess.word[i] == guess.word[j]
            && #[trigger] guess.feedback[i] == LetterFeedback::Absent
            ==> #[trigger] guess.feedback[j] != LetterFeedback::Present
}

/// Whether the feedback of a guess is `Correct` exactly where the candidate
/// holds the guessed letter.
pub open spec fn correct_where_matching(candidate: Seq<char>, guess: GuessView) -> bool {
    forall|i: int|
        0 <= i < guess.word.len() ==> (#[trigger] guess.feedback[i] == LetterFeedback::Correct
            <==> candidate[i] == guess.word[i])
}

/// Where the feedback is `Correct` exactly at the matching positions, the
/// occurrences of a letter in the candidate and the marks on it in the guess
/// share the matching positions: what is left over on one side are the
/// candidate's unmatched occurrences, on the other the `Present` marks.
proof fn lemma_requirements_share_matches(candidate: Seq<char>, guess: GuessView, letter: char)
    requires
        candidate.len() == guess.word.len(),
        guess.word.len() == guess.feedback.len(),
        correct_where_matching(candidate, guess),
    ensures
        min_required(guess, letter) + unmatched_in_answer(guess.word, candidate, letter)
            == letter_count(candidate, letter) + count_where(
            guess.word.len() as int,
            present_at(guess.word, guess.feedback, letter),
        ),
{
    let n = guess.word.len() as int;
    let marked = marked_at(guess.word, guess.feedback, letter);
    let holds = holds_at(candidate, letter);
    let matching = matching_at(guess.word, candidate);
    lemma_count_split(n, marked, matching);
    lemma_count_split(n, holds, matching);
    assert forall|i: int| 0 <= i < n implies (marked(i) && #[trigger] matching(i)) == (holds(i)
        && matching(i)) by {
        let _ = guess.feedback[i];
    }
    lemma_count_agree(
        n,
        |i: int| marked(i) && matching(i),
        |i: int| holds(i) && matching(i),
    );
    assert forall|i: int| 0 <= i < n implies (marked(i) && !#[trigger] matching(i)) == present_at(
        guess.word,
        guess.feedback,
        letter,
    )(i) by {
        let _ = guess.feedback[i];
    }
    lemma_count_agree(
        n,
        |i: int| marked(i) && !matching(i),
        present_at(guess.word, guess.feedback, letter),
    );
    lemma_count_agree(
        n,
        |i: int| holds(i) && !matching(i),
        unmatched_answer_at(guess.word, candidate, letter),
    );
}

/// Feedback that the simulator gives for a candidate passes the matcher for
/// that candidate, and is in order in the two respects that the matcher does
/// not look at.
pub proof fn lemma_simulated_feedback_is_consistent(candidate: Seq<char>, guess: GuessView)
    requires
        candidate.len() == guess.word.len(),
        simulate_spec(guess.word, candidate) == guess.feedback,
    ensures
        is_consistent_spec(candidate, guess),
        absent_marks_displaced(candidate, guess),
        presents_come_first(guess),
{
    let n = guess.word.len() as int;
    let word = guess.word;
    assert forall|i: int| 0 <= i < n implies #[trigger] guess.feedback[i] == mark_at(
        word,
        candidate,
        i,
    ) by {}
    assert(correct_where_matching(candidate, guess));
    assert forall|x: char| letter_count(candidate, x) >= #[trigger] min_required(guess, x) by {
        lemma_requirements_share_matches(candidate, guess, x);
        lemma_presents_so_far(word, candidate, x, n);
    }
    assert forall|x: char| #[trigger] max_allowed(guess, x) is Some implies letter_count(
        candidate,
        x,
    ) <= max_allowed(guess, x)->Some_0 by {
        let k = choose|k: int|
            0 <= k < n && word[k] == x && #[trigger] guess.feedback[k] == LetterFeedback::Absent;
        lemma_requirements_share_matches(candidate, guess, x);
        lemma_presents_so_far(word, candidate, x, n);
        lemma_count_grows(k, n, unmatched_guess_at(word, candidate, x));
    }
    assert forall|x: char, i: int| #[trigger] forbidden_at(guess, x, i) implies candidate[i]
        != x by {
        let _ = guess.feedback[i];
    }
    assert forall|i: int, j: int|
        0 <= i < j < n && word[i] == word[j] && #[trigger] guess.feedback[i]
            == LetterFeedback::Absent implies #[trigger] guess.feedback[j]
        != LetterFeedback::Present by {
        lemma_count_grows(i, j, unmatched_guess_at(word, candidate, word[i]));
    }
}

/// A candidate that passes the matcher, holds another letter under each
/// `Absent` mark, and meets marks that put `Present` before `Absent`, gets
/// the recorded feedback from the simulator.
pub proof fn lemma_consistent_feedback_is_simulated(candidate: Seq<char>, guess: GuessView)
    requires
        is_consistent_spec(candidate, guess),
        absent_marks_displaced(candidate, guess),
        presents_come_first(guess),
    ensures
        simulate_spec(guess.word, candidate) == guess.feedback,
{
    let n = guess.word.len() as int;
    let word = guess.word;
    let feedback = guess.feedback;
    assert forall|i: int| 0 <= i < n implies (#[trigger] feedback[i] == LetterFeedback::Correct
        <==> candidate[i] == word[i]) by {
        if feedback[i] == LetterFeedback::Present {
            assert(forbidden_at(guess, word[i], i));
        }
        let _ = required_at(guess, i);
    }
    assert(correct_where_matching(candidate, guess));
    assert forall|i: int| 0 <= i < n implies mark_at(word, candidate, i) == #[trigger] feedback[i] by {
        let x = word[i];
        let presents = present_at(word, feedback, x);
        let unmatched = unmatched_guess_at(word, candidate, x);
        lemma_requirements_share_matches(candidate, guess, x);
        let _ = min_required(guess, x);
        if feedback[i] == LetterFeedback::Present {
            assert forall|j: int| 0 <= j < i implies #[trigger] unmatched(j) == presents(j) by {
                let _ = feedback[j];
            }
            lemma_count_agree(i, unmatched, presents);
            assert(presents(i));
            lemma_count_includes(i, n, presents);
        } else if feedback[i] == LetterFeedback::Absent {
            assert(marked_absent(guess, x));
            assert(max_allowed(guess, x) == Some(min_required(guess, x)));
            assert forall|j: int| i <= j < n implies !#[trigger] presents(j) by {
                let _ = feedback[j];
            }
            lemma_count_stops(i, n, presents);
            assert forall|j: int| 0 <= j < i && #[trigger] presents(j) implies unmatched(j) by {
                let _ = feedback[j];
            }
            lemma_count_implies(i, presents, unmatched);
        }
    }
    assert(simulate_spec(word, candidate) =~= feedback);
}

/// The matcher and the simulator, side by side: the simulator gives the
/// recorded feedback for a candidate exactly when the candidate passes the
/// matcher and, beyond that, holds another letter under each `Absent` mark
/// and meets marks that put `Present` before `Absent` on a repeated letter.
pub proof fn lemma_simulation_refines_matcher(candidate: Seq<char>, guess: GuessView)
    ensures
        (candidate.len() == guess.word.len() && simulate_spec(guess.word, candidate)
            == guess.feedback) <==> (is_consistent_spec(candidate, guess) && absent_marks_displaced(
            candidate,
            guess,
        ) && presents_come_first(guess)),
{
    if candidate.len() == guess.word.len() && simulate_spec(guess.word, candidate)
        == guess.feedback {
        lemma_simulated_feedback_is_consistent(candidate, guess);
    }
    if is_consistent_spec(candidate, guess) && absent_marks_displaced(candidate, guess)
        && presents_come_first(guess) {
        lemma_consistent_feedback_is_simulated(candidate, guess);
    }
}

/// The matcher agrees with the simulator: a candidate passes the matcher
/// exactly when simulating the guess against it gives the recorded feedback.
/// This holds of every candidate that the matcher turns down, and of every
/// one that it accepts with another letter under each `Absent` mark and with
/// marks that put `Present` before `Absent`. Of the remaining candidates it
/// does not hold: the matcher accepts them, the simulator gives other marks.
pub proof fn lemma_matcher_agrees_with_simulator(candidate: Seq<char>, guess: GuessView)
    requires
        is_consistent_spec(candidate, guess) ==> absent_marks_displaced(candidate, guess)
            && presents_come_first(guess),
    ensures
        is_consistent_spec(candidate, guess) <==> (candidate.len() == guess.word.len()
            && simulate_spec(guess.word, candidate) == guess.feedback),
{
    lemma_simulation_refines_matcher(candidate, guess);
}

} // verus!
