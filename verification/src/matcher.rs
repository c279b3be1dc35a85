//! The constraint matcher: whether a candidate word agrees with the feedback
//! recorded for a guess.
//!
//! The answer is not known, so nothing can be simulated against it. What a
//! recorded guess says about the answer is read off its marks instead: how
//! often each letter must occur at least, how often at most, and where it
//! cannot stand.

use vstd::prelude::*;
use vstd::string::*;
use crate::counting::{count_where, lemma_count_none};
use crate::error::SolverError;
use crate::feedback::LetterFeedback;
use crate::simulate::marked_at;
use crate::words::{holds_at, letter_count, letters};

verus! {

/// A guess as the contracts see it: its letters and the mark on each.
pub struct GuessView {
    pub word: Seq<char>,
    pub feedback: Seq<LetterFeedback>,
}

/// A guess with the feedback that the game gave on it, one mark per letter.
#[derive(Debug)]
pub struct Guess {
    word: String,
    feedback: Vec<LetterFeedback>,
}

impl View for Guess {
    type V = GuessView;

    closed spec fn view(&self) -> GuessView {
        GuessView { word: self.word@, feedback: self.feedback@ }
    }
}

impl DeepView for Guess {
    type V = GuessView;

    open spec fn deep_view(&self) -> GuessView {
        self@
    }
}

impl Guess {
    #[verifier::type_invariant]
    spec fn one_mark_per_letter(self) -> bool {
        self.word@.len() == self.feedback@.len()
    }

    /// Records a guess. The feedback must have one mark for each letter of
    /// the word.
    pub fn new(word: &str, feedback: Vec<LetterFeedback>) -> (result: Result<Guess, SolverError>)
        ensures
            word@.len() != feedback@.len() ==> result matches Err(SolverError::InvalidInput),
            word@.len() == feedback@.len() ==> (result matches Ok(guess) && guess@ == (GuessView {
                word: word@,
                feedback: feedback@,
            })),
    {
        if word.unicode_len() != feedback.len() {
            return Err(SolverError::InvalidInput);
        }
        Ok(Guess { word: word.to_owned(), feedback })
    }

    /// The guessed word.
    pub fn word(&self) -> (word: &str)
        ensures
            word@ == self@.word,
            self@.word.len() == self@.feedback.len(),
    {
        proof {
            use_type_invariant(self);
        }
        self.word.as_str()
    }

    /// The marks on the guessed word, one per letter.
    pub fn feedback(&self) -> (feedback: &Vec<LetterFeedback>)
        ensures
            feedback@ == self@.feedback,
            self@.word.len() == self@.feedback.len(),
    {
        proof {
            use_type_invariant(self);
        }
        &self.feedback
    }

    /// How often the answer must hold `letter` at least.
    pub fn min_required(&self, letter: char) -> (least: usize)
        ensures
            least == min_required(self@, letter),
    {
        let w: Vec<char> = letters(self.word());
        count_marked(&w, self.feedback(), letter)
    }

    /// How often the answer may hold `letter` at most; `None` where the
    /// guess sets no limit.
    pub fn max_allowed(&self, letter: char) -> (most: Option<usize>)
        ensures
            most matches Some(limit) ==> max_allowed(self@, letter) == Some(limit as nat),
            most is None ==> max_allowed(self@, letter) is None,
    {
        let w: Vec<char> = letters(self.word());
        let f: &Vec<LetterFeedback> = self.feedback();
        let mut k: usize = 0;
        while k < w.len()
            invariant
                w@ == self@.word,
                f@ == self@.feedback,
                w@.len() == f@.len(),
                k <= w.len(),
                forall|m: int|
                    0 <= m < k ==> !(w@[m] == letter && #[trigger] f@[m]
                        == LetterFeedback::Absent),
            decreases w.len() - k,
        {
            if w[k] == letter && f[k] == LetterFeedback::Absent {
                return Some(count_marked(&w, f, letter));
            }
            k += 1;
        }
        None
    }

    /// Whether the guess rules `letter` out at `position`.
    pub fn is_forbidden_at(&self, letter: char, position: usize) -> (yes: bool)
        ensures
            yes == forbidden_at(self@, letter, position as int),
    {
        let w: Vec<char> = letters(self.word());
        let f: &Vec<LetterFeedback> = self.feedback();
        position < w.len() && w[position] == letter && f[position] == LetterFeedback::Present
    }

    /// The letter that the answer must hold at `position`, where the guess
    /// fixes one.
    pub fn required_at(&self, position: usize) -> (letter: Option<char>)
        ensures
            letter == required_at(self@, position as int),
    {
        let w: Vec<char> = letters(self.word());
        let f: &Vec<LetterFeedback> = self.feedback();
        if position < w.len() && f[position] == LetterFeedback::Correct {
            Some(w[position])
        } else {
            None
        }
    }
}

impl Clone for Guess {
    fn clone(&self) -> (copy: Self)
        ensures
            copy@ == self@,
    {
        proof {
            use_type_invariant(self);
        }
        let mut feedback: Vec<LetterFeedback> = Vec::new();
        let mut i: usize = 0;
        while i < self.feedback.len()
            invariant
                i <= self.feedback.len(),
                feedback@ == self.feedback@.take(i as int),
            decreases self.feedback.len() - i,
        {
            feedback.push(self.feedback[i]);
            assert(feedback@ =~= self.feedback@.take(i + 1));
            i += 1;
        }
        assert(feedback@ =~= self.feedback@);
        Guess { word: self.word.clone(), feedback }
    }
}

/// How often a letter must occur in the answer at least: once for each
/// position at which the guess holds it with the mark `Present` or `Correct`.
pub open spec fn min_required(guess: GuessView, letter: char) -> nat {
    count_where(guess.word.len() as int, marked_at(guess.word, guess.feedback, letter))
}

/// Whether the guess holds the letter at some position with the mark `Absent`.
pub open spec fn marked_absent(guess: GuessView, letter: char) -> bool {
    exists|k: int|
        0 <= k < guess.word.len() && guess.word[k] == letter && #[trigger] guess.feedback[k]
            == LetterFeedback::Absent
}

/// How often a letter may occur in the answer at most, where the guess sets
/// a limit. An `Absent` mark on a letter says that the answer holds it no
/// more often than the other marks on that letter account for: not at all
/// where there are none.
pub open spec fn max_allowed(guess: GuessView, letter: char) -> Option<nat> {
    if marked_absent(guess, letter) {
        Some(min_required(guess, letter))
    } else {
        None
    }
}

/// Whether the guess rules the letter out at a position: it holds the
/// letter there with the mark `Present`.
pub open spec fn forbidden_at(guess: GuessView, letter: char, position: int) -> bool {
    &&& 0 <= position < guess.word.len()
    &&& guess.word[position] == letter
    &&& guess.feedback[position] == LetterFeedback::Present
}

/// The letter that the guess fixes at a position: the one that it holds
/// there with the mark `Correct`.
pub open spec fn required_at(guess: GuessView, position: int) -> Option<char> {
    if 0 <= position < guess.word.len() && position < guess.feedback.len()
        && guess.feedback[position] == LetterFeedback::Correct {
        Some(guess.word[position])
    } else {
        None
    }
}

/// Whether a candidate agrees with a recorded guess: it has the guess's
/// length, holds each letter marked `Correct` at its position, holds every
/// letter at least as often as required and at most as often as allowed, and
/// holds no letter at a position where the guess rules it out.
pub open spec fn is_consistent_spec(candidate: Seq<char>, guess: GuessView) -> bool {
    &&& candidate.len() == guess.word.len()
    &&& guess.word.len() == guess.feedback.len()
    &&& forall|i: int| #[trigger]
        required_at(guess, i) matches Some(letter) ==> candidate[i] == letter
    &&& forall|x: char| letter_count(candidate, x) >= #[trigger] min_required(guess, x)
    &&& forall|x: char| #[trigger]
        max_allowed(guess, x) matches Some(most) ==> letter_count(candidate, x) <= most
    &&& forall|x: char, i: int| #[trigger] forbidden_at(guess, x, i) ==> candidate[i] != x
}

/// Whether a candidate agrees with every guess of a history.
pub open spec fn consistent_with_history_spec(candidate: Seq<char>, history: Seq<GuessView>) -> bool {
    forall|i: int| 0 <= i < history.len() ==> is_consistent_spec(candidate, #[trigger] history[i])
}

/// The order of the guesses does not matter, nor does it matter how often a
/// guess is held: two histories that hold the same guesses rule out the same
/// candidates.
pub proof fn lemma_history_order_is_irrelevant(
    candidate: Seq<char>,
    history: Seq<GuessView>,
    other: Seq<GuessView>,
)
    requires
        forall|guess: GuessView| history.contains(guess) <==> other.contains(guess),
    ensures
        consistent_with_history_spec(candidate, history) == consistent_with_history_spec(
            candidate,
            other,
        ),
{
    if consistent_with_history_spec(candidate, history) {
        assert forall|i: int| 0 <= i < other.len() implies is_consistent_spec(
            candidate,
            #[trigger] other[i],
        ) by {
            assert(other.contains(other[i]));
            let j = choose|j: int| 0 <= j < history.len() && history[j] == other[i];
            assert(is_consistent_spec(candidate, history[j]));
        }
    }
    if consistent_with_history_spec(candidate, other) {
        assert forall|i: int| 0 <= i < history.len() implies is_consistent_spec(
            candidate,
            #[trigger] history[i],
        ) by {
            assert(history.contains(history[i]));
            let j = choose|j: int| 0 <= j < other.len() && other[j] == history[i];
            assert(is_consistent_spec(candidate, other[j]));
        }
    }
}

/// Counts the occurrences of a letter in a word.
fn count_letter(word: &Vec<char>, letter: char) -> (count: usize)
    ensures
        count == letter_count(word@, letter),
{
    let mut count: usize = 0;
    let mut k: usize = 0;
    while k < word.len()
        invariant
            k <= word.len(),
            count == count_where(k as int, holds_at(word@, letter)),
            count <= k,
        decreases word.len() - k,
    {
        if word[k] == letter {
            count += 1;
        }
        k += 1;
    }
    count
}

/// Counts the positions at which a guess holds a letter with the mark
/// `Present` or `Correct`.
fn count_marked(word: &Vec<char>, feedback: &Vec<LetterFeedback>, letter: char) -> (count: usize)
    requires
        word@.len() == feedback@.len(),
    ensures
        count == count_where(word@.len() as int, marked_at(word@, feedback@, letter)),
{
    let mut count: usize = 0;
    let mut k: usize = 0;
    while k < word.len()
        invariant
            word@.len() == feedback@.len(),
            k <= word.len(),
            count == count_where(k as int, marked_at(word@, feedback@, letter)),
            count <= k,
        decreases word.len() - k,
    {
        if word[k] == letter && feedback[k] != LetterFeedback::Absent {
            count += 1;
        }
        k += 1;
    }
    count
}

/// What the matcher has checked once it is done with the first `upto`
/// positions of a guess.
spec fn checked_up_to(candidate: Seq<char>, guess: GuessView, upto: int) -> bool {
    forall|j: int|
        #![trigger guess.word[j]]
        0 <= j < upto ==> {
            &&& guess.feedback[j] == LetterFeedback::Correct ==> candidate[j] == guess.word[j]
            &&& guess.feedback[j] == LetterFeedback::Present ==> candidate[j] != guess.word[j]
            &&& letter_count(candidate, guess.word[j]) >= min_required(guess, guess.word[j])
            &&& guess.feedback[j] == LetterFeedback::Absent ==> letter_count(
                candidate,
                guess.word[j],
            ) <= min_required(guess, guess.word[j])
        }
}

/// A candidate that passes the check at every position of a guess agrees
/// with the guess: a letter that the guess does not hold is under no
/// constraint.
proof fn lemma_checked_is_consistent(candidate: Seq<char>, guess: GuessView)
    requires
        candidate.len() == guess.word.len(),
        guess.word.len() == guess.feedback.len(),
        checked_up_to(candidate, guess, guess.word.len() as int),
    ensures
        is_consistent_spec(candidate, guess),
{
    let n = guess.word.len() as int;
    assert forall|i: int| #[trigger] required_at(guess, i) is Some implies candidate[i]
        == required_at(guess, i)->Some_0 by {
        let _ = guess.word[i];
    }
    assert forall|x: char| letter_count(candidate, x) >= #[trigger] min_required(guess, x) by {
        let marked = marked_at(guess.word, guess.feedback, x);
        if exists|j: int| 0 <= j < n && #[trigger] marked(j) {
            let j = choose|j: int| 0 <= j < n && #[trigger] marked(j);
            let _ = guess.word[j];
        } else {
            lemma_count_none(n, marked);
        }
    }
    assert forall|x: char| #[trigger] max_allowed(guess, x) is Some implies letter_count(
        candidate,
        x,
    ) <= max_allowed(guess, x)->Some_0 by {
        let k = choose|k: int|
            0 <= k < n && guess.word[k] == x && #[trigger] guess.feedback[k]
                == LetterFeedback::Absent;
        let _ = guess.word[k];
    }
    assert forall|x: char, i: int| #[trigger] forbidden_at(guess, x, i) implies candidate[i]
        != x by {
        let _ = guess.word[i];
    }
}

/// The matcher on letters: checks, position by position, the letter that
/// the guess holds there.
pub(crate) fn matches_letters(
    candidate: &Vec<char>,
    word: &Vec<char>,
    feedback: &Vec<LetterFeedback>,
) -> (yes: bool)
    requires
        word@.len() == feedback@.len(),
    ensures
        yes == is_consistent_spec(candidate@, GuessView { word: word@, feedback: feedback@ }),
{
    let ghost guess = GuessView { word: word@, feedback: feedback@ };
    if candidate.len() != word.len() {
        return false;
    }
    let n: usize = word.len();
    let mut i: usize = 0;
    while i < n
        invariant
            n == word@.len(),
            n == feedback@.len(),
            n == candidate@.len(),
            i <= n,
            guess == (GuessView { word: word@, feedback: feedback@ }),
            checked_up_to(candidate@, guess, i as int),
        decreases n - i,
    {
        let letter: char = word[i];
        match feedback[i] {
            LetterFeedback::Correct => {
                if candidate[i] != letter {
                    assert(required_at(guess, i as int) == Some(letter));
                    return false;
                }
            },
            LetterFeedback::Present => {
                if candidate[i] == letter {
                    assert(forbidden_at(guess, letter, i as int));
                    return false;
                }
            },
            LetterFeedback::Absent => {},
        }
        let need: usize = count_marked(word, feedback, letter);
        let have: usize = count_letter(candidate, letter);
        if have < need {
            assert(letter_count(candidate@, letter) < min_required(guess, letter));
            return false;
        }
        if feedback[i] == LetterFeedback::Absent && have > need {
            assert(marked_absent(guess, letter));
            assert(max_allowed(guess, letter) == Some(min_required(guess, letter)));
            return false;
        }
        i += 1;
    }
    proof {
        lemma_checked_is_consistent(candidate@, guess);
    }
    true
}

/// Whether a candidate word agrees with one recorded guess.
pub fn is_consistent(candidate: &str, guess: &Guess) -> (yes: bool)
    ensures
        yes == is_consistent_spec(candidate@, guess@),
{
    let c: Vec<char> = letters(candidate);
    let w: Vec<char> = letters(guess.word());
    matches_letters(&c, &w, guess.feedback())
}

/// Whether a candidate word agrees with every guess of a history. A single
/// guess that it does not agree with rules it out.
pub fn is_consistent_with_history(candidate: &str, history: &Vec<Guess>) -> (yes: bool)
    ensures
        yes == consistent_with_history_spec(candidate@, history.deep_view()),
{
    let c: Vec<char> = letters(candidate);
    let mut i: usize = 0;
    while i < history.len()
        invariant
            i <= history.len(),
            c@ == candidate@,
            forall|j: int|
                0 <= j < i ==> is_consistent_spec(candidate@, #[trigger] history.deep_view()[j]),
        decreases history.len() - i,
    {
        let guess: &Guess = &history[i];
        let w: Vec<char> = letters(guess.word());
        if !matches_letters(&c, &w, guess.feedback()) {
            assert(!is_consistent_spec(candidate@, history.deep_view()[i as int]));
            return false;
        }
        assert(history.deep_view()[i as int] == guess@);
        i += 1;
    }
    true
}

} // verus!
