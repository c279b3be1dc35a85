//! The scoring engine, as far as it counts: everything that goes into the
//! score of a candidate but the arithmetic on fractions.
//!
//! The score of a word is the sum of
//! - `DIVERSITY_WEIGHT` points for each different letter,
//! - a tenth of a point for each unit of its letters' weights,
//! - the points for its balance of vowels and other letters,
//! - its information gain, a number from 0 to 10 that is computed from the
//!   sizes of the groups into which the word would split the candidates,
//! - `opening_weight` points more for each different letter,
//! - `late_gain_weight` times its information gain once more, and
//! - the confidence bonus.

use vstd::prelude::*;
use crate::error::SolverError;
use crate::groups::{groups_patterns, pattern_groups, patterns_of, total_of};
use crate::heuristics::{
    balance_points, balance_spec, count_distinct, count_vowels, distinct_letters_spec,
    letter_weight_spec, letter_weights,
};
use crate::matcher::Guess;
use crate::words::letters;

verus! {

/// The points for each different letter of a word.
pub const DIVERSITY_WEIGHT: usize = 2;

/// The points that each different letter counts more on the first guess.
pub const OPENING_WEIGHT: usize = 3;

/// The number of guesses after which the late game begins.
pub const LATE_GAME_GUESSES: usize = 3;

/// How many times more the information gain counts in the late game.
pub const LATE_GAIN_WEIGHT: usize = 2;

/// The number of candidates up to which the late game gives the confidence bonus.
pub const CONFIDENT_CANDIDATES: usize = 50;

/// The points of the confidence bonus.
pub const CONFIDENCE_BONUS: usize = 5;

/// What each different letter counts more after `guesses` guesses: on the
/// first guess `OPENING_WEIGHT`, later nothing.
pub open spec fn opening_weight_spec(guesses: nat) -> nat {
    if guesses == 0 {
        OPENING_WEIGHT as nat
    } else {
        0
    }
}

/// How many times more the information gain counts after `guesses` guesses.
pub open spec fn late_gain_weight_spec(guesses: nat) -> nat {
    if guesses >= LATE_GAME_GUESSES {
        LATE_GAIN_WEIGHT as nat
    } else {
        0
    }
}

/// The bonus for a late game with few candidates left.
pub open spec fn confidence_bonus_spec(guesses: nat, candidates: nat) -> nat {
    if guesses >= LATE_GAME_GUESSES && candidates <= CONFIDENT_CANDIDATES {
        CONFIDENCE_BONUS as nat
    } else {
        0
    }
}

/// The whole numbers from which the score of a word is made.
#[derive(Debug)]
pub struct ScoreParts {
    /// The number of different letters in the word.
    pub distinct_letters: usize,
    /// The weight of each letter of the word, in tenths of a point.
    pub letter_tenths: Vec<usize>,
    /// The points for the balance of vowels and other letters.
    pub balance: usize,
    /// The sizes of the groups into which the word would split the
    /// candidates, in the order in which their feedback patterns first occur.
    pub group_sizes: Vec<usize>,
    /// What each different letter counts more at this point of the game.
    pub opening_weight: usize,
    /// How many times more the information gain counts at this point of the game.
    pub late_gain_weight: usize,
    /// The bonus for a late game with few candidates left.
    pub confidence_bonus: usize,
}

/// What each different letter counts more after `guesses` guesses.
pub fn opening_weight(guesses: usize) -> (weight: usize)
    ensures
        weight == opening_weight_spec(guesses as nat),
{
    if guesses == 0 {
        OPENING_WEIGHT
    } else {
        0
    }
}

/// How many times more the information gain counts after `guesses` guesses.
pub fn late_gain_weight(guesses: usize) -> (weight: usize)
    ensures
        weight == late_gain_weight_spec(guesses as nat),
{
    if guesses >= LATE_GAME_GUESSES {
        LATE_GAIN_WEIGHT
    } else {
        0
    }
}

/// The bonus after `guesses` guesses with `candidates` candidates left.
pub fn confidence_bonus(guesses: usize, candidates: usize) -> (bonus: usize)
    ensures
        bonus == confidence_bonus_spec(guesses as nat, candidates as nat),
{
    if guesses >= LATE_GAME_GUESSES && candidates <= CONFIDENT_CANDIDATES {
        CONFIDENCE_BONUS
    } else {
        0
    }
}

/// The parts of the score of `word` as the next guess, when `candidates`
/// are the words still possible and `history` holds the guesses made so
/// far. Every candidate must have as many letters as the word.
pub fn score_parts(word: &str, candidates: &Vec<String>, history: &Vec<Guess>) -> (result: Result<
    ScoreParts,
    SolverError,
>)
    ensures
        (exists|i: int|
            0 <= i < candidates@.len() && (#[trigger] candidates@[i])@.len() != word@.len())
            ==> result matches Err(SolverError::InvalidInput),
        (forall|i: int|
            0 <= i < candidates@.len() ==> (#[trigger] candidates@[i])@.len() == word@.len()) ==> (
        result matches Ok(parts) && {
            &&& parts.distinct_letters == distinct_letters_spec(word@)
            &&& parts.letter_tenths@.len() == word@.len()
            &&& forall|i: int|
                0 <= i < word@.len() ==> #[trigger] parts.letter_tenths@[i] == letter_weight_spec(
                    word@[i],
                )
            &&& parts.balance == balance_spec(word@)
            &&& groups_patterns(parts.group_sizes@, patterns_of(word@, candidates.deep_view()))
            &&& total_of(parts.group_sizes@) == candidates@.len()
            &&& forall|k: int|
                0 <= k < parts.group_sizes@.len() ==> #[trigger] parts.group_sizes@[k] >= 1
            &&& parts.opening_weight == opening_weight_spec(history@.len())
            &&& parts.late_gain_weight == late_gain_weight_spec(history@.len())
            &&& parts.confidence_bonus == confidence_bonus_spec(
                history@.len(),
                candidates@.len(),
            )
        }),
{
    let group_sizes: Vec<usize> = match pattern_groups(word, candidates) {
        Ok(sizes) => sizes,
        Err(e) => {
            return Err(e);
        },
    };
    let w: Vec<char> = letters(word);
    let letter_tenths: Vec<usize> = letter_weights(word);
    let vowels: usize = count_vowels(&w);
    Ok(
        ScoreParts {
            distinct_letters: count_distinct(&w),
            letter_tenths,
            balance: balance_points(vowels, w.len()),
            group_sizes,
            opening_weight: opening_weight(history.len()),
            late_gain_weight: late_gain_weight(history.len()),
            confidence_bonus: confidence_bonus(history.len(), candidates.len()),
        },
    )
}

} // verus!
