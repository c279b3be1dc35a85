//! A candidate-word solver for a five-letter word-guessing game.
//!
//! Given the guesses made so far and the per-letter feedback on each, the
//! library decides which words of a dictionary are still possible and which
//! of them to offer as the next guess.
//!
//! - `feedback`: the three marks that the game puts on a letter.
//! - `words`: words as sequences of letters, and which of them are playable.
//! - `simulate`: the marks that a guess gets when the answer is known.
//! - `matcher`: whether a candidate agrees with a recorded guess.
//! - `agreement`: how matcher and simulator relate.
//! - `filter`: the dictionary entries that a history leaves possible.
//! - `heuristics`, `groups`, `score`: the whole numbers that the score of a
//!   candidate is made from.
//! - `ranking`: the ten best of the scored candidates.
//! - `suggest`: what to offer as the next guess.
//! - `counting`: counting positions, which most of the contracts rest on.

pub mod agreement;
pub mod counting;
pub mod error;
pub mod feedback;
pub mod filter;
pub mod groups;
pub mod heuristics;
pub mod matcher;
pub mod ranking;
pub mod score;
pub mod simulate;
pub mod suggest;
pub mod words;
