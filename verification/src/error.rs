//! What the solver reports when it is handed values that do not fit together.

use vstd::prelude::*;

verus! {

/// The reasons for which the solver turns an input down.
#[derive(Clone, Copy, Debug, PartialEq, Eq, Structural)]
pub enum SolverError {
    /// Two sequences that must have the same length do not: a guess and its
    /// feedback, a guess and an answer, a word and a candidate to compare it
    /// with, or a list of words and the list of their scores.
    InvalidInput,
}

} // verus!
