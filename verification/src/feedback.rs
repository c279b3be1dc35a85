//! The three-valued mark that the game puts on each letter of a guess.

use vstd::prelude::*;

verus! {

/// The mark on one letter of a guess.
#[derive(Clone, Copy, Debug, PartialEq, Eq, Structural, Hash)]
pub enum LetterFeedback {
    /// The letter does not occur in the answer (beyond what other marks account for).
    Absent,
    /// The letter occurs in the answer, at another position.
    Present,
    /// The letter stands at this position in the answer.
    Correct,
}

impl LetterFeedback {
    /// The number under which a mark is stored and transmitted.
    pub open spec fn code_spec(self) -> u8 {
        match self {
            LetterFeedback::Absent => 0,
            LetterFeedback::Present => 1,
            LetterFeedback::Correct => 2,
        }
    }

    /// The mark that a stored number stands for, if any.
    pub open spec fn from_code_spec(code: u8) -> Option<LetterFeedback> {
        if code == 0 {
            Some(LetterFeedback::Absent)
        } else if code == 1 {
            Some(LetterFeedback::Present)
        } else if code == 2 {
            Some(LetterFeedback::Correct)
        } else {
            None
        }
    }

    /// The number of a mark: 0 for absent, 1 for present, 2 for correct.
    pub fn code(self) -> (code: u8)
        ensures
            code == self.code_spec(),
    {
        match self {
            LetterFeedback::Absent => 0,
            LetterFeedback::Present => 1,
            LetterFeedback::Correct => 2,
        }
    }

    /// The mark with the given number; `None` for a number above 2.
    pub fn from_code(code: u8) -> (mark: Option<LetterFeedback>)
        ensures
            mark == Self::from_code_spec(code),
    {
        match code {
            0 => Some(LetterFeedback::Absent),
            1 => Some(LetterFeedback::Present),
            2 => Some(LetterFeedback::Correct),
            _ => None,
        }
    }

    /// The mark that follows this one when a player cycles through them:
    /// absent, present, correct, and absent again.
    pub open spec fn next_spec(self) -> LetterFeedback {
        match self {
            LetterFeedback::Absent => LetterFeedback::Present,
            LetterFeedback::Present => LetterFeedback::Correct,
            LetterFeedback::Correct => LetterFeedback::Absent,
        }
    }

    /// The next mark in the cycle absent, present, correct.
    pub fn next(self) -> (mark: LetterFeedback)
        ensures
            mark == self.next_spec(),
    {
        match self {
            LetterFeedback::Absent => LetterFeedback::Present,
            LetterFeedback::Present => LetterFeedback::Correct,
            LetterFeedback::Correct => LetterFeedback::Absent,
        }
    }

    /// Every mark is found again from its number, and no other number gives it.
    pub proof fn lemma_code_round_trip(mark: LetterFeedback, code: u8)
        ensures
            Self::from_code_spec(mark.code_spec()) == Some(mark),
            Self::from_code_spec(code) == Some(mark) ==> code == mark.code_spec(),
    {
    }
}

} // verus!
