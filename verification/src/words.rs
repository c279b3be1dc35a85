//! Words as sequences of letters, and what makes a dictionary word playable.

use vstd::prelude::*;
use vstd::string::*;
use crate::counting::count_where;

verus! {

/// The number of letters in a word of the game.
pub const WORD_LENGTH: usize = 5;

/// Whether `c` is one of the 52 letters `A` to `Z` and `a` to `z`.
pub open spec fn is_ascii_letter_spec(c: char) -> bool {
    ('A' <= c && c <= 'Z') || ('a' <= c && c <= 'z')
}

/// Whether a word has the game's length and holds letters `A` to `Z`, `a` to `z` only.
pub open spec fn is_playable_spec(word: Seq<char>) -> bool {
    &&& word.len() == WORD_LENGTH
    &&& forall|i: int| 0 <= i < word.len() ==> is_ascii_letter_spec(#[trigger] word[i])
}

/// The positions at which a word holds `letter`.
pub open spec fn holds_at(word: Seq<char>, letter: char) -> spec_fn(int) -> bool {
    |k: int| word[k] == letter
}

/// How often `letter` occurs in a word.
pub open spec fn letter_count(word: Seq<char>, letter: char) -> nat {
    count_where(word.len() as int, holds_at(word, letter))
}

/// The upper-case form of a word, as the standard library computes it for
/// the whole of Unicode.
pub uninterp spec fn uppercase_of(word: Seq<char>) -> Seq<char>;

/// Calls `str::to_uppercase`. Nothing is proved of it: the contract only
/// gives the result its name, `uppercase_of`, which says that the upper-case
/// form depends on the letters of the word alone.
#[verifier::external_body]
pub(crate) fn uppercase(word: &str) -> (upper: String)
    ensures
        upper@ == uppercase_of(word@),
{
    word.to_uppercase()
}

/// Whether `c` is one of the 52 letters `A` to `Z` and `a` to `z`.
pub fn is_ascii_letter(c: char) -> (yes: bool)
    ensures
        yes == is_ascii_letter_spec(c),
{
    ('A' <= c && c <= 'Z') || ('a' <= c && c <= 'z')
}

/// The letters of a word, one by one.
pub fn letters(word: &str) -> (out: Vec<char>)
    ensures
        out@ == word@,
{
    let n: usize = word.unicode_len();
    let mut out: Vec<char> = Vec::new();
    let mut i: usize = 0;
    while i < n
        invariant
            n == word@.len(),
            i <= n,
            out@ == word@.subrange(0, i as int),
        decreases n - i,
    {
        out.push(word.get_char(i));
        assert(out@ =~= word@.subrange(0, i + 1));
        i += 1;
    }
    assert(out@ =~= word@);
    out
}

/// Whether a word has five letters, all of them among `A` to `Z` and `a` to `z`.
pub fn is_playable(word: &str) -> (yes: bool)
    ensures
        yes == is_playable_spec(word@),
{
    let w: Vec<char> = letters(word);
    if w.len() != WORD_LENGTH {
        return false;
    }
    let mut i: usize = 0;
    while i < w.len()
        invariant
            i <= w.len(),
            w@ == word@,
            forall|j: int| 0 <= j < i ==> is_ascii_letter_spec(#[trigger] w@[j]),
        decreases w.len() - i,
    {
        if !is_ascii_letter(w[i]) {
            return false;
        }
        i += 1;
    }
    true
}

} // verus!
