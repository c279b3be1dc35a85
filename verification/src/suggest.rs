//! The suggestion selector: what to offer as the next guess.

use vstd::prelude::*;
use crate::filter::{filter, filter_spec, DictionaryEntry, EntryView};
use crate::matcher::Guess;
use crate::ranking::SUGGESTION_LIMIT;
use crate::words::{uppercase, uppercase_of};

verus! {

/// How the words of a suggestion were chosen.
#[derive(Clone, Copy, Debug, PartialEq, Eq, Structural)]
pub enum SuggestionKind {
    /// No word of the dictionary is possible: the words are the stock
    /// opening words.
    Fallback,
    /// At most ten words are possible: the words are all of them, in the
    /// order of the dictionary.
    All,
    /// More than ten words are possible: the words are all of them, in the
    /// order of the dictionary, and wait to be scored and ranked.
    Unranked,
}

/// The outcome of a request for the next guess.
#[derive(Debug)]
pub struct Suggestion {
    /// The suggested words, in upper case.
    pub words: Vec<String>,
    /// The number of dictionary entries that are still possible.
    pub possible_count: usize,
    /// How the words were chosen.
    pub kind: SuggestionKind,
}

/// The stock opening words, offered when the dictionary has nothing to offer.
pub open spec fn fallback_words_spec() -> Seq<Seq<char>> {
    seq!["SLATE"@, "CRANE"@, "AUDIO"@, "ARISE"@, "OUTER"@]
}

/// The words of some entries, in upper case.
pub open spec fn uppercased(entries: Seq<EntryView>) -> Seq<Seq<char>> {
    Seq::new(entries.len(), |i: int| uppercase_of(entries[i].word))
}

/// How the words are chosen when `count` entries are possible.
pub open spec fn kind_spec(count: nat) -> SuggestionKind {
    if count == 0 {
        SuggestionKind::Fallback
    } else if count <= SUGGESTION_LIMIT {
        SuggestionKind::All
    } else {
        SuggestionKind::Unranked
    }
}

/// The words of a suggestion when `survivors` are the possible entries.
pub open spec fn words_spec(survivors: Seq<EntryView>) -> Seq<Seq<char>> {
    if survivors.len() == 0 {
        fallback_words_spec()
    } else {
        uppercased(survivors)
    }
}

/// The stock opening words: SLATE, CRANE, AUDIO, ARISE, OUTER.
pub fn fallback_words() -> (words: Vec<String>)
    ensures
        words.deep_view() == fallback_words_spec(),
{
    let mut words: Vec<String> = Vec::new();
    words.push("SLATE".to_owned());
    words.push("CRANE".to_owned());
    words.push("AUDIO".to_owned());
    words.push("ARISE".to_owned());
    words.push("OUTER".to_owned());
    assert(words.deep_view() =~= fallback_words_spec());
    words
}

/// Chooses the words to offer as the next guess, and counts the entries of
/// the dictionary that are still possible.
///
/// Where nothing is possible, because the dictionary is empty or because no
/// entry agrees with the history, the stock opening words are offered and
/// the count is 0. Where up to ten entries are possible, all of them are
/// offered, in the order of the dictionary. Where more are possible, all of
/// them are handed back for scoring; `rank` then picks the ten best.
pub fn suggest(dictionary: &Vec<DictionaryEntry>, history: &Vec<Guess>) -> (suggestion: Suggestion)
    ensures
        suggestion.possible_count == filter_spec(
            dictionary.deep_view(),
            history.deep_view(),
        ).len(),
        suggestion.kind == kind_spec(suggestion.possible_count as nat),
        suggestion.words.deep_view() == words_spec(
            filter_spec(dictionary.deep_view(), history.deep_view()),
        ),
{
    let survivors: Vec<DictionaryEntry> = filter(dictionary, history);
    let count: usize = survivors.len();
    if count == 0 {
        return Suggestion {
            words: fallback_words(),
            possible_count: 0,
            kind: SuggestionKind::Fallback,
        };
    }
    let ghost entries = survivors.deep_view();
    let mut words: Vec<String> = Vec::new();
    let mut i: usize = 0;
    while i < count
        invariant
            count == survivors@.len(),
            entries == survivors.deep_view(),
            i <= count,
            words@.len() == i,
            forall|j: int| 0 <= j < i ==> (#[trigger] words@[j])@ == uppercase_of(entries[j].word),
        decreases count - i,
    {
        words.push(uppercase(survivors[i].word.as_str()));
        i += 1;
    }
    assert(words.deep_view() =~= uppercased(entries));
    let kind: SuggestionKind = if count <= SUGGESTION_LIMIT {
        SuggestionKind::All
    } else {
        SuggestionKind::Unranked
    };
    Suggestion { words, possible_count: count, kind }
}

} // verus!
