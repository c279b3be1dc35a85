//! The candidate filter: the dictionary entries that a history of guesses
//! leaves possible.

use vstd::prelude::*;
use crate::matcher::{
    consistent_with_history_spec, is_consistent_spec, is_consistent_with_history, Guess, GuessView,
};
use crate::words::{is_playable, is_playable_spec, uppercase, uppercase_of};

verus! {

/// A dictionary entry as the contracts see it.
pub struct EntryView {
    pub id: i32,
    pub word: Seq<char>,
}

/// A word of the dictionary, with the number under which the dictionary
/// keeps it.
#[derive(Debug, PartialEq, Eq)]
pub struct DictionaryEntry {
    pub id: i32,
    pub word: String,
}

impl View for DictionaryEntry {
    type V = EntryView;

    open spec fn view(&self) -> EntryView {
        EntryView { id: self.id, word: self.word@ }
    }
}

impl DeepView for DictionaryEntry {
    type V = EntryView;

    open spec fn deep_view(&self) -> EntryView {
        self@
    }
}

impl DictionaryEntry {
    /// An entry with the given number and word.
    pub fn new(id: i32, word: &str) -> (entry: DictionaryEntry)
        ensures
            entry@ == (EntryView { id, word: word@ }),
    {
        DictionaryEntry { id, word: word.to_owned() }
    }

}

impl Clone for DictionaryEntry {
    fn clone(&self) -> (copy: Self)
        ensures
            copy@ == self@,
    {
        DictionaryEntry { id: self.id, word: self.word.clone() }
    }
}

/// Whether a word, once in upper case, is playable and agrees with every
/// guess of the history.
pub open spec fn is_candidate_spec(word: Seq<char>, history: Seq<GuessView>) -> bool {
    &&& is_playable_spec(uppercase_of(word))
    &&& consistent_with_history_spec(uppercase_of(word), history)
}

/// The entries that a history leaves possible.
pub open spec fn survives(history: Seq<GuessView>) -> spec_fn(EntryView) -> bool {
    |entry: EntryView| is_candidate_spec(entry.word, history)
}

/// The entries of a dictionary that a history leaves possible, in the
/// dictionary's order and as often as the dictionary holds them.
pub open spec fn filter_spec(dictionary: Seq<EntryView>, history: Seq<GuessView>) -> Seq<EntryView> {
    dictionary.filter(survives(history))
}

/// Whether a dictionary word is still possible after the guesses of a
/// history. Case does not matter; a word that is not made of five letters
/// `A` to `Z` is never possible.
pub fn is_candidate(word: &str, history: &Vec<Guess>) -> (yes: bool)
    ensures
        yes == is_candidate_spec(word@, history.deep_view()),
{
    let upper: String = uppercase(word);
    is_playable(upper.as_str()) && is_consistent_with_history(upper.as_str(), history)
}

/// The entries of the dictionary that are still possible after the guesses
/// of a history. Entries that are not playable words are left out without
/// complaint. The order of the dictionary is kept, and so are repetitions.
pub fn filter(dictionary: &Vec<DictionaryEntry>, history: &Vec<Guess>) -> (survivors: Vec<
    DictionaryEntry,
>)
    ensures
        survivors.deep_view() == filter_spec(dictionary.deep_view(), history.deep_view()),
{
    let ghost all = dictionary.deep_view();
    let ghost keep = survives(history.deep_view());
    let mut survivors: Vec<DictionaryEntry> = Vec::new();
    let mut i: usize = 0;
    assert(all.take(0) =~= Seq::<EntryView>::empty());
    assert(survivors.deep_view() =~= Seq::<EntryView>::empty());
    while i < dictionary.len()
        invariant
            i <= dictionary.len(),
            all == dictionary.deep_view(),
            keep == survives(history.deep_view()),
            survivors.deep_view() == all.take(i as int).filter(keep),
        decreases dictionary.len() - i,
    {
        let entry: &DictionaryEntry = &dictionary[i];
        let ghost before = survivors.deep_view();
        proof {
            assert(all.take(i + 1) =~= all.take(i as int).push(entry@));
            all.take(i as int).lemma_filter_push(entry@, keep);
        }
        if is_candidate(entry.word.as_str(), history) {
            survivors.push(entry.clone());
            assert(survivors.deep_view() =~= before.push(entry@));
        }
        i += 1;
    }
    assert(all.take(i as int) =~= all);
    survivors
}

/// Filtering twice with the same test keeps what filtering once keeps.
proof fn lemma_filter_twice<A>(s: Seq<A>, keep: spec_fn(A) -> bool)
    ensures
        s.filter(keep).filter(keep) == s.filter(keep),
    decreases s.len(),
{
    reveal(Seq::filter);
    if s.len() > 0 {
        let rest = s.drop_last();
        lemma_filter_twice(rest, keep);
        assert(s =~= rest.push(s.last()));
        rest.lemma_filter_push(s.last(), keep);
        rest.filter(keep).lemma_filter_push(s.last(), keep);
    }
}

/// Filtering with a stronger test keeps no more, and keeps the same as
/// filtering with the weaker test first.
proof fn lemma_filter_stronger<A>(s: Seq<A>, weak: spec_fn(A) -> bool, strong: spec_fn(A) -> bool)
    requires
        forall|a: A| #[trigger] strong(a) ==> weak(a),
    ensures
        s.filter(strong).len() <= s.filter(weak).len(),
        s.filter(weak).filter(strong) == s.filter(strong),
    decreases s.len(),
{
    reveal(Seq::filter);
    if s.len() > 0 {
        let rest = s.drop_last();
        lemma_filter_stronger(rest, weak, strong);
        assert(s =~= rest.push(s.last()));
        rest.lemma_filter_push(s.last(), weak);
        rest.lemma_filter_push(s.last(), strong);
        rest.filter(weak).lemma_filter_push(s.last(), strong);
    }
}

/// Filtering is idempotent: what a history leaves of a dictionary, the same
/// history leaves whole.
pub proof fn lemma_filter_idempotent(dictionary: Seq<EntryView>, history: Seq<GuessView>)
    ensures
        filter_spec(filter_spec(dictionary, history), history) == filter_spec(dictionary, history),
{
    lemma_filter_twice(dictionary, survives(history));
}

/// Filtering is monotone: one more guess in the history never leaves more
/// entries possible. It only removes entries from those that were possible
/// before.
pub proof fn lemma_filter_monotone(
    dictionary: Seq<EntryView>,
    history: Seq<GuessView>,
    guess: GuessView,
)
    ensures
        filter_spec(dictionary, history.push(guess)).len() <= filter_spec(dictionary, history).len(),
        filter_spec(dictionary, history.push(guess)) == filter_spec(
            filter_spec(dictionary, history),
            history.push(guess),
        ),
{
    let longer = history.push(guess);
    assert forall|entry: EntryView| #[trigger] survives(longer)(entry) implies survives(history)(
        entry,
    ) by {
        let upper = uppercase_of(entry.word);
        assert forall|i: int| 0 <= i < history.len() implies is_consistent_spec(
            upper,
            #[trigger] history[i],
        ) by {
            assert(longer[i] == history[i]);
        }
    }
    lemma_filter_stronger(dictionary, survives(history), survives(longer));
}

} // verus!
