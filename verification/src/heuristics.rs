//! The parts of a word's score that depend on the word alone: how many
//! different letters it has, how common they are, and how its vowels and
//! consonants balance.

use vstd::prelude::*;
use vstd::string::*;
use crate::counting::count_where;
use crate::words::letters;

verus! {

/// The number of different letters in a word.
pub open spec fn distinct_letters_spec(word: Seq<char>) -> nat {
    word.to_set().len()
}

/// The letters of the alphabet, the most common first.
pub open spec fn frequency_order() -> Seq<char> {
    "EAIOTRNSLCUDPMHGBFYWKVXZJQ"@
}

/// What a letter adds to a word's score for being common, in tenths of a
/// point: 26 for the first letter of the frequency order, one less for each
/// place further down, nothing for a character that is not in it.
pub open spec fn letter_weight_spec(c: char) -> nat {
    match frequency_order().index_of_first(c) {
        Some(rank) => (26 - rank) as nat,
        None => 0,
    }
}

/// Whether a character is one of the vowels `A`, `E`, `I`, `O`, `U`.
pub open spec fn is_vowel_spec(c: char) -> bool {
    c == 'A' || c == 'E' || c == 'I' || c == 'O' || c == 'U'
}

/// The positions at which a word holds a vowel.
pub open spec fn vowel_at(word: Seq<char>) -> spec_fn(int) -> bool {
    |i: int| is_vowel_spec(word[i])
}

/// The number of vowels in a word, counting repetitions.
pub open spec fn vowel_count_spec(word: Seq<char>) -> nat {
    count_where(word.len() as int, vowel_at(word))
}

/// The distance between two numbers.
pub open spec fn distance(a: int, b: int) -> int {
    if a >= b {
        a - b
    } else {
        b - a
    }
}

/// The points that a word gets for its balance of vowels and other letters:
/// five for two vowels and three others, one less for each letter by which
/// either number misses its target, and never less than nothing.
pub open spec fn balance_spec(word: Seq<char>) -> nat {
    let vowels = vowel_count_spec(word) as int;
    let others = word.len() - vowels;
    let points = 5 - distance(vowels, 2) - distance(others, 3);
    if points > 0 {
        points as nat
    } else {
        0
    }
}

/// Counts the different letters of a word.
pub(crate) fn count_distinct(word: &Vec<char>) -> (count: usize)
    ensures
        count == distinct_letters_spec(word@),
{
    broadcast use vstd::seq_lib::seq_to_set_is_finite;

    let n: usize = word.len();
    let mut count: usize = 0;
    let mut i: usize = 0;
    assert(word@.take(0).to_set() =~= Set::<char>::empty());
    while i < n
        invariant
            n == word@.len(),
            i <= n,
            count <= i,
            count == word@.take(i as int).to_set().len(),
        decreases n - i,
    {
        let letter: char = word[i];
        let mut j: usize = 0;
        while j < i && word[j] != letter
            invariant
                n == word@.len(),
                i < n,
                j <= i,
                letter == word@[i as int],
                forall|m: int| 0 <= m < j ==> word@[m] != letter,
            decreases i - j,
        {
            j += 1;
        }
        proof {
            let before = word@.take(i as int);
            assert(word@.take(i + 1) =~= before.push(letter));
            before.lemma_push_to_set_commute(letter);
            if j < i {
                assert(before[j as int] == letter);
                assert(before.to_set().contains(letter));
                assert(before.to_set().insert(letter) =~= before.to_set());
            } else {
                assert(!before.to_set().contains(letter)) by {
                    if before.contains(letter) {
                        let m = choose|m: int| 0 <= m < before.len() && before[m] == letter;
                        assert(word@[m] == letter);
                    }
                }
            }
        }
        if j == i {
            count += 1;
        }
        i += 1;
    }
    assert(word@.take(n as int) =~= word@);
    count
}

/// The number of different letters in a word.
pub fn distinct_letter_count(word: &str) -> (count: usize)
    ensures
        count == distinct_letters_spec(word@),
{
    let w: Vec<char> = letters(word);
    count_distinct(&w)
}

/// What a letter adds to a word's score for being common, in tenths of a
/// point: from 26 for `E` down to 1 for `Q`, and nothing for any other
/// character.
pub fn letter_weight(c: char) -> (weight: usize)
    ensures
        weight == letter_weight_spec(c),
        weight <= 26,
{
    let order: &str = "EAIOTRNSLCUDPMHGBFYWKVXZJQ";
    proof {
        reveal_strlit("EAIOTRNSLCUDPMHGBFYWKVXZJQ");
        frequency_order().index_of_first_ensures(c);
    }
    let n: usize = order.unicode_len();
    let mut i: usize = 0;
    while i < n
        invariant
            n == 26,
            order@ == frequency_order(),
            order@.len() == 26,
            i <= n,
            forall|j: int| 0 <= j < i ==> order@[j] != c,
        decreases n - i,
    {
        if order.get_char(i) == c {
            proof {
                frequency_order().index_of_first_ensures(c);
                assert(frequency_order().contains(c));
            }
            return 26 - i;
        }
        i += 1;
    }
    proof {
        frequency_order().index_of_first_ensures(c);
    }
    0
}

/// The weight of each letter of a word, position by position.
pub fn letter_weights(word: &str) -> (weights: Vec<usize>)
    ensures
        weights@.len() == word@.len(),
        forall|i: int| 0 <= i < word@.len() ==> #[trigger] weights@[i] == letter_weight_spec(word@[i]),
{
    let w: Vec<char> = letters(word);
    let mut weights: Vec<usize> = Vec::new();
    let mut i: usize = 0;
    while i < w.len()
        invariant
            w@ == word@,
            i <= w.len(),
            weights@.len() == i,
            forall|j: int| 0 <= j < i ==> #[trigger] weights@[j] == letter_weight_spec(word@[j]),
        decreases w.len() - i,
    {
        weights.push(letter_weight(w[i]));
        i += 1;
    }
    weights
}

/// Whether a character is one of the vowels `A`, `E`, `I`, `O`, `U`.
pub fn is_vowel(c: char) -> (yes: bool)
    ensures
        yes == is_vowel_spec(c),
{
    c == 'A' || c == 'E' || c == 'I' || c == 'O' || c == 'U'
}

/// Counts the vowels of a word.
pub(crate) fn count_vowels(word: &Vec<char>) -> (count: usize)
    ensures
        count == vowel_count_spec(word@),
        count <= word@.len(),
{
    let mut count: usize = 0;
    let mut i: usize = 0;
    while i < word.len()
        invariant
            i <= word.len(),
            count <= i,
            count == count_where(i as int, vowel_at(word@)),
        decreases word.len() - i,
    {
        if is_vowel(word[i]) {
            count += 1;
        }
        i += 1;
    }
    count
}

/// The points for the balance of a word with `vowels` vowels among `length` letters.
pub(crate) fn balance_points(vowels: usize, length: usize) -> (points: usize)
    requires
        vowels <= length,
    ensures
        points == ({
            let raw = 5 - distance(vowels as int, 2) - distance(length - vowels, 3);
            if raw > 0 {
                raw
            } else {
                0
            }
        }),
        points <= 5,
{
    let others: usize = length - vowels;
    let vowels_off: usize = if vowels >= 2 {
        vowels - 2
    } else {
        2 - vowels
    };
    let others_off: usize = if others >= 3 {
        others - 3
    } else {
        3 - others
    };
    if vowels_off >= 5 {
        0
    } else if others_off >= 5 - vowels_off {
        0
    } else {
        5 - vowels_off - others_off
    }
}

/// The points that a word gets for its balance of vowels and other letters.
pub fn balance(word: &str) -> (points: usize)
    ensures
        points == balance_spec(word@),
        points <= 5,
{
    let w: Vec<char> = letters(word);
    let vowels: usize = count_vowels(&w);
    balance_points(vowels, w.len())
}

} // verus!
