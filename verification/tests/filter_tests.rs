use wordle_solver::feedback::LetterFeedback;
use wordle_solver::feedback::LetterFeedback::{Absent, Correct, Present};
use wordle_solver::filter::{filter, is_candidate, DictionaryEntry};
use wordle_solver::matcher::Guess;
use wordle_solver::words::{is_ascii_letter, is_playable, letters};

fn dictionary(words: &[&str]) -> Vec<DictionaryEntry> {
    words
        .iter()
        .enumerate()
        .map(|(i, w)| DictionaryEntry::new(i as i32 + 1, w))
        .collect()
}

fn guess(word: &str, feedback: [LetterFeedback; 5]) -> Guess {
    Guess::new(word, feedback.to_vec()).unwrap()
}

fn words_of(entries: &[DictionaryEntry]) -> Vec<&str> {
    entries.iter().map(|e| e.word.as_str()).collect()
}

fn ids_of(entries: &[DictionaryEntry]) -> Vec<i32> {
    entries.iter().map(|e| e.id).collect()
}

#[test]
fn an_empty_history_keeps_every_playable_word() {
    let d = dictionary(&["CRANE", "SLATE", "AUDIO"]);
    let kept = filter(&d, &vec![]);
    assert_eq!(words_of(&kept), vec!["CRANE", "SLATE", "AUDIO"]);
    assert_eq!(ids_of(&kept), vec![1, 2, 3]);
}

#[test]
fn an_empty_dictionary_keeps_nothing() {
    assert!(filter(&vec![], &vec![]).is_empty());
    let history = vec![guess("CRANE", [Absent; 5])];
    assert!(filter(&vec![], &history).is_empty());
}

#[test]
fn words_that_are_not_playable_are_left_out() {
    let d = dictionary(&[
        "CRANE", "CRAN", "CRANES", "CR4NE", "CRA E", "", "SLATE", "NAÏVE", "IT'S!", "AUDIO",
    ]);
    let kept = filter(&d, &vec![]);
    assert_eq!(words_of(&kept), vec!["CRANE", "SLATE", "AUDIO"]);
    assert_eq!(ids_of(&kept), vec![1, 7, 10]);
}

#[test]
fn case_does_not_matter_and_is_kept() {
    let d = dictionary(&["crane", "Slate", "AUDIO", "shaky"]);
    let history = vec![guess("CRANE", [Absent, Absent, Correct, Absent, Absent])];
    let kept = filter(&d, &history);
    assert_eq!(words_of(&kept), vec!["shaky"]);
    assert_eq!(ids_of(&kept), vec![4]);
    let all = filter(&d, &vec![]);
    assert_eq!(words_of(&all), vec!["crane", "Slate", "AUDIO", "shaky"]);
}

#[test]
fn upper_case_is_taken_over_the_whole_alphabet() {
    // A dotless i becomes I, a long s becomes S, and the ligature fi becomes FI.
    let d = dictionary(&["ırate", "ſlate", "ﬁrst", "straße"]);
    let kept = filter(&d, &vec![]);
    assert_eq!(words_of(&kept), vec!["ırate", "ſlate", "ﬁrst"]);
    assert!(is_candidate("ﬁrst", &vec![]));
    assert!(!is_candidate("straße", &vec![]));
}

#[test]
fn the_order_of_the_dictionary_is_kept_and_so_are_repetitions() {
    let d = dictionary(&["SHAKY", "CRANE", "QUAIL", "SHAKY", "FLASH"]);
    let history = vec![guess("CRANE", [Absent, Absent, Correct, Absent, Absent])];
    let kept = filter(&d, &history);
    assert_eq!(words_of(&kept), vec!["SHAKY", "QUAIL", "SHAKY", "FLASH"]);
    assert_eq!(ids_of(&kept), vec![1, 3, 4, 5]);
}

#[test]
fn a_word_with_excluded_letters_does_not_survive() {
    let d = dictionary(&["GRAPE", "CRANE", "SHAKY"]);
    let history = vec![guess("CRANE", [Absent, Absent, Correct, Absent, Absent])];
    assert_eq!(words_of(&filter(&d, &history)), vec!["SHAKY"]);
    assert!(!is_candidate("GRAPE", &history));
    assert!(!is_candidate("CRANE", &history));
    assert!(is_candidate("SHAKY", &history));
}

#[test]
fn a_guess_of_another_length_leaves_nothing() {
    let d = dictionary(&["CRANE", "SLATE"]);
    let history = vec![Guess::new("CRAN", vec![Correct; 4]).unwrap()];
    assert!(filter(&d, &history).is_empty());
}

#[test]
fn filtering_twice_changes_nothing() {
    let d = dictionary(&[
        "SHAKY", "CRANE", "QUAIL", "BLAST", "FLASH", "TOAST", "crane", "blast", "ABC", "PLAID",
    ]);
    let history = vec![
        guess("CRANE", [Absent, Absent, Correct, Absent, Absent]),
        guess("SHAKY", [Present, Absent, Correct, Absent, Absent]),
    ];
    let once = filter(&d, &history);
    let twice = filter(&once, &history);
    assert_eq!(once, twice);
    assert_eq!(words_of(&once), vec!["BLAST", "TOAST", "blast"]);
}

#[test]
fn one_more_guess_never_leaves_more() {
    let d = dictionary(&[
        "SHAKY", "CRANE", "QUAIL", "BLAST", "FLASH", "TOAST", "PLAID", "GLASS", "AMISS",
    ]);
    let guesses = [
        guess("CRANE", [Absent, Absent, Correct, Absent, Absent]),
        guess("SHAKY", [Present, Absent, Correct, Absent, Absent]),
        guess("BLAST", [Absent, Absent, Correct, Correct, Correct]),
    ];
    let mut history: Vec<Guess> = Vec::new();
    let mut before = filter(&d, &history);
    assert_eq!(before.len(), 9);
    for g in guesses {
        history.push(g);
        let after = filter(&d, &history);
        assert!(after.len() <= before.len());
        assert!(after.iter().all(|e| before.contains(e)));
        assert_eq!(filter(&before, &history), after);
        before = after;
    }
    assert_eq!(words_of(&before), vec!["TOAST"]);
}

#[test]
fn playable_words_have_five_letters_of_the_alphabet() {
    assert!(is_playable("CRANE"));
    assert!(is_playable("crane"));
    assert!(is_playable("CrAnE"));
    assert!(!is_playable("CRAN"));
    assert!(!is_playable("CRANES"));
    assert!(!is_playable(""));
    assert!(!is_playable("CR4NE"));
    assert!(!is_playable("CRAN "));
    assert!(!is_playable("ÉTÉÉÉ"));
    assert!(!is_playable("ÀB"));
}

#[test]
fn letters_of_the_alphabet() {
    for c in 'A'..='Z' {
        assert!(is_ascii_letter(c));
    }
    for c in 'a'..='z' {
        assert!(is_ascii_letter(c));
    }
    for c in ['@', '[', '`', '{', '0', ' ', 'É', 'ß', '\u{0}'] {
        assert!(!is_ascii_letter(c));
    }
}

#[test]
fn a_word_is_taken_apart_letter_by_letter() {
    assert_eq!(letters("CRANE"), vec!['C', 'R', 'A', 'N', 'E']);
    assert_eq!(letters("ÉTÉ"), vec!['É', 'T', 'É']);
    assert_eq!(letters(""), Vec::<char>::new());
}

#[test]
fn an_entry_keeps_its_number_and_word() {
    let e = DictionaryEntry::new(7, "SLATE");
    assert_eq!(e.id, 7);
    assert_eq!(e.word, "SLATE");
    assert_eq!(e.clone(), e);
}
