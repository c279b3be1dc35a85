use wordle_solver::error::SolverError;
use wordle_solver::feedback::LetterFeedback;
use wordle_solver::feedback::LetterFeedback::{Absent, Correct};
use wordle_solver::filter::DictionaryEntry;
use wordle_solver::matcher::Guess;
use wordle_solver::ranking::rank;
use wordle_solver::suggest::{fallback_words, suggest, SuggestionKind};

fn dictionary(words: &[&str]) -> Vec<DictionaryEntry> {
    words
        .iter()
        .enumerate()
        .map(|(i, w)| DictionaryEntry::new(i as i32 + 1, w))
        .collect()
}

fn guess(word: &str, feedback: [LetterFeedback; 5]) -> Guess {
    Guess::new(word, feedback.to_vec()).unwrap()
}

fn owned(words: &[&str]) -> Vec<String> {
    words.iter().map(|w| w.to_string()).collect()
}

const TWELVE: [&str; 12] = [
    "SHAKY", "QUAIL", "FLASH", "BLAST", "PLAID", "TOAST", "GLASS", "AMISS", "SLATE", "AUDIO",
    "ARISE", "OUTER",
];

#[test]
fn a_small_dictionary_is_offered_whole() {
    let s = suggest(&dictionary(&["CRANE", "SLATE", "AUDIO"]), &vec![]);
    assert_eq!(s.words, vec!["CRANE", "SLATE", "AUDIO"]);
    assert_eq!(s.possible_count, 3);
    assert_eq!(s.kind, SuggestionKind::All);
}

#[test]
fn an_empty_dictionary_gives_the_stock_words() {
    let s = suggest(&vec![], &vec![]);
    assert_eq!(s.words, vec!["SLATE", "CRANE", "AUDIO", "ARISE", "OUTER"]);
    assert_eq!(s.possible_count, 0);
    assert_eq!(s.kind, SuggestionKind::Fallback);
}

#[test]
fn a_history_that_nothing_agrees_with_gives_the_stock_words() {
    let history = vec![guess("CRANE", [Correct; 5])];
    let s = suggest(&dictionary(&["SLATE", "AUDIO"]), &history);
    assert_eq!(s.words, fallback_words());
    assert_eq!(s.possible_count, 0);
    assert_eq!(s.kind, SuggestionKind::Fallback);
}

#[test]
fn a_dictionary_without_playable_words_gives_the_stock_words() {
    let s = suggest(&dictionary(&["A", "TOOLONG", "12345"]), &vec![]);
    assert_eq!(s.words, fallback_words());
    assert_eq!(s.possible_count, 0);
    assert_eq!(s.kind, SuggestionKind::Fallback);
}

#[test]
fn the_stock_words() {
    assert_eq!(
        fallback_words(),
        vec!["SLATE", "CRANE", "AUDIO", "ARISE", "OUTER"]
    );
}

#[test]
fn a_single_candidate_is_offered_alone() {
    let history = vec![guess("CRANE", [Absent, Absent, Correct, Absent, Absent])];
    let s = suggest(&dictionary(&["CRANE", "SLATE", "shaky"]), &history);
    assert_eq!(s.words, vec!["SHAKY"]);
    assert_eq!(s.possible_count, 1);
    assert_eq!(s.kind, SuggestionKind::All);
}

#[test]
fn suggestions_are_in_upper_case() {
    let s = suggest(&dictionary(&["crane", "Slate", "ﬁrst"]), &vec![]);
    assert_eq!(s.words, vec!["CRANE", "SLATE", "FIRST"]);
    assert_eq!(s.possible_count, 3);
}

#[test]
fn ten_candidates_are_offered_whole() {
    let s = suggest(&dictionary(&TWELVE[..10]), &vec![]);
    assert_eq!(s.words, owned(&TWELVE[..10]));
    assert_eq!(s.possible_count, 10);
    assert_eq!(s.kind, SuggestionKind::All);
}

#[test]
fn eleven_candidates_wait_for_their_scores() {
    let s = suggest(&dictionary(&TWELVE[..11]), &vec![]);
    assert_eq!(s.words, owned(&TWELVE[..11]));
    assert_eq!(s.possible_count, 11);
    assert_eq!(s.kind, SuggestionKind::Unranked);
}

#[test]
fn the_count_is_that_of_the_surviving_entries() {
    let history = vec![guess("CRANE", [Absent, Absent, Correct, Absent, Absent])];
    let s = suggest(&dictionary(&TWELVE), &history);
    assert_eq!(
        s.words,
        vec!["SHAKY", "QUAIL", "FLASH", "BLAST", "PLAID", "TOAST", "GLASS"]
    );
    assert_eq!(s.possible_count, 7);
    assert_eq!(s.kind, SuggestionKind::All);
}

#[test]
fn the_best_scores_come_first() {
    let words = owned(&["SHAKY", "QUAIL", "FLASH", "BLAST"]);
    let ranked = rank(&words, &vec![10, 40, 20, 30]).unwrap();
    assert_eq!(ranked, vec!["QUAIL", "BLAST", "FLASH", "SHAKY"]);
}

#[test]
fn equal_scores_keep_their_order() {
    let words = owned(&["SHAKY", "QUAIL", "FLASH", "BLAST", "PLAID"]);
    let ranked = rank(&words, &vec![7, 9, 7, 9, 7]).unwrap();
    assert_eq!(ranked, vec!["QUAIL", "BLAST", "SHAKY", "FLASH", "PLAID"]);
    let flat = rank(&words, &vec![0, 0, 0, 0, 0]).unwrap();
    assert_eq!(flat, words);
}

#[test]
fn only_the_ten_best_are_kept() {
    let words = owned(&TWELVE);
    let scores: Vec<u64> = vec![5, 12, 7, 1, 9, 3, 11, 2, 8, 4, 10, 6];
    let ranked = rank(&words, &scores).unwrap();
    assert_eq!(
        ranked,
        vec![
            "QUAIL", "GLASS", "ARISE", "PLAID", "SLATE", "FLASH", "OUTER", "SHAKY", "AUDIO",
            "TOAST"
        ]
    );
}

#[test]
fn ties_at_the_cut_go_to_the_earlier_word() {
    let words = owned(&TWELVE);
    let scores: Vec<u64> = vec![1; 12];
    assert_eq!(rank(&words, &scores).unwrap(), owned(&TWELVE[..10]));
    let mut scores: Vec<u64> = vec![1; 12];
    scores[11] = 2;
    let ranked = rank(&words, &scores).unwrap();
    assert_eq!(ranked[0], "OUTER");
    assert_eq!(ranked[1..], owned(&TWELVE[..9])[..]);
}

#[test]
fn the_largest_scores_are_told_apart() {
    let words = owned(&["SHAKY", "QUAIL", "FLASH"]);
    let ranked = rank(&words, &vec![u64::MAX - 1, u64::MAX, 0]).unwrap();
    assert_eq!(ranked, vec!["QUAIL", "SHAKY", "FLASH"]);
}

#[test]
fn nothing_to_rank() {
    assert_eq!(rank(&vec![], &vec![]), Ok(vec![]));
}

#[test]
fn every_word_needs_a_score() {
    let words = owned(&["SHAKY", "QUAIL"]);
    assert_eq!(rank(&words, &vec![1]), Err(SolverError::InvalidInput));
    assert_eq!(rank(&words, &vec![1, 2, 3]), Err(SolverError::InvalidInput));
    assert_eq!(rank(&vec![], &vec![1]), Err(SolverError::InvalidInput));
}

#[test]
fn repeated_words_are_ranked_each_for_itself() {
    let words = owned(&["SHAKY", "QUAIL", "SHAKY"]);
    assert_eq!(
        rank(&words, &vec![1, 2, 3]).unwrap(),
        vec!["SHAKY", "QUAIL", "SHAKY"]
    );
}
