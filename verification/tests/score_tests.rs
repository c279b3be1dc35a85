use wordle_solver::error::SolverError;
use wordle_solver::feedback::LetterFeedback::Absent;
use wordle_solver::groups::pattern_groups;
use wordle_solver::heuristics::{
    balance, distinct_letter_count, is_vowel, letter_weight, letter_weights,
};
use wordle_solver::matcher::Guess;
use wordle_solver::score::{confidence_bonus, late_gain_weight, opening_weight, score_parts};

fn owned(words: &[&str]) -> Vec<String> {
    words.iter().map(|w| w.to_string()).collect()
}

fn history_of(n: usize) -> Vec<Guess> {
    (0..n)
        .map(|_| Guess::new("QQQQQ", vec![Absent; 5]).unwrap())
        .collect()
}

#[test]
fn different_letters_are_counted_once() {
    assert_eq!(distinct_letter_count("CRANE"), 5);
    assert_eq!(distinct_letter_count("SPEED"), 4);
    assert_eq!(distinct_letter_count("MAMMA"), 2);
    assert_eq!(distinct_letter_count("AAAAA"), 1);
    assert_eq!(distinct_letter_count(""), 0);
    assert_eq!(distinct_letter_count("Aa"), 2);
}

#[test]
fn common_letters_weigh_more() {
    let order = "EAIOTRNSLCUDPMHGBFYWKVXZJQ";
    for (rank, c) in order.chars().enumerate() {
        assert_eq!(letter_weight(c), 26 - rank);
    }
    assert_eq!(letter_weight('E'), 26);
    assert_eq!(letter_weight('A'), 25);
    assert_eq!(letter_weight('Q'), 1);
}

#[test]
fn other_characters_weigh_nothing() {
    for c in ['e', 'q', '1', ' ', 'É', '-'] {
        assert_eq!(letter_weight(c), 0);
    }
}

#[test]
fn a_word_has_one_weight_per_letter() {
    assert_eq!(letter_weights("CRANE"), vec![17, 21, 25, 20, 26]);
    assert_eq!(letter_weights("Qe?"), vec![1, 0, 0]);
    assert_eq!(letter_weights(""), Vec::<usize>::new());
}

#[test]
fn the_vowels_are_five_capital_letters() {
    for c in ['A', 'E', 'I', 'O', 'U'] {
        assert!(is_vowel(c));
    }
    for c in ['Y', 'B', 'a', 'e', 'É', ' '] {
        assert!(!is_vowel(c));
    }
}

#[test]
fn two_vowels_and_three_others_balance_best() {
    assert_eq!(balance("CRANE"), 5);
    assert_eq!(balance("SLATE"), 5);
    assert_eq!(balance("SHAKY"), 3); // one vowel, four others
    assert_eq!(balance("AUDIO"), 1); // four vowels, one other
    assert_eq!(balance("NYMPH"), 1); // no vowel, five others
    assert_eq!(balance("AAAAA"), 0); // five vowels: one point below nothing
    assert_eq!(balance(""), 0);
    assert_eq!(balance("AB"), 2); // one vowel, one other
    assert_eq!(balance("STRENGTHS"), 0);
}

#[test]
fn candidates_with_the_same_feedback_form_a_group() {
    let candidates = owned(&["SHAKY", "QUAIL", "FLASH", "BLAST", "PLAID", "TOAST"]);
    // Against CRANE all of them show the A in place and nothing else.
    assert_eq!(pattern_groups("CRANE", &candidates), Ok(vec![6]));
    // SHAKY: itself; QUAIL, PLAID: A only; FLASH: A, S and H elsewhere;
    // BLAST, TOAST: A, and S elsewhere.
    assert_eq!(pattern_groups("SHAKY", &candidates), Ok(vec![1, 2, 1, 2]));
}

#[test]
fn groups_come_in_the_order_of_their_first_member() {
    let candidates = owned(&["BLAST", "SHAKY", "TOAST", "QUAIL", "FLASH", "PLAID"]);
    assert_eq!(pattern_groups("SHAKY", &candidates), Ok(vec![2, 1, 2, 1]));
}

#[test]
fn every_candidate_is_in_one_group() {
    let candidates = owned(&[
        "SHAKY", "QUAIL", "FLASH", "BLAST", "PLAID", "TOAST", "CRANE", "SLATE", "AUDIO", "ARISE",
        "OUTER", "SPEED", "ELDER",
    ]);
    for word in &candidates {
        let sizes = pattern_groups(word, &candidates).unwrap();
        assert_eq!(sizes.iter().sum::<usize>(), candidates.len());
        assert!(sizes.iter().all(|s| *s >= 1));
    }
}

#[test]
fn no_candidates_no_groups() {
    assert_eq!(pattern_groups("CRANE", &vec![]), Ok(vec![]));
}

#[test]
fn one_candidate_one_group() {
    assert_eq!(pattern_groups("CRANE", &owned(&["SLATE"])), Ok(vec![1]));
}

#[test]
fn repeated_candidates_share_a_group() {
    assert_eq!(
        pattern_groups("CRANE", &owned(&["SLATE", "SLATE", "CRANE", "SLATE"])),
        Ok(vec![3, 1])
    );
}

#[test]
fn a_candidate_of_another_length_cannot_be_grouped() {
    assert_eq!(
        pattern_groups("CRANE", &owned(&["SLATE", "SLAT", "AUDIO"])),
        Err(SolverError::InvalidInput)
    );
    assert_eq!(
        pattern_groups("CRANE", &owned(&["SLATES"])),
        Err(SolverError::InvalidInput)
    );
}

#[test]
fn the_first_guess_counts_different_letters_more() {
    assert_eq!(opening_weight(0), 3);
    assert_eq!(opening_weight(1), 0);
    assert_eq!(opening_weight(3), 0);
}

#[test]
fn the_late_game_counts_information_gain_more() {
    assert_eq!(late_gain_weight(0), 0);
    assert_eq!(late_gain_weight(2), 0);
    assert_eq!(late_gain_weight(3), 2);
    assert_eq!(late_gain_weight(6), 2);
}

#[test]
fn the_late_game_rewards_few_candidates() {
    assert_eq!(confidence_bonus(3, 50), 5);
    assert_eq!(confidence_bonus(3, 11), 5);
    assert_eq!(confidence_bonus(3, 51), 0);
    assert_eq!(confidence_bonus(2, 50), 0);
    assert_eq!(confidence_bonus(0, 1), 0);
    assert_eq!(confidence_bonus(5, 0), 5);
}

#[test]
fn the_parts_of_a_score_on_the_first_guess() {
    let candidates = owned(&["SHAKY", "QUAIL", "FLASH", "BLAST", "PLAID", "TOAST"]);
    let parts = score_parts("SHAKY", &candidates, &history_of(0)).unwrap();
    assert_eq!(parts.distinct_letters, 5);
    assert_eq!(parts.letter_tenths, vec![19, 12, 25, 6, 8]);
    assert_eq!(parts.balance, 3);
    assert_eq!(parts.group_sizes, vec![1, 2, 1, 2]);
    assert_eq!(parts.opening_weight, 3);
    assert_eq!(parts.late_gain_weight, 0);
    assert_eq!(parts.confidence_bonus, 0);
}

#[test]
fn the_parts_of_a_score_in_the_late_game() {
    let candidates = owned(&["SPEED", "ELDER", "CREEP"]);
    let parts = score_parts("SPEED", &candidates, &history_of(3)).unwrap();
    assert_eq!(parts.distinct_letters, 4);
    assert_eq!(parts.letter_tenths, vec![19, 14, 26, 26, 15]);
    assert_eq!(parts.balance, 5);
    assert_eq!(parts.group_sizes, vec![1, 1, 1]);
    assert_eq!(parts.opening_weight, 0);
    assert_eq!(parts.late_gain_weight, 2);
    assert_eq!(parts.confidence_bonus, 5);
}

#[test]
fn the_parts_of_a_score_in_between() {
    let candidates = owned(&["SPEED"]);
    let parts = score_parts("ELDER", &candidates, &history_of(2)).unwrap();
    assert_eq!(parts.distinct_letters, 4);
    assert_eq!(parts.group_sizes, vec![1]);
    assert_eq!(parts.opening_weight, 0);
    assert_eq!(parts.late_gain_weight, 0);
    assert_eq!(parts.confidence_bonus, 0);
}

#[test]
fn a_score_needs_candidates_of_the_words_length() {
    let candidates = owned(&["SPEED", "SPED"]);
    assert_eq!(
        score_parts("SPEED", &candidates, &history_of(0)).err(),
        Some(SolverError::InvalidInput)
    );
}

fn gain_of(sizes: &[usize]) -> f64 {
    let total = sizes.iter().sum::<usize>() as f64;
    let entropy: f64 = sizes
        .iter()
        .map(|s| *s as f64 / total)
        .map(|p| -p * p.log2())
        .sum();
    let most = (sizes.len() as f64).log2();
    if most > 0.0 {
        entropy / most * 10.0
    } else {
        0.0
    }
}

#[test]
fn group_sizes_give_an_information_gain_between_nothing_and_ten_up_to_rounding() {
    let candidates = owned(&[
        "SHAKY", "QUAIL", "FLASH", "BLAST", "PLAID", "TOAST", "CRANE", "SLATE", "AUDIO", "ARISE",
        "OUTER", "SPEED", "ELDER",
    ]);
    for word in &candidates {
        let gain = gain_of(&pattern_groups(word, &candidates).unwrap());
        assert!(gain >= 0.0 && gain <= 10.0 + 1e-9, "{word}: {gain}");
    }
    let six = owned(&["SHAKY", "QUAIL", "FLASH", "BLAST", "PLAID", "TOAST"]);
    // One group: no gain.
    assert_eq!(gain_of(&pattern_groups("CRANE", &six).unwrap()), 0.0);
    // Groups of 1, 2, 1, 2 out of 6, against four groups at most.
    let gain = gain_of(&pattern_groups("SHAKY", &six).unwrap());
    assert!((gain - 9.5914791702724).abs() < 1e-9, "{gain}");
    // Every candidate in a group of its own: full gain.
    let three = owned(&["SPEED", "ELDER", "CREEP"]);
    let gain = gain_of(&pattern_groups("SPEED", &three).unwrap());
    assert!((gain - 10.0).abs() < 1e-9, "{gain}");
}
