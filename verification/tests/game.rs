use hangman::game::{GameData, GameState, GuessStatus};

#[test]
fn new_round_has_all_placeholders() {
    let gd = GameData::new(String::from("cat"), 5);
    assert_eq!(gd.word, "cat");
    assert_eq!(gd.data, vec![(0, 'c'), (1, 'a'), (2, 't')]);
    assert_eq!(gd.display, vec!['_', '_', '_']);
    assert_eq!(gd.attempts, Vec::<char>::new());
    assert_eq!(gd.try_count, 0);
    assert_eq!(gd.max_count, 5);
}

#[test]
fn index_map_matches_word_characters() {
    let gd = GameData::new(String::from("banana"), 5);
    assert_eq!(gd.data.len(), 6);
    let mut from_map: Vec<char> = gd.data.iter().map(|&(_, c)| c).collect();
    let mut from_word: Vec<char> = gd.word.chars().collect();
    from_map.sort();
    from_word.sort();
    assert_eq!(from_map, from_word);
}

#[test]
fn scenario_cat_won() {
    let mut gd = GameData::new(String::from("cat"), 5);
    let (st, state) = gd.submit_guess('a');
    assert_eq!(st, GuessStatus::Correct);
    assert_eq!(state, GameState::InProgress);
    assert_eq!(gd.display, vec!['_', 'a', '_']);
    let (st, state) = gd.submit_guess('z');
    assert_eq!(st, GuessStatus::Incorrect);
    assert_eq!(state, GameState::InProgress);
    assert_eq!(gd.try_count, 1);
    assert_eq!(gd.attempts, vec!['z']);
    let (st, state) = gd.submit_guess('c');
    assert_eq!(st, GuessStatus::Correct);
    assert_eq!(state, GameState::InProgress);
    assert_eq!(gd.display, vec!['c', 'a', '_']);
    let (st, state) = gd.submit_guess('t');
    assert_eq!(st, GuessStatus::Correct);
    assert_eq!(state, GameState::Complete);
    assert_eq!(gd.display, vec!['c', 'a', 't']);
    assert_eq!(gd.try_count, 1);
}

#[test]
fn scenario_dog_exhausted() {
    let mut gd = GameData::new(String::from("dog"), 2);
    let (st, state) = gd.submit_guess('x');
    assert_eq!(st, GuessStatus::Incorrect);
    assert_eq!(state, GameState::InProgress);
    assert_eq!(gd.try_count, 1);
    let (st, state) = gd.submit_guess('y');
    assert_eq!(st, GuessStatus::Incorrect);
    assert_eq!(state, GameState::Complete);
    assert_eq!(gd.try_count, 2);
    assert_eq!(gd.attempts, vec!['x', 'y']);
    assert_eq!(gd.word, "dog");
}

#[test]
fn correct_guess_reveals_every_occurrence() {
    let mut gd = GameData::new(String::from("dad"), 5);
    let (st, state) = gd.submit_guess('d');
    assert_eq!(st, GuessStatus::Correct);
    assert_eq!(state, GameState::InProgress);
    assert_eq!(gd.display, vec!['d', '_', 'd']);
}

#[test]
fn repeated_correct_guess_changes_nothing() {
    let mut gd = GameData::new(String::from("dad"), 5);
    let (st, _) = gd.submit_guess('d');
    assert_eq!(st, GuessStatus::Correct);
    let before = gd.display.clone();
    let count_before = gd.try_count;
    let (st, state) = gd.submit_guess('d');
    assert_eq!(st, GuessStatus::Correct);
    assert_eq!(state, GameState::InProgress);
    assert_eq!(gd.display, before);
    assert_eq!(gd.try_count, count_before);
    assert!(gd.attempts.is_empty());
}

#[test]
fn revealed_positions_never_regress() {
    let mut gd = GameData::new(String::from("cab"), 5);
    gd.submit_guess('a');
    assert_eq!(gd.display, vec!['_', 'a', '_']);
    gd.submit_guess('q');
    gd.submit_guess('b');
    gd.submit_guess('q');
    assert_eq!(gd.display[1], 'a');
    assert_eq!(gd.display[2], 'b');
}

#[test]
fn round_completes_within_budget_and_distinct_letters() {
    let mut gd = GameData::new(String::from("good"), 3);
    let guesses = vec!['z', 'g', 'o', 'd'];
    let mut completed = false;
    for c in guesses {
        let (_, state) = gd.submit_guess(c);
        if state == GameState::Complete {
            completed = true;
            break;
        }
    }
    assert!(completed);
    assert_eq!(gd.display, vec!['g', 'o', 'o', 'd']);
    assert_eq!(gd.try_count, 1);
}

#[test]
fn guess_digit_counts_as_incorrect() {
    let mut gd = GameData::new(String::from("cat"), 5);
    let (st, state) = gd.submit_guess('3');
    assert_eq!(st, GuessStatus::Incorrect);
    assert_eq!(state, GameState::InProgress);
    assert_eq!(gd.attempts, vec!['3']);
}

#[test]
fn repeated_incorrect_guess_is_logged_again() {
    let mut gd = GameData::new(String::from("cat"), 5);
    gd.submit_guess('z');
    gd.submit_guess('z');
    assert_eq!(gd.attempts, vec!['z', 'z']);
    assert_eq!(gd.try_count, 2);
}

#[test]
fn has_blanks_reports_progress() {
    let mut gd = GameData::new(String::from("hi"), 5);
    assert_eq!(gd.has_blanks(), GameState::InProgress);
    gd.submit_guess('h');
    gd.submit_guess('i');
    assert_eq!(gd.has_blanks(), GameState::Complete);
}

#[test]
fn check_count_completes_at_maximum() {
    let mut gd = GameData::new(String::from("hi"), 2);
    assert_eq!(gd.check_count(), GameState::InProgress);
    assert_eq!(gd.try_count, 1);
    assert_eq!(gd.check_count(), GameState::Complete);
    assert_eq!(gd.try_count, 2);
}

#[test]
fn empty_word_round_is_immediately_complete() {
    let gd = GameData::new(String::new(), 5);
    assert_eq!(gd.display, Vec::<char>::new());
    assert_eq!(gd.has_blanks(), GameState::Complete);
}
