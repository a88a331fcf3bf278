//! Property and scenario tests: filter laws on concrete pools, scorer
//! behaviour, error reporting, and a multi-board round.

use quordle::analytics::letter_counts;
use quordle::boards::Quordle;
use quordle::game::{SolverError, WordleGame};
use quordle::scorer::{best_board, distinct_groups, partition_counts, select_best, GuessScore};
use quordle::words::{is_valid_clue, is_valid_word};

fn word_list(words: &[&str]) -> Vec<String> {
    words.iter().map(|w| String::from(*w)).collect()
}

fn game_with_pool(words: &[&str]) -> WordleGame {
    WordleGame::new(word_list(words), Vec::new())
}

fn clue_slot(clue: &str) -> usize {
    let mut code = 0usize;
    let mut mult = 1usize;
    for c in clue.chars() {
        let d = match c {
            'Y' => 1,
            'G' => 2,
            _ => 0,
        };
        code += d * mult;
        mult *= 3;
    }
    code
}

fn entropy_of(counts: &[usize]) -> f64 {
    let total: usize = counts.iter().sum();
    let n = total as f64;
    counts
        .iter()
        .filter(|v| **v > 0)
        .map(|v| {
            let vc = *v as f64;
            vc * (n / vc).ln()
        })
        .sum::<f64>()
        / n
}

#[test]
fn compare_self_is_all_correct() {
    assert_eq!(WordleGame::compare_words("query", "query"), "GGGGG");
    assert_eq!(WordleGame::compare_words("llama", "llama"), "GGGGG");
}

#[test]
fn compare_disjoint_is_all_blank() {
    assert_eq!(WordleGame::compare_words("abide", "crust"), "     ");
    assert_eq!(WordleGame::compare_words("crust", "abide"), "     ");
}

#[test]
fn compare_duplicate_letters() {
    // Only one 'l' in the goal: the first 'l' of the guess claims it,
    // the second stays blank.
    assert_eq!(WordleGame::compare_words("dacbl", "llzzz"), "Y    ");
    // The exact match at position 1 claims one 'e'; the displaced 'e'
    // claims another of the goal's three.
    assert_eq!(WordleGame::compare_words("melee", "eexyz"), "YG   ");
    // Two exact matches, and both displaced letters still find a home.
    assert_eq!(WordleGame::compare_words("abbey", "babes"), "YYGG ");
}

#[test]
fn filter_is_idempotent() {
    let mut once = game_with_pool(&["crane", "crone", "crown", "croak", "creak"]);
    once.remove("crack", "GG   ");
    let after_once: Vec<String> = once.pool_words().clone();
    once.remove("crack", "GG   ");
    let after_twice: Vec<String> = once.pool_words().clone();
    assert_eq!(after_once, after_twice);
}

#[test]
fn filter_is_monotonic() {
    let mut game = game_with_pool(&["crane", "crone", "crown", "croak", "creak", "about"]);
    let mut last = game.pool_len();
    for (guess, clue) in [("crack", "GG   "), ("stone", "    Y"), ("crane", "GG  G")] {
        game.remove(guess, clue);
        let now = game.pool_len();
        assert!(now <= last);
        last = now;
    }
}

#[test]
fn filter_is_sound() {
    let all = ["crane", "crone", "crown", "croak", "creak", "about", "erase"];
    let mut game = game_with_pool(&all);
    let guess = "raise";
    let clue = WordleGame::compare_words("crone", guess);
    game.remove(guess, clue.as_str());
    for w in all.iter() {
        let kept = game.pool_contains(&String::from(*w));
        let consistent = WordleGame::compare_words(w, guess) == clue;
        assert_eq!(kept, consistent);
    }
    assert!(game.pool_contains(&String::from("crone")));
}

#[test]
fn singleton_pool_reports_solved() {
    let game = game_with_pool(&["crane"]);
    assert!(game.is_solved());
    let counts = partition_counts(game.pool_words(), "slate");
    assert_eq!(distinct_groups(&counts), 1);
}

#[test]
fn entropy_lies_in_range() {
    let game = game_with_pool(&["crane", "crone", "crown", "croak", "creak"]);
    let k = game.pool_len() as f64;
    for guess in ["slate", "crane", "round", "ccccc"] {
        assert!(is_valid_word(guess));
        let counts = partition_counts(game.pool_words(), guess);
        let e = entropy_of(&counts);
        assert!(e >= 0.0);
        assert!(e <= k.ln() + 1e-12);
    }
    // A guess that splits every word apart reaches the full ln k.
    let counts = partition_counts(game.pool_words(), "crane");
    let groups = distinct_groups(&counts);
    let e = entropy_of(&counts);
    if groups == game.pool_len() {
        assert!((e - k.ln()).abs() < 1e-12);
    }
    assert!(e > 0.0);
}

#[test]
fn partition_counts_are_exact() {
    let game = game_with_pool(&["crack", "cramp", "crazy", "stone"]);
    let counts = partition_counts(game.pool_words(), "crack");
    assert_eq!(counts.len(), 243);
    assert_eq!(counts[clue_slot("GGGGG")], 1); // crack
    assert_eq!(counts[clue_slot("GGG  ")], 2); // cramp, crazy
    assert_eq!(counts[clue_slot("     ")], 1); // stone shares no letter
    let total: usize = counts.iter().sum();
    assert_eq!(total, 4);
}

#[test]
fn invalid_words_are_rejected() {
    assert!(!is_valid_word("abcd"));
    assert!(!is_valid_word("abcdef"));
    assert!(!is_valid_word("abcdE"));
    assert!(!is_valid_word("abc e"));
    assert!(is_valid_word("abcde"));
    assert_eq!(
        WordleGame::try_compare_words("stern", "ab!de"),
        Err(SolverError::InvalidWord)
    );
    assert_eq!(
        WordleGame::try_compare_words("stern", "sueat"),
        Ok(String::from("G G Y"))
    );
}

#[test]
fn invalid_clues_are_rejected() {
    assert!(!is_valid_clue("GG"));
    assert!(!is_valid_clue("GGYYZ"));
    assert!(is_valid_clue("GY  G"));
    let mut game = game_with_pool(&["crane", "crone"]);
    assert_eq!(game.apply_clue("zzzz", "GGGGG"), Err(SolverError::InvalidWord));
    assert_eq!(game.pool_len(), 2);
    assert_eq!(game.apply_clue("crane", "GGG"), Err(SolverError::InvalidClue));
    assert_eq!(game.pool_len(), 2);
}

#[test]
fn empty_pool_is_reported() {
    let mut game = game_with_pool(&["crane", "crone"]);
    assert_eq!(game.apply_clue("zebra", "GGGGG"), Err(SolverError::EmptyPool));
    assert_eq!(game.pool_len(), 0);
}

#[test]
fn apply_clue_returns_new_size() {
    let mut game = game_with_pool(&["crack", "cramp"]);
    assert_eq!(game.apply_clue("crack", "GGG  "), Ok(1));
    assert!(game.pool_contains(&String::from("cramp")));
}

#[test]
fn relevant_words_share_letters() {
    let guesses = word_list(&["abcde", "fghij", "klmno", "pqrst", "uvwxy"]);
    let goals = word_list(&["aaaaa", "kkkkk"]);
    let relevant = WordleGame::get_relevant_words(&guesses, &goals);
    assert_eq!(relevant, word_list(&["abcde", "klmno"]));
}

#[test]
fn letter_counts_tally_each_letter() {
    let words = word_list(&["aabbc", "abcde"]);
    let counts = letter_counts(&words);
    assert_eq!(counts.len(), 26);
    assert_eq!(counts[0], 3); // 'a'
    assert_eq!(counts[1], 3); // 'b'
    assert_eq!(counts[2], 2); // 'c'
    assert_eq!(counts[3], 1); // 'd'
    assert_eq!(counts[4], 1); // 'e'
    assert_eq!(counts[25], 0); // 'z'
}

#[test]
fn selection_prefers_entropy_then_groups_then_pool() {
    let scores = vec![
        GuessScore { entropy: 10, groups: 3, in_pool: false },
        GuessScore { entropy: 12, groups: 2, in_pool: false },
        GuessScore { entropy: 12, groups: 4, in_pool: false },
        GuessScore { entropy: 12, groups: 4, in_pool: true },
        GuessScore { entropy: 12, groups: 4, in_pool: false },
    ];
    // Higher entropy beats index 0; more groups beats index 1; being in
    // the pool beats index 2; a later equal score outside the pool does
    // not displace the incumbent.
    assert_eq!(select_best(&scores), Some(3));

    let none: Vec<GuessScore> = Vec::new();
    assert_eq!(select_best(&none), None);
}

#[test]
fn board_choice_takes_first_strict_maximum() {
    assert_eq!(best_board(&vec![3, 7, 7, 2]), Some(1));
    assert_eq!(best_board(&vec![0, 0, 0, 0]), None);
    assert_eq!(best_board(&vec![5]), Some(0));
}

#[test]
fn quordle_round_filters_each_active_board() {
    let goals = word_list(&["crack", "cramp", "crazy"]);
    let more = word_list(&["stone"]);
    let mut session = Quordle::new(4, &goals, &more);
    assert_eq!(session.board_count(), 4);

    let clues = word_list(&["GGG  ", "", "GGGGG", "GG"]);
    let outcomes = session.apply_clues("crack", &clues);
    assert_eq!(outcomes.len(), 4);
    assert_eq!(outcomes[0], None);
    assert_eq!(outcomes[1], None);
    assert_eq!(outcomes[2], None);
    assert_eq!(outcomes[3], Some(SolverError::InvalidClue));

    let boards = session.boards();
    // Board 0 kept the two words matching "GGG  ".
    assert_eq!(boards[0].pool_len(), 2);
    // Board 1 was skipped: full pool of four distinct words.
    assert_eq!(boards[1].pool_len(), 4);
    // Board 2 kept only "crack" itself.
    assert_eq!(boards[2].pool_len(), 1);
    assert!(boards[2].pool_contains(&String::from("crack")));
    // Board 3 got a malformed clue and is untouched.
    assert_eq!(boards[3].pool_len(), 4);
}

#[test]
fn new_pool_merges_and_deduplicates() {
    let game = WordleGame::new(
        word_list(&["crane", "crone", "crane"]),
        word_list(&["crone", "stone"]),
    );
    assert_eq!(game.pool_len(), 3);
    assert!(game.pool_contains(&String::from("crane")));
    assert!(game.pool_contains(&String::from("crone")));
    assert!(game.pool_contains(&String::from("stone")));
    assert_eq!(game.get_goal_words().len(), 3);
}
