//! The solver's original behaviour tests: feedback codes and pool
//! filtering on concrete words.

use quordle::game::WordleGame;

fn word_list(words: &[&str]) -> Vec<String> {
    words.iter().map(|w| String::from(*w)).collect()
}

fn game_with_pool(words: &[&str]) -> WordleGame {
    WordleGame::new(word_list(words), Vec::new())
}

fn has(game: &WordleGame, w: &str) -> bool {
    game.pool_contains(&String::from(w))
}

#[test]
fn it_works() {
    let s = WordleGame::compare_words("stern", "sueat");
    assert_eq!(s, String::from("G G Y"));

    let s = WordleGame::compare_words("stern", "clamp");
    assert_eq!(s, String::from("     "));

    let s = WordleGame::compare_words("stern", "stern");
    assert_eq!(s, String::from("GGGGG"));

    let s = WordleGame::compare_words("stern", "clamp");
    assert_eq!(s, String::from("     "));

    let s = WordleGame::compare_words("abcde", "edcba");
    assert_eq!(s, String::from("YYGYY"));
}

#[test]
fn remote_test() {
    let mut a = game_with_pool(&["abcde", "abcdf", "abcdg"]);

    for word in a.pool_words() {
        println!("in {}", word.clone());
    }

    a.remove("iiiig", "    G");

    for word in a.pool_words() {
        println!("after {}", word.clone());
    }

    assert_eq!(has(&a, "abcdg"), true);
    assert_eq!(has(&a, "abcdf"), false);
}

#[test]
fn y_test() {
    let mut a = game_with_pool(&["abcde", "fbcdf", "abcdg"]);

    a.remove("iifii", "  Y  ");

    assert_eq!(has(&a, "fbcdf"), true);
    assert_eq!(has(&a, "abcdg"), false);
}

#[test]
fn gy_test() {
    let mut a = game_with_pool(&["abcae", "fbcdf", "abadg", "aiiba"]);

    a.remove("aiiia", "G   Y");

    assert_eq!(has(&a, "fbcdf"), false);
    assert_eq!(has(&a, "abcae"), true);
    assert_eq!(has(&a, "abadg"), true);
    assert_eq!(has(&a, "aiiba"), false);
}

#[test]
fn ggg_test() {
    let mut a = game_with_pool(&["crack", "cramp"]);

    a.remove("crack", "GGG  ");

    assert_eq!(has(&a, "crack"), false);
    assert_eq!(has(&a, "cramp"), true);
}

#[test]
fn soare_await_test() {
    let a = WordleGame::compare_words("await", "soare");
    assert_eq!(a.eq("  G  "), true);
}

#[test]
fn soare_await_test2() {
    let mut b = game_with_pool(&["await", "admit", "avail"]);

    b.remove("soare", "  Y  ");
    assert_eq!(has(&b, "admit"), true);
    assert_eq!(has(&b, "await"), false);
}

#[test]
fn big_soare_test() {
    // A stretch of solution-dictionary words from "admit" on.
    let goal_words = [
        "admit", "adobe", "adopt", "adore", "adorn", "adult", "affix", "afire", "afoot",
        "afoul", "after", "again", "agape", "agate", "agent", "agile", "aging", "aglow",
        "agony", "agree", "ahead", "aider", "aisle", "alarm", "album", "alert", "algae",
        "alibi", "alien", "align", "alike", "alive", "allay", "alley", "allot", "allow",
        "alloy", "aloft", "alone", "along", "aloof", "aloud", "alpha", "altar", "alter",
        "amass", "amaze", "amber", "amble", "amend", "amiss", "amity", "among", "ample",
        "amply", "amuse", "angel", "anger", "angle", "angry", "angst", "anime", "ankle",
        "annex", "annoy", "annul", "anode", "antic", "anvil", "aorta", "apart", "aphid",
        "aping", "apnea", "apple", "apply", "apron", "aptly", "arbor", "ardor", "arena",
        "argue", "arise", "armor", "aroma", "arose", "array", "arrow", "arson", "artsy",
        "ascot", "ashen", "aside", "askew", "assay", "asset", "atoll", "atone", "attic",
        "audio", "audit", "augur", "aunty", "avail", "avert", "avian", "avoid", "await",
        "awake", "award", "aware", "awash", "awful", "awoke", "axial", "axiom", "axion",
        "azure",
    ];

    let mut word_set = game_with_pool(&goal_words);

    word_set.remove("soare", "  Y  ");

    assert_eq!(has(&word_set, "admit"), true);
    assert_eq!(has(&word_set, "await"), false);
}
