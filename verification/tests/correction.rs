use spellchecker::Checker;

#[test]
fn test_deletion() {
    let mut spellchecker = Checker::new();
    spellchecker.train("spelling");
    assert_eq!(spellchecker.correct("speling"), "spelling");
}

#[test]
fn test_transposition() {
    let mut spellchecker = Checker::new();
    spellchecker.train("spelling");
    assert_eq!(spellchecker.correct("spellign"), "spelling");
}

#[test]
fn test_alteration() {
    let mut spellchecker = Checker::new();
    spellchecker.train("spelling");
    assert_eq!(spellchecker.correct("spellang"), "spelling");
    assert_eq!(spellchecker.correct("spelleng"), "spelling");
    assert_eq!(spellchecker.correct("spulling"), "spelling");
}

#[test]
fn test_insertion() {
    let mut spellchecker = Checker::new();
    spellchecker.train("spelling");
    assert_eq!(spellchecker.correct("spelliing"), "spelling");
    assert_eq!(spellchecker.correct("speelling"), "spelling");
}

#[test]
fn exact_match_beats_frequent_edits() {
    let mut checker = Checker::new();
    // "speling" is far more frequent, but "spelling" is known itself.
    checker.train("speling speling speling spelling");
    assert_eq!(checker.correct("spelling"), "spelling");
    assert_eq!(checker.correct("speling"), "speling");
}

#[test]
fn correction_is_identity_on_trained_words() {
    let mut checker = Checker::new();
    checker.train("every trained word comes back unchanged");
    for w in ["every", "trained", "word", "comes", "back", "unchanged"] {
        assert_eq!(checker.correct(w), w);
    }
}

#[test]
fn distance_one_beats_more_frequent_distance_two() {
    let mut checker = Checker::new();
    // "abzz" is at distance two from the query and far more frequent;
    // "abcz" is at distance one and must win.
    checker.train("abzz abzz abzz abzz abcz");
    assert_eq!(checker.correct("abcx"), "abcz");
}

#[test]
fn distance_two_found_when_distance_one_fails() {
    let mut checker = Checker::new();
    checker.train("abzz abzz");
    assert_eq!(checker.correct("qqzz"), "abzz");
}

#[test]
fn frequency_ranks_within_a_tier() {
    let mut checker = Checker::new();
    checker.train("cat cab cab");
    // both "cat" and "cab" are at distance one from "caz"
    assert_eq!(checker.correct("caz"), "cab");
}

#[test]
fn equal_counts_prefer_first_generated_candidate() {
    let mut checker = Checker::new();
    checker.train("cat cab");
    // both are distance-one candidates with count 1; substitutions are
    // generated by position and then by letter, so "cab" comes first
    assert_eq!(checker.correct("caz"), "cab");
}

#[test]
fn empty_query_finds_frequent_single_letter() {
    let mut checker = Checker::new();
    checker.train("a b b");
    // every single letter is one insertion away from the empty word
    assert_eq!(checker.correct(""), "b");
}

#[test]
fn fallback_returns_input_unchanged() {
    let mut checker = Checker::new();
    checker.train("spelling");
    assert_eq!(checker.correct("qqqqqqqq"), "qqqqqqqq");
    let mut untrained = Checker::new();
    assert_eq!(untrained.correct("xyzq"), "xyzq");
}

#[test]
fn empty_query_on_untrained_table() {
    let mut checker = Checker::new();
    assert_eq!(checker.correct(""), "");
}
