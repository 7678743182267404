use spellchecker::Checker;

#[test]
fn counts_accumulate_across_calls() {
    let mut checker = Checker::new();
    checker.train("cat cab");
    assert_eq!(checker.count("cat"), 1);
    checker.train("cat");
    assert_eq!(checker.count("cat"), 2);
    assert_eq!(checker.count("cab"), 1);
    // the more frequent word now wins among distance-one candidates
    assert_eq!(checker.correct("caz"), "cat");
}

#[test]
fn sequential_training_matches_concatenated_text() {
    let mut split = Checker::new();
    split.train("the cat sat");
    split.train("on the mat");
    let mut joined = Checker::new();
    joined.train("the cat sat on the mat");
    for w in ["the", "cat", "sat", "on", "mat"] {
        assert_eq!(split.count(w), joined.count(w));
    }
    assert_eq!(split.count("the"), 2);
}

#[test]
fn training_lowercases_before_tokenizing() {
    let mut checker = Checker::new();
    checker.train("Spelling");
    assert_eq!(checker.count("spelling"), 1);
    assert_eq!(checker.count("Spelling"), 0);
    assert_eq!(checker.correct("speling"), "spelling");
}

#[test]
fn nonalphabetic_characters_yield_no_tokens() {
    let mut checker = Checker::new();
    checker.train("hello, world! 123");
    assert_eq!(checker.count("hello"), 1);
    assert_eq!(checker.count("world"), 1);
    assert_eq!(checker.count("123"), 0);
    assert_eq!(checker.count("hello, world! 123"), 0);
}

#[test]
fn training_on_empty_text_changes_nothing() {
    let mut checker = Checker::new();
    checker.train("");
    assert_eq!(checker.count("a"), 0);
    checker.train("spelling");
    checker.train("");
    assert_eq!(checker.count("spelling"), 1);
    assert_eq!(checker.correct("speling"), "spelling");
}

#[test]
fn unknown_words_count_zero() {
    let checker = Checker::new();
    assert_eq!(checker.count("anything"), 0);
}
