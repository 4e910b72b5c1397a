use video2en::classify::{ascii_ratio_verdict, collapse_whitespace, english_from, TextClassifier};

fn classifier() -> TextClassifier {
    match TextClassifier::new() {
        Ok(c) => c,
        Err(_) => panic!("the symbol pattern compiles"),
    }
}

#[test]
fn ratio_verdict_on_empty_text_is_not_english() {
    assert_eq!(ascii_ratio_verdict(""), Some(false));
}

#[test]
fn ratio_verdict_at_exact_boundary_takes_fast_path() {
    assert_eq!(ascii_ratio_verdict("abc12"), Some(true));
    assert_eq!(ascii_ratio_verdict("ab123"), None);
    assert_eq!(ascii_ratio_verdict("hello world"), Some(true));
    assert_eq!(ascii_ratio_verdict("abc 一二三四"), None);
}

#[test]
fn collapse_whitespace_joins_words_with_single_spaces() {
    assert_eq!(collapse_whitespace("  a \t b\n\n c  "), "a b c");
    assert_eq!(collapse_whitespace("   "), "");
    assert_eq!(collapse_whitespace("one"), "one");
}

#[test]
fn clean_text_blanks_symbols() {
    let c = classifier();
    assert_eq!(c.clean_text("Hello, world!"), "Hello world");
    assert_eq!(c.clean_text("It's peaceful"), "It s peaceful");
    assert_eq!(c.clean_text("[Music] 42 -- ok"), "Music 42 ok");
    assert_eq!(c.clean_text("!!! ..."), "");
}

#[test]
fn ascii_letters_and_spaces_are_english() {
    let c = classifier();
    assert!(c.is_english("Hello there"));
    assert!(c.is_english("The quick brown fox jumps over the lazy dog"));
    assert!(c.is_english("  peaceful  "));
}

#[test]
fn cjk_text_is_not_english() {
    let c = classifier();
    assert!(!c.is_english("你好世界"));
    assert!(!c.is_english("今天天气很好"));
}

#[test]
fn symbols_only_is_not_english() {
    let c = classifier();
    assert!(!c.is_english(""));
    assert!(!c.is_english("?!... ♪♪"));
}

#[test]
fn is_english_gives_the_same_answer_twice() {
    let c = classifier();
    for t in ["Hello there", "你好 hello", "abc 一二三四", "♪", "ok 好的 yes"] {
        assert_eq!(c.is_english(t), c.is_english(t));
    }
}

#[test]
fn english_from_prefers_the_ratio_check() {
    assert!(english_from("hello world", false));
    assert!(!english_from("", true));
    assert!(english_from("abc 一二三四", true));
    assert!(!english_from("abc 一二三四", false));
    assert!(english_from("abc12", false));
}

#[test]
fn single_letter_words_are_english() {
    let c = classifier();
    assert!(c.is_english("a b c d e"));
    assert!(c.is_english("I a"));
}

#[test]
fn cleaning_keeps_ascii_words_and_digits() {
    let c = classifier();
    assert_eq!(c.clean_text("abc 1"), "abc 1");
    assert!(c.is_english("abc 12"));
}
