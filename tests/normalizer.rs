use video2en::normalize::{key_from_lowered, normalize};

#[test]
fn punctuation_and_case_do_not_change_the_key() {
    assert_eq!(normalize("Hello, World!"), normalize("hello world"));
    assert_eq!(normalize("hello world"), "hello world");
}

#[test]
fn surrounding_white_space_does_not_change_the_key() {
    assert_eq!(normalize("  Hello world \n"), normalize("hello world"));
    assert_eq!(normalize("\tA dog."), "a dog");
}

#[test]
fn digits_are_dropped_and_spaces_collapsed() {
    assert_eq!(normalize("abc123 def"), "abc def");
    assert_eq!(normalize("a  -  b"), "a b");
    assert_eq!(normalize("2024"), "");
}

#[test]
fn key_of_lowered_text_keeps_letters_and_spaces() {
    assert_eq!(key_from_lowered("it's  ok!"), "its ok");
    assert_eq!(key_from_lowered("héllo wörld"), "héllo wörld");
}

#[test]
fn non_ascii_letters_are_lowered() {
    assert_eq!(normalize("ÉCOLE"), "école");
}

#[test]
fn punctuation_inside_words_is_deleted() {
    assert_eq!(normalize("don't"), normalize("DONT"));
    assert_eq!(normalize("a,b"), "ab");
    assert_eq!(normalize("...Hi"), normalize("hi"));
}
