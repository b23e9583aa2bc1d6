use webgpu::model::text::{
    copy_range, is_space_byte, same_bytes, split_bytes, split_words, starts_with, NEWLINE, SLASH,
};

fn strings(fields: Vec<Vec<u8>>) -> Vec<String> {
    fields.into_iter().map(|f| String::from_utf8(f).unwrap()).collect()
}

#[test]
fn separators_are_the_ascii_characters() {
    assert_eq!(NEWLINE, b'\n');
    assert_eq!(SLASH, b'/');
}

#[test]
fn whitespace_is_ascii_whitespace() {
    for b in 0..=255u8 {
        assert_eq!(is_space_byte(b), b.is_ascii_whitespace(), "{}", b);
    }
}

#[test]
fn split_yields_one_field_more_than_separators() {
    assert_eq!(strings(split_bytes(b"", NEWLINE)), vec![""]);
    assert_eq!(strings(split_bytes(b"a", NEWLINE)), vec!["a"]);
    assert_eq!(strings(split_bytes(b"a\nb", NEWLINE)), vec!["a", "b"]);
    assert_eq!(strings(split_bytes(b"a\nb\n", NEWLINE)), vec!["a", "b", ""]);
    assert_eq!(strings(split_bytes(b"\n\na", NEWLINE)), vec!["", "", "a"]);
    assert_eq!(strings(split_bytes(b"1//3", SLASH)), vec!["1", "", "3"]);
}

#[test]
fn split_agrees_with_the_standard_library() {
    for text in ["", "\n", "a\n\nb", "v 1 2 3\nf 1/1/1\n", "no newline", "\n\n\n"] {
        let expected: Vec<String> = text.split('\n').map(str::to_string).collect();
        assert_eq!(strings(split_bytes(text.as_bytes(), NEWLINE)), expected, "{:?}", text);
    }
}

#[test]
fn words_are_the_runs_between_whitespace() {
    assert_eq!(strings(split_words(b"")), Vec::<String>::new());
    assert_eq!(strings(split_words(b"   \t\r")), Vec::<String>::new());
    assert_eq!(strings(split_words(b"a")), vec!["a"]);
    assert_eq!(strings(split_words(b" a  bc\td\r")), vec!["a", "bc", "d"]);
    assert_eq!(strings(split_words(b"1/1/1 2/2/2 3/3/3")), vec!["1/1/1", "2/2/2", "3/3/3"]);
}

#[test]
fn words_agree_with_the_standard_library() {
    for text in ["", " ", "a b", "  a  b  ", "a\tb\rc\x0cd", "a\x0bb", "1 2 3\r"] {
        let expected: Vec<String> = text.split_ascii_whitespace().map(str::to_string).collect();
        assert_eq!(strings(split_words(text.as_bytes())), expected, "{:?}", text);
    }
}

#[test]
fn prefix_test_compares_the_leading_bytes() {
    assert!(starts_with(b"v 1 2 3", b"v "));
    assert!(starts_with(b"v ", b"v "));
    assert!(starts_with(b"anything", b""));
    assert!(!starts_with(b"v", b"v "));
    assert!(!starts_with(b"vt 1 2", b"v "));
    assert!(!starts_with(b"", b"v "));
}

#[test]
fn byte_strings_are_compared_by_content() {
    assert!(same_bytes(b"1/2/3", b"1/2/3"));
    assert!(same_bytes(b"", b""));
    assert!(!same_bytes(b"1/2/3", b"1/2/4"));
    assert!(!same_bytes(b"1/2/3", b"1/2/"));
    assert!(!same_bytes(b"1/2", b"1/2/3"));
}

#[test]
fn range_copy_takes_the_bytes_in_between() {
    assert_eq!(copy_range(b"hello", 1, 4), b"ell".to_vec());
    assert_eq!(copy_range(b"hello", 0, 5), b"hello".to_vec());
    assert_eq!(copy_range(b"hello", 2, 2), Vec::<u8>::new());
}
