use eidolon::text::{
    concat_str, contains_str, lines_of, push_path, replace_str, split_str, str_get, trim_str,
};

#[test]
fn lines_follow_str_lines() {
    assert_eq!(lines_of("a\r\nb\n"), vec!["a".to_string(), "b".to_string()]);
    assert_eq!(lines_of("a\r"), vec!["a\r".to_string()]);
    assert_eq!(lines_of(""), Vec::<String>::new());
    assert_eq!(lines_of("\n\nx"), vec!["".to_string(), "".to_string(), "x".to_string()]);
}

#[test]
fn split_keeps_empty_pieces() {
    assert_eq!(
        split_str("a||b", '|'),
        vec!["a".to_string(), "".to_string(), "b".to_string()]
    );
    assert_eq!(split_str("", '|'), vec!["".to_string()]);
}

#[test]
fn trim_uses_unicode_white_space() {
    assert_eq!(trim_str("\u{3000} x y\t\n"), "x y");
    assert_eq!(trim_str("   "), "");
}

#[test]
fn replace_is_left_to_right() {
    assert_eq!(replace_str("aaa", "aa", "b"), "ba");
    assert_eq!(replace_str("a b c", " ", "\\ "), "a\\ b\\ c");
}

#[test]
fn contains_finds_substrings() {
    assert!(contains_str("lutris lutris:rungameid/1", "lutris:rungameid"));
    assert!(!contains_str("abc", "abd"));
    assert!(contains_str("abc", ""));
}

#[test]
fn paths_are_pushed_like_pathbuf() {
    assert_eq!(push_path("/home/u", "x"), "/home/u/x");
    assert_eq!(push_path("/home/u/", "x"), "/home/u/x");
    assert_eq!(push_path("/home/u", "/abs"), "/abs");
    assert_eq!(push_path("", "x"), "x");
}

#[test]
fn byte_ranges_respect_char_boundaries() {
    assert_eq!(str_get("héllo", 1, 2), None);
    assert_eq!(str_get("héllo", 1, 3), Some("é".to_string()));
    assert_eq!(str_get("abc", 2, 1), None);
    assert_eq!(str_get("abc", 1, 4), None);
}

#[test]
fn concatenation() {
    assert_eq!(concat_str("ab", "c"), "abc");
}
