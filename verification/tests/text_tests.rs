use rl::text::{
    contains, find_first, find_last, first_piece_inclusive, join_texts, last_piece_inclusive,
    same_text, split, starts_with, trim_str,
};

#[test]
fn trim_removes_unicode_white_space() {
    assert_eq!(trim_str("  \t hello world \n"), "hello world");
    assert_eq!(trim_str("\u{3000}\u{a0}x\u{2003}"), "x");
    assert_eq!(trim_str("   "), "");
    assert_eq!(trim_str(""), "");
    assert_eq!(trim_str("a b"), "a b");
}

#[test]
fn split_matches_str_split() {
    for (s, c) in [("a,b,,c", ','), ("", ','), (",", ','), ("abc", ','), ("a.b.c", '.')] {
        let expected: Vec<String> = s.split(c).map(|x| x.to_string()).collect();
        assert_eq!(split(s, c), expected);
    }
}

#[test]
fn contains_and_starts_with() {
    assert!(contains("hello world", "lo w"));
    assert!(contains("hello", ""));
    assert!(!contains("hello", "hellos"));
    assert!(!contains("abc", "ac"));
    assert!(starts_with("https://x", "https://"));
    assert!(!starts_with("http", "https://"));
    assert!(same_text("abc", "abc"));
    assert!(!same_text("abc", "abd"));
}

#[test]
fn find_and_pieces() {
    assert_eq!(find_first("a:b:c", ':'), Some(1));
    assert_eq!(find_last("a:b:c", ':'), Some(3));
    assert_eq!(find_first("abc", ':'), None);
    assert_eq!(first_piece_inclusive("Search:    search", ':'), "Search:");
    assert_eq!(first_piece_inclusive("plain", ':'), "plain");
    assert_eq!(last_piece_inclusive("Search:    search", ':'), "    search");
    assert_eq!(last_piece_inclusive("a:b:", ':'), "b:");
    assert_eq!(last_piece_inclusive(":", ':'), ":");
}

#[test]
fn join_matches_slice_join() {
    let parts = vec!["a".to_string(), "b".to_string(), "c".to_string()];
    assert_eq!(join_texts(&parts, ", "), "a, b, c");
    assert_eq!(join_texts(&Vec::new(), ","), "");
    assert_eq!(join_texts(&vec!["x".to_string()], ","), "x");
}
