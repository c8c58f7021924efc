use steampipe::text::{
    bytes_contain, chars_of, decimal_string, join_strings_lines, last_split_piece, lines_of, str_contains,
    str_eq,
};

#[test]
fn decimal_rendering() {
    assert_eq!(decimal_string(0), "0");
    assert_eq!(decimal_string(7), "7");
    assert_eq!(decimal_string(10), "10");
    assert_eq!(decimal_string(1234567), "1234567");
    assert_eq!(decimal_string(usize::MAX), usize::MAX.to_string());
}

#[test]
fn lines_match_std() {
    for text in ["", "\n", "a", "a\n", "a\nb", "a\r\nb\r\n", "a\r", "\n\nx\n", "foo\r\nbar\n\nbaz\r", "a\r\rb\n"] {
        let expected: Vec<String> = text.lines().map(|l| l.to_string()).collect();
        assert_eq!(lines_of(text), expected, "lines of {:?}", text);
    }
}

#[test]
fn joining_lines() {
    let parts = vec!["a".to_string(), "".to_string(), "c".to_string()];
    assert_eq!(join_strings_lines(&parts), "a\n\nc");
    assert_eq!(join_strings_lines(&[]), "");
}

#[test]
fn substring_search() {
    assert!(str_contains("helper_fn", "help"));
    assert!(str_contains("abc", ""));
    assert!(!str_contains("abc", "abcd"));
    assert!(!str_contains("abc", "bd"));
    assert!(bytes_contain(b"dbg!(x)", b"dbg"));
    assert!(!bytes_contain(b"x", b"xy"));
    assert!(str_eq("same", "same"));
    assert!(!str_eq("same", "Same"));
}

#[test]
fn split_pieces() {
    let piece = |s: &str, sep: &str| -> String {
        let out = last_split_piece(&chars_of(s), &chars_of(sep));
        out.into_iter().collect()
    };
    assert_eq!(piece("foo.bar.Used", "."), "Used");
    assert_eq!(piece("std::path::PathBuf", "::"), "PathBuf");
    assert_eq!(piece("a:::b", "::"), ":b");
    assert_eq!(piece("plain", "::"), "plain");
    assert_eq!(piece("trailing.", "."), "");
    for (s, sep) in [("a:::b", "::"), ("x::::y", "::"), ("::", "::"), ("a.b.c", ".")] {
        assert_eq!(piece(s, sep), s.split(sep).last().unwrap());
    }
}
