use rustcast::text::{byte_prefix, decimal_text, first_line, join_with_line_feeds, split_nonempty_lines, strip_prefix};

#[test]
fn first_line_of_texts() {
    assert_eq!(first_line("a\nb"), "a");
    assert_eq!(first_line("a\r\nb"), "a");
    assert_eq!(first_line("abc"), "abc");
    assert_eq!(first_line("abc\r"), "abc\r");
    assert_eq!(first_line(""), "");
    assert_eq!(first_line("\r\n"), "");
    for s in ["x\ny", "x\r\ny", "\n", "plain", "ü\r\nz", "a\rb\nc"] {
        assert_eq!(first_line(s), s.lines().next().unwrap_or(""));
    }
}

#[test]
fn byte_prefix_of_texts() {
    assert_eq!(byte_prefix("hello", 3), "hel");
    assert_eq!(byte_prefix("hello", 10), "hello");
    assert_eq!(byte_prefix("héllo", 2), "héllo");
    assert_eq!(byte_prefix("héllo", 3), "hé");
}

#[test]
fn split_and_join_lines() {
    assert_eq!(split_nonempty_lines("a\n\nb\n"), vec!["a".to_string(), "b".to_string()]);
    assert!(split_nonempty_lines("").is_empty());
    assert!(split_nonempty_lines("\n\n").is_empty());
    let list = vec!["/x".to_string(), "/y z".to_string()];
    let joined = join_with_line_feeds(&list);
    assert_eq!(joined, "/x\n/y z");
    assert_eq!(split_nonempty_lines(&joined), list);
    assert_eq!(join_with_line_feeds(&vec![]), "");
}

#[test]
fn strip_prefix_of_texts() {
    assert_eq!(strip_prefix("sha256:ab", "sha256:"), Some("ab".to_string()));
    assert_eq!(strip_prefix("sha25", "sha256:"), None);
    assert_eq!(strip_prefix("x", ""), Some("x".to_string()));
}

#[test]
fn decimal_texts() {
    for n in [0usize, 7, 10, 99, 100, 4096, usize::MAX] {
        assert_eq!(decimal_text(n), n.to_string());
    }
}
