use lightpool_bot::text::{
    append, contains, eq_ignore_ascii_case, join, last_piece, padded_u64_text, parse_u64, same,
    split, split_once, strip_prefix, strip_suffix, to_ascii_lowercase, to_ascii_uppercase, trim,
    trim_end_matches, trim_matches, u64_text,
};

#[test]
fn texts_are_trimmed() {
    for text in ["", "  a b\t", "\u{a0}x\u{2003}", "none", " \n "] {
        assert_eq!(trim(text), text.trim());
    }
    assert_eq!(trim_end_matches("http://x//", '/'), "http://x");
    assert_eq!(trim_matches("\"0.5\"", '"'), "0.5");
}

#[test]
fn texts_are_compared() {
    assert!(same("a", "a"));
    assert!(!same("a", "A"));
    assert!(eq_ignore_ascii_case("YES", "yes"));
    assert!(!eq_ignore_ascii_case("\u{c9}", "\u{e9}"));
    assert!(contains("order book", "book"));
    assert!(contains("order", ""));
    assert!(!contains("order", "orders"));
}

#[test]
fn texts_change_case() {
    assert_eq!(to_ascii_lowercase("YeS \u{c9}"), "yes \u{c9}");
    assert_eq!(to_ascii_uppercase("no-1"), "NO-1");
}

#[test]
fn texts_lose_prefix_and_suffix() {
    assert_eq!(strip_prefix("0xab", "0x"), Some("ab".to_string()));
    assert_eq!(strip_prefix("ab", "0x"), None);
    assert_eq!(strip_suffix("rain-YES", "-YES"), Some("rain".to_string()));
    assert_eq!(strip_suffix("rain", "-YES"), None);
    assert_eq!(append("ab", "cd"), "abcd");
}

#[test]
fn texts_are_split_and_joined() {
    assert_eq!(split("a,,b", ','), vec!["a", "", "b"]);
    assert_eq!(split("", ','), vec![""]);
    let parts = vec!["a".to_string(), "b".to_string()];
    assert_eq!(join(&parts, ","), "a,b");
    assert_eq!(join(&Vec::new(), ","), "");
    assert_eq!(
        split_once("a.b.c", '.'),
        Some(("a".to_string(), "b.c".to_string()))
    );
    assert_eq!(split_once("abc", '.'), None);
    assert_eq!(last_piece("a-b-c", '-'), "c");
    assert_eq!(last_piece("abc", '-'), "abc");
}

#[test]
fn numbers_are_written_and_read() {
    assert_eq!(u64_text(0), "0");
    assert_eq!(u64_text(u64::MAX), "18446744073709551615");
    assert_eq!(padded_u64_text(42, 6), "000042");
    assert_eq!(parse_u64("18446744073709551615"), Some(u64::MAX));
    assert_eq!(parse_u64("18446744073709551616"), None);
    assert_eq!(parse_u64("+7"), Some(7));
    assert_eq!(parse_u64("-7"), None);
    assert_eq!(parse_u64(""), None);
    assert_eq!(parse_u64("+"), None);
}
