use clickvault::order::sort;
use clickvault::text::{
    decimal, ends_with_char, parse_u64, replace_all, starts_with, starts_with_char, text_at_most,
    trim, trim_end_char, white_space,
};

#[test]
fn numbers_are_written_and_read() {
    for n in [0u64, 1, 9, 10, 42, 1_000, u64::MAX] {
        assert_eq!(decimal(n), n.to_string());
        assert_eq!(parse_u64(&n.to_string()), Some(n));
    }
    for s in ["", "+", "-1", "1 ", "+1", "00", "18446744073709551616", "1_0", "\u{661}"] {
        assert_eq!(parse_u64(s), s.parse::<u64>().ok(), "{s}");
    }
}

#[test]
fn white_space_is_that_of_the_standard_library() {
    for code in 0..=0x10ffffu32 {
        if let Some(c) = char::from_u32(code) {
            assert_eq!(white_space(c), c.is_whitespace(), "{code:x}");
        }
    }
    for s in ["", "  ", " a b ", "\t\u{2003}x\u{3000}", "x"] {
        assert_eq!(trim(s), s.trim());
    }
}

#[test]
fn texts_are_replaced_and_trimmed() {
    for (text, from) in [("aaa", "aa"), ("abab", "ab"), ("xyz", "q"), ("\u{e9}a\u{e9}", "\u{e9}")] {
        assert_eq!(replace_all(text, from, "***"), text.replace(from, "***"));
    }
    assert_eq!(trim_end_char("a//", '/'), "a");
    assert_eq!(trim_end_char("//", '/'), "");
    assert!(starts_with("http://x", "http://"));
    assert!(!starts_with("http", "http://"));
    assert!(starts_with_char("/a", '/'));
    assert!(!starts_with_char("", '/'));
    assert!(ends_with_char("a/", '/'));
    assert!(!ends_with_char("", '/'));
}

#[test]
fn texts_are_ordered_like_the_standard_library_does() {
    let texts = ["", "a", "aa", "b", "A", "\u{e9}", "\u{10000}", "\u{ffff}", "a\u{0}"];
    for a in texts {
        for b in texts {
            assert_eq!(text_at_most(a, b), a <= b, "{a} {b}");
        }
    }
    let mut theirs: Vec<String> = texts.iter().map(|s| s.to_string()).collect();
    let ours = sort(theirs.clone());
    theirs.sort();
    assert_eq!(ours, theirs);
}
