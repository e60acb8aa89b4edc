use codex_tools::text::{int_string, is_blank, lines_of, parse_u64_text, trim_str};

#[test]
fn trimming_follows_unicode_white_space() {
    assert_eq!(trim_str("  a b \t\n"), "a b");
    assert_eq!(trim_str("\u{3000}x\u{a0}"), "x");
    assert_eq!(trim_str("\u{2028}\u{85}y\u{202f}"), "y");
    assert_eq!(trim_str("\u{200b}z"), "\u{200b}z");
    assert!(is_blank(" \u{2003}\r\n"));
    assert!(!is_blank(" . "));
}

#[test]
fn lines_as_str_lines_gives_them() {
    assert_eq!(lines_of("a\r\nb\nc"), vec!["a", "b", "c"]);
    assert_eq!(lines_of("a\n\nb\n"), vec!["a", "", "b"]);
    assert_eq!(lines_of("x\ry\r"), vec!["x\ry\r"]);
    assert!(lines_of("").is_empty());
    assert_eq!(lines_of("\n"), vec![""]);
}

#[test]
fn numbers_in_text() {
    assert_eq!(int_string(-42), "-42");
    assert_eq!(int_string(0), "0");
    assert_eq!(int_string(i64::MIN), "-9223372036854775808");
    assert_eq!(parse_u64_text("18446744073709551615"), Some(u64::MAX));
    assert_eq!(parse_u64_text("18446744073709551616"), None);
    assert_eq!(parse_u64_text("12a"), None);
    assert_eq!(parse_u64_text("+7"), Some(7));
    assert_eq!(parse_u64_text(""), None);
}
