use live_downloader::text::{contains, decimal_string, same_text, starts_with, trim};

#[test]
fn trims_unicode_white_space_at_both_ends() {
    assert_eq!(trim("  a b \t\n"), "a b");
    assert_eq!(trim("\u{3000}x\u{a0}"), "x");
    assert_eq!(trim("   "), "");
    assert_eq!(trim(""), "");
    assert_eq!(trim("abc"), "abc");
}

#[test]
fn finds_substrings_anywhere() {
    assert!(contains("soucarlosdaniel20260713", "20260713"));
    assert!(contains("abc", ""));
    assert!(contains("abc", "abc"));
    assert!(!contains("abc", "abcd"));
    assert!(!contains("abc", "bd"));
}

#[test]
fn prefixes_and_equality() {
    assert!(starts_with("chanstream", "chan"));
    assert!(!starts_with("xchan", "chan"));
    assert!(starts_with("a", ""));
    assert!(same_text("pt-BR", "pt-BR"));
    assert!(!same_text("pt-BR", "pt-br"));
}

#[test]
fn renders_integers_in_decimal() {
    assert_eq!(decimal_string(0), "0");
    assert_eq!(decimal_string(42), "42");
    assert_eq!(decimal_string(-7), "-7");
    assert_eq!(decimal_string(i64::MAX), i64::MAX.to_string());
    assert_eq!(decimal_string(i64::MIN), i64::MIN.to_string());
}
