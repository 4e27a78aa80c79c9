use byzer_shell::complete::{is_complete, strip_terminator};
use byzer_shell::text::{
    find_char, parse_index, str_eq, str_lt, str_starts_with, trim_end_matches_str,
    trim_start_matches_str, trim_str, usize_dec,
};

#[test]
fn completeness_follows_trimmed_terminator() {
    assert!(is_complete("select 1;"));
    assert!(is_complete(";"));
    assert!(is_complete("a; \t \n"));
    assert!(is_complete("select * from t ;"));
    assert!(!is_complete(""));
    assert!(!is_complete("   "));
    assert!(!is_complete("select 1"));
    assert!(!is_complete("a;b"));
}

#[test]
fn terminator_stripping() {
    assert_eq!(strip_terminator("help;"), "help");
    assert_eq!(strip_terminator("help ; "), "help ");
    assert_eq!(strip_terminator("help"), "help");
    assert_eq!(strip_terminator(""), "");
    assert_eq!(strip_terminator("a;b"), "a;b");
}

#[test]
fn index_parsing() {
    assert_eq!(parse_index("0"), Some(0));
    assert_eq!(parse_index("42"), Some(42));
    assert_eq!(parse_index("007"), Some(7));
    assert_eq!(parse_index(""), None);
    assert_eq!(parse_index("4a"), None);
    assert_eq!(parse_index("-1"), None);
    assert_eq!(parse_index("99999999999999999999999999999999"), None);
}

#[test]
fn decimal_rendering() {
    assert_eq!(usize_dec(0), "0");
    assert_eq!(usize_dec(9), "9");
    assert_eq!(usize_dec(10), "10");
    assert_eq!(usize_dec(120), "120");
}

#[test]
fn string_comparisons() {
    assert!(str_eq("abc", "abc"));
    assert!(!str_eq("abc", "abd"));
    assert!(!str_eq("abc", "ab"));
    assert!(str_lt("help", "history"));
    assert!(str_lt("help", "quit"));
    assert!(!str_lt("quit", "help"));
    assert!(str_lt("ab", "abc"));
    assert!(!str_lt("abc", "abc"));
    assert!(str_starts_with("engine.spark.x", "engine.spark"));
    assert!(!str_starts_with("engine", "engine.spark"));
}

#[test]
fn trimming_and_affix_stripping() {
    assert_eq!(trim_str("  a b \t"), "a b");
    assert_eq!(trim_str("   "), "");
    assert_eq!(trim_str("x"), "x");
    assert_eq!(trim_start_matches_str("engine.engine.x", "engine."), "x");
    assert_eq!(trim_end_matches_str("http://h/run//", "/"), "http://h/run");
    assert_eq!(trim_end_matches_str("abc", "/"), "abc");
}

#[test]
fn char_search() {
    assert_eq!(find_char("k=v", '='), Some(1));
    assert_eq!(find_char("kv", '='), None);
    assert_eq!(find_char("=kv", '='), Some(0));
}
