use byzer_shell::highlight::{highlight, split_with_whitespace, EditHelper, KeywordSet};

const BLUE: &str = "\x1b[1;34m";
const RESET: &str = "\x1b[0m";

fn keyword_set(words: &[&str]) -> KeywordSet {
    KeywordSet::new(words.iter().map(|w| String::from(*w)).collect())
}

#[test]
fn keywords_are_wrapped_in_order() {
    let kws = keyword_set(&["select", "from"]);
    let out = highlight("select a from b;", &kws);
    let expected = format!("{BLUE}select{RESET} a {BLUE}from{RESET} b;");
    assert_eq!(out, expected);
}

#[test]
fn highlighting_is_lossless() {
    let kws = keyword_set(&["select", "from", "where"]);
    for line in [
        "select a from b;",
        "select*from t where x=1;",
        "no keywords here",
        "  spaces   and, punctuation !",
    ] {
        let out = highlight(line, &kws);
        let stripped = out.replace(BLUE, "").replace(RESET, "");
        assert_eq!(stripped, line);
    }
}

#[test]
fn keyword_match_ignores_ascii_case() {
    let kws = keyword_set(&["select"]);
    let out = highlight("SELECT x;", &kws);
    assert_eq!(out, format!("{BLUE}SELECT{RESET} x;"));
}

#[test]
fn short_lines_are_returned_unchanged() {
    let kws = keyword_set(&["a"]);
    assert_eq!(highlight("a", &kws), "a");
    assert_eq!(highlight("", &kws), "");
}

#[test]
fn bang_prefixed_keyword_is_one_word() {
    let helper = EditHelper::new();
    let out = helper.highlight("!show tables;");
    assert_eq!(out, format!("{BLUE}!show{RESET} tables;"));
}

#[test]
fn stock_keywords_color_a_statement() {
    let helper = EditHelper::new();
    let out = helper.highlight("load csv as t;");
    assert_eq!(out, format!("{BLUE}load{RESET} csv {BLUE}as{RESET} t;"));
}

#[test]
fn helper_validates_complete_statements() {
    let helper = EditHelper::new();
    assert!(helper.validate("select 1;"));
    assert!(!helper.validate("select 1"));
    assert!(helper.validate("select 1; "));
}

#[test]
fn partition_keeps_every_character() {
    let parts = split_with_whitespace("select a, b from t;").unwrap();
    assert_eq!(parts.concat(), "select a, b from t;");
    assert_eq!(parts[0], "select");
    assert_eq!(parts[1], " ");
    assert_eq!(parts[2], "a");
    assert_eq!(parts[3], ", ");
    assert!(split_with_whitespace("").is_none());
}
