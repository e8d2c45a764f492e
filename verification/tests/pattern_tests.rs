//! Query-planner classification and glob translation.
use file_finder::pattern::{analyze_regex_pattern, build_glob_regex, PatternType};

fn chars(s: &str) -> Vec<char> {
    s.chars().collect()
}

#[test]
fn classifies_extension_glob() {
    let info = analyze_regex_pattern("*.txt");
    assert!(matches!(info.pattern_type, PatternType::SimpleGlob));
    assert_eq!(info.suffix, Some(chars("txt")));
    assert_eq!(info.prefix, None);
    assert!(info.can_use_sql_optimization);
    assert_eq!(info.sql_like_pattern, Some(chars("%.txt")));
}

#[test]
fn classifies_prefix_glob() {
    let info = analyze_regex_pattern("log*");
    assert!(matches!(info.pattern_type, PatternType::SimpleGlob));
    assert_eq!(info.prefix, Some(chars("log")));
    assert_eq!(info.sql_like_pattern, Some(chars("log%")));
}

#[test]
fn classifies_simple_prefix_regex() {
    // without the anchor, `log.*` is already a single-star glob
    let glob = analyze_regex_pattern("log.*");
    assert!(matches!(glob.pattern_type, PatternType::SimpleGlob));
    assert_eq!(glob.prefix, Some(chars("log.")));
    let info = analyze_regex_pattern("^log.*");
    assert!(matches!(info.pattern_type, PatternType::SimplePrefix));
    assert_eq!(info.prefix, Some(chars("log")));
    assert_eq!(info.sql_like_pattern, Some(chars("log%")));
}

#[test]
fn classifies_prefix_suffix() {
    let info = analyze_regex_pattern("report.*2024");
    assert!(matches!(info.pattern_type, PatternType::PrefixSuffix));
    assert_eq!(info.prefix, Some(chars("report")));
    assert_eq!(info.suffix, Some(chars("2024")));
    assert_eq!(info.sql_like_pattern, Some(chars("report%")));
}

#[test]
fn classifies_plain_text() {
    let info = analyze_regex_pattern("budget");
    assert!(matches!(info.pattern_type, PatternType::LiteralSearch));
    assert_eq!(info.sql_like_pattern, Some(chars("%budget%")));
}

#[test]
fn two_word_literal_concatenates() {
    let info = analyze_regex_pattern("gre word");
    assert!(matches!(info.pattern_type, PatternType::LiteralSearch));
    assert_eq!(info.sql_like_pattern, Some(chars("%greword%")));
}

#[test]
fn three_word_literal_keeps_phrase() {
    let info = analyze_regex_pattern("a b c");
    assert!(matches!(info.pattern_type, PatternType::LiteralSearch));
    assert_eq!(info.sql_like_pattern, Some(chars("%a b c%")));
}

#[test]
fn classifies_complex_regex() {
    let info = analyze_regex_pattern("[a-z]+\\d{2,4}");
    assert!(matches!(info.pattern_type, PatternType::ComplexRegex));
    assert!(!info.can_use_sql_optimization);
    assert_eq!(info.sql_like_pattern, None);
}

#[test]
fn slash_wrapped_is_explicit_regex() {
    let info = analyze_regex_pattern("/^ab+c$/");
    assert!(matches!(info.pattern_type, PatternType::ComplexRegex));
}

#[test]
fn glob_regex_translation() {
    assert_eq!(build_glob_regex(&chars("*.txt")), chars("^.*\\.txt$"));
    assert_eq!(build_glob_regex(&chars("log*")), chars("^log.*$"));
    assert_eq!(build_glob_regex(&chars("a?b")), chars("^a.b$"));
    assert_eq!(build_glob_regex(&chars("x[a-z]y")), chars("^x[a\\-z]y$"));
    assert_eq!(build_glob_regex(&chars("a+b")), chars("^a\\+b$"));
}
