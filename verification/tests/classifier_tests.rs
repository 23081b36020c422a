use tailspin::highlight::{classify, has_substring, pattern_match, starts_with, HighlightProcessor,
    HighlightSet, Pattern, Rule};
use tailspin::style::{Style, StyledLine};

fn rule(pattern: &[u8], code: u32) -> Rule {
    Rule { pattern: Pattern::Prefix { bytes: pattern.to_vec() }, style: Style { code } }
}

fn contains_rule(pattern: &[u8], code: u32) -> Rule {
    Rule { pattern: Pattern::Contains { bytes: pattern.to_vec() }, style: Style { code } }
}

fn error_info_rules() -> HighlightSet {
    HighlightSet { rules: vec![rule(b"ERROR:", 31), rule(b"INFO:", 32)] }
}

#[test]
fn classify_wraps_matching_line() {
    let rules = error_info_rules();
    let line = b"ERROR: disk full".to_vec();
    let out = classify(&line, &rules);
    assert_eq!(out, StyledLine::Styled { style: Style { code: 31 }, text: line });
}

#[test]
fn classify_second_rule_matches() {
    let rules = error_info_rules();
    let line = b"INFO: retrying".to_vec();
    let out = classify(&line, &rules);
    assert_eq!(out, StyledLine::Styled { style: Style { code: 32 }, text: line });
}

#[test]
fn classify_no_match_is_plain() {
    let rules = error_info_rules();
    let line = b"plain text".to_vec();
    let out = classify(&line, &rules);
    assert_eq!(out, StyledLine::Plain { text: line });
}

#[test]
fn classify_first_match_wins() {
    let rules = HighlightSet { rules: vec![rule(b"ERR", 1), rule(b"ERROR", 2)] };
    let line = b"ERROR: x".to_vec();
    let out = classify(&line, &rules);
    assert_eq!(out, StyledLine::Styled { style: Style { code: 1 }, text: line });
}

#[test]
fn classify_empty_pattern_is_catch_all() {
    let rules = HighlightSet { rules: vec![rule(b"ERROR:", 31), rule(b"", 90)] };
    let line = b"anything else".to_vec();
    let out = classify(&line, &rules);
    assert_eq!(out, StyledLine::Styled { style: Style { code: 90 }, text: line });
}

#[test]
fn classify_empty_line() {
    let rules = error_info_rules();
    let out = classify(&Vec::new(), &rules);
    assert_eq!(out, StyledLine::Plain { text: Vec::new() });
}

#[test]
fn strip_round_trip_styled() {
    let rules = error_info_rules();
    let line = b"ERROR: disk full".to_vec();
    let out = classify(&line, &rules);
    assert_eq!(out.strip(), &line);
}

#[test]
fn strip_round_trip_plain() {
    let rules = error_info_rules();
    let line = b"no rule claims this".to_vec();
    let out = classify(&line, &rules);
    assert_eq!(out.strip(), &line);
}

#[test]
fn classify_idempotent_after_strip() {
    let rules = error_info_rules();
    let line = b"ERROR: disk full".to_vec();
    let once = classify(&line, &rules);
    let again = classify(once.strip(), &rules);
    assert_eq!(again, once);
}

#[test]
fn classify_idempotent_after_strip_plain() {
    let rules = error_info_rules();
    let line = b"nothing special".to_vec();
    let once = classify(&line, &rules);
    let again = classify(once.strip(), &rules);
    assert_eq!(again, once);
}

#[test]
fn classify_contains_rule_matches_anywhere() {
    let rules = HighlightSet { rules: vec![contains_rule(b"panic", 35)] };
    let line = b"thread 'main' panicked".to_vec();
    let out = classify(&line, &rules);
    assert_eq!(out, StyledLine::Styled { style: Style { code: 35 }, text: line });
    let miss = b"all is well".to_vec();
    assert_eq!(classify(&miss, &rules), StyledLine::Plain { text: miss });
}

#[test]
fn has_substring_cases() {
    assert!(has_substring(&b"abcdef".to_vec(), &b"cde".to_vec()));
    assert!(has_substring(&b"abcdef".to_vec(), &b"abcdef".to_vec()));
    assert!(has_substring(&b"abcdef".to_vec(), &b"".to_vec()));
    assert!(!has_substring(&b"abcdef".to_vec(), &b"cdf".to_vec()));
    assert!(!has_substring(&b"ab".to_vec(), &b"abc".to_vec()));
}

#[test]
fn pattern_match_distinguishes_kinds() {
    let line = b"x ERROR: y".to_vec();
    assert!(!pattern_match(&Pattern::Prefix { bytes: b"ERROR:".to_vec() }, &line));
    assert!(pattern_match(&Pattern::Contains { bytes: b"ERROR:".to_vec() }, &line));
}

#[test]
fn starts_with_cases() {
    assert!(starts_with(&b"ERROR: x".to_vec(), &b"ERROR:".to_vec()));
    assert!(!starts_with(&b"ERR".to_vec(), &b"ERROR:".to_vec()));
    assert!(!starts_with(&b"xERROR:".to_vec(), &b"ERROR:".to_vec()));
    assert!(starts_with(&b"abc".to_vec(), &b"".to_vec()));
}

#[test]
fn processor_delegates_to_classifier() {
    let processor = HighlightProcessor::new(error_info_rules());
    let line = b"INFO: retrying".to_vec();
    let direct = classify(&line, &error_info_rules());
    assert_eq!(processor.process(&line), direct);
}
