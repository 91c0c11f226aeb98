use tinct::brackets::{bracket_count, is_balanced};

#[test]
fn test_bracket_count_empty() {
    assert_eq!(bracket_count(""), 0);
}

#[test]
fn test_bracket_count_no_brackets() {
    assert_eq!(bracket_count("hello world"), 0);
}

#[test]
fn test_bracket_count_balanced() {
    assert_eq!(bracket_count("[x: 1]"), 0);
}

#[test]
fn test_bracket_count_open() {
    assert_eq!(bracket_count("[x: 1"), 1);
}

#[test]
fn test_bracket_count_close() {
    assert_eq!(bracket_count("x: 1]"), -1);
}

#[test]
fn test_bracket_count_nested() {
    assert_eq!(bracket_count("[["), 2);
}

#[test]
fn test_bracket_count_nested_balanced() {
    assert_eq!(bracket_count("[[x: 1] [y: 2]]"), 0);
}

#[test]
fn test_bracket_count_string_literal_ignored() {
    assert_eq!(bracket_count("\"[not a bracket]\""), 0);
}

#[test]
fn test_bracket_count_escaped_quote_in_string() {
    assert_eq!(bracket_count("\"hello \\\" world\""), 0);
}

#[test]
fn test_bracket_count_comment_ignored() {
    assert_eq!(bracket_count("[x: 1 # [unclosed"), 1);
}

#[test]
fn test_bracket_count_comment_only() {
    assert_eq!(bracket_count("# [[["), 0);
}

#[test]
fn test_bracket_count_mixed() {
    assert_eq!(bracket_count("[fn [x]"), 1);
}

#[test]
fn test_bracket_count_deeply_nested() {
    assert_eq!(bracket_count("[[["), 3);
    assert_eq!(bracket_count("]]]"), -3);
}

#[test]
fn test_is_balanced_single_line() {
    assert!(is_balanced(&["[x: 1]"]));
}

#[test]
fn test_is_balanced_multi_line_balanced() {
    assert!(is_balanced(&["[x:", "  1]"]));
}

#[test]
fn test_is_balanced_multi_line_unbalanced() {
    assert!(!is_balanced(&["[x:", "  [y:"]));
}

#[test]
fn test_is_balanced_empty() {
    assert!(is_balanced(&[""]));
}

#[test]
fn test_is_balanced_no_brackets() {
    assert!(is_balanced(&["42"]));
}

#[test]
fn test_is_balanced_excess_close() {
    assert!(is_balanced(&["[x: 1]]"]));
}

#[test]
fn test_is_balanced_three_lines() {
    assert!(is_balanced(&["[", "  x: 1", "]"]));
}

#[test]
fn test_is_balanced_nested_multi_line() {
    assert!(is_balanced(&["[fn [x]", "  [+ x 1]]"]));
}

#[test]
fn test_bracket_count_unclosed_string() {
    assert_eq!(bracket_count("\"[unclosed"), 0);
}
