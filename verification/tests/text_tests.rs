use minigrep::find_in_str;
use minigrep::split_lines;
use minigrep::split_whitespace_tokens;
use minigrep::str_eq;
use minigrep::usize_to_string;

#[test]
fn find_reports_leftmost_character_position() {
    assert_eq!(find_in_str("safe, fast, productive.", "fast"), Some(6));
    assert_eq!(find_in_str("abcabc", "bc"), Some(1));
    assert_eq!(find_in_str("abc", "missing"), None);
}

#[test]
fn find_counts_characters_not_bytes() {
    assert_eq!(find_in_str("grün ist schön", "ist"), Some(5));
}

#[test]
fn empty_needle_is_found_at_the_start() {
    assert_eq!(find_in_str("anything", ""), Some(0));
    assert_eq!(find_in_str("", ""), Some(0));
}

#[test]
fn lines_split_at_line_feeds() {
    assert_eq!(split_lines("a\nb\nc"), vec!["a", "b", "c"]);
    assert_eq!(split_lines("a\nb\n"), vec!["a", "b"]);
    assert_eq!(split_lines(""), Vec::<String>::new());
    assert_eq!(split_lines("\n\n"), vec!["", ""]);
}

#[test]
fn lines_strip_one_trailing_carriage_return() {
    assert_eq!(split_lines("a\r\nb\r\n"), vec!["a", "b"]);
    assert_eq!(split_lines("a\r"), vec!["a\r"]);
}

#[test]
fn tokens_split_on_any_whitespace_run() {
    assert_eq!(split_whitespace_tokens("  a\t\tbb   c "), vec!["a", "bb", "c"]);
    assert_eq!(split_whitespace_tokens(""), Vec::<String>::new());
    assert_eq!(split_whitespace_tokens("   "), Vec::<String>::new());
}

#[test]
fn string_equality_is_by_characters() {
    assert!(str_eq("grün", "grün"));
    assert!(!str_eq("grün", "grun"));
    assert!(!str_eq("abc", "ab"));
}

#[test]
fn decimal_rendering_matches_the_usual_form() {
    assert_eq!(usize_to_string(0), "0");
    assert_eq!(usize_to_string(7), "7");
    assert_eq!(usize_to_string(42), "42");
    assert_eq!(usize_to_string(100), "100");
    assert_eq!(usize_to_string(9999), "9999");
}
