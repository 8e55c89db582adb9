use minigrep::search;
use minigrep::Config;

fn create_config(
    query: &str,
    ignore_case: bool,
    no_color: bool,
    line_number: bool,
    stats: bool,
) -> Config {
    Config {
        query: query.to_string(),
        file_path: "fake_path.txt".to_string(),
        ignore_case,
        no_color,
        line_number,
        stats,
    }
}

#[test]
fn one_result() {
    let config = create_config("duct", false, true, false, false);
    let contents = "\
Rust:
safe, fast, productive.
Pick three.";

    let (results, indexes, _, _) = search(contents, &config);

    assert_eq!(results.len(), 1);
    assert_eq!(results[0], "safe, fast, productive.");
    assert_eq!(indexes[0], 1); // line index (0-based)
}

#[test]
fn case_insensitive() {
    let config = create_config("rUsT", true, true, false, false);
    let contents = "\
Rust:
safe, fast, productive.
Pick three.
Trust me.";

    let (results, indexes, _, _) = search(contents, &config);

    assert_eq!(results, vec!["Rust:", "Trust me."]);
    assert_eq!(indexes, vec![0, 3]);
}

#[test]
fn no_matches() {
    let config = create_config("missing", false, true, false, false);
    let contents = "\
This text
does not
contain your word.";

    let (results, indexes, _, _) = search(contents, &config);

    assert!(results.is_empty());
    assert!(indexes.is_empty());
}

#[test]
fn highlight_disabled() {
    let config = create_config("fast", false, true, false, false);
    let contents = "safe, fast, productive.";

    let (results, _, _, _) = search(contents, &config);

    assert_eq!(results[0], "safe, fast, productive.");
}

#[test]
fn highlight_enabled() {
    // The colorizer only styles a terminal by default; pin it on so the
    // piped test process behaves like an interactive run.
    colored::control::set_override(true);
    let config = create_config("fast", false, false, false, false);
    let contents = "safe, fast, productive.";

    let (results, _, _, _) = search(contents, &config);

    assert!(results[0].contains("\u{1b}")); // ANSI escape for color
    assert!(results[0].contains("fast")); // Still contains matched text
}

#[test]
fn line_number_enabled() {
    let config = create_config("safe", false, true, true, false);
    let contents = "safe, fast, productive.";

    let (results, indexes, _, _) = search(contents, &config);
    assert_eq!(indexes, vec![0]);
    assert_eq!(results[0], "safe, fast, productive.");
}

#[test]
fn case_sensitive_query_misses_both_lines() {
    let config = create_config("rUsT", false, true, false, false);
    let contents = "Rust:\nTrust me.";

    let (results, indexes, scanned, _) = search(contents, &config);

    assert!(results.is_empty());
    assert!(indexes.is_empty());
    assert_eq!(scanned, 2);
}

#[test]
fn empty_result_stats() {
    let config = create_config("missing", false, true, false, false);
    let contents = "\
This text
does not
contain your word.";

    let (results, _, scanned, words) = search(contents, &config);

    assert_eq!(results.len(), 0);
    assert_eq!(scanned, 3);
    assert_eq!(words, 0);
}

#[test]
fn counts_matched_words_and_lines() {
    let config = create_config("a", false, true, false, false);
    let contents = "a ba c\nnothing here\naa a";

    let (results, indexes, scanned, words) = search(contents, &config);

    assert_eq!(results.len(), 2);
    assert_eq!(indexes, vec![0, 2]);
    assert_eq!(scanned, 3);
    // line 0: tokens "a", "ba", "c" -> two hold "a"; line 2: "aa", "a" -> two
    assert_eq!(words, 4);
}

#[test]
fn rejoins_tokens_with_single_spaces() {
    let config = create_config("fast", false, true, false, false);
    let contents = "safe,\tfast,   productive.";

    let (results, _, _, _) = search(contents, &config);

    assert_eq!(results[0], "safe, fast, productive.");
}

#[test]
fn empty_query_matches_every_line() {
    let config = create_config("", false, true, false, false);
    let contents = "one two\nthree";

    let (results, indexes, scanned, words) = search(contents, &config);

    assert_eq!(results, vec!["one two", "three"]);
    assert_eq!(indexes, vec![0, 1]);
    assert_eq!(scanned, 2);
    assert_eq!(words, 3);
}

#[test]
fn empty_contents_scan_nothing() {
    let config = create_config("x", false, true, false, false);

    let (results, indexes, scanned, words) = search("", &config);

    assert!(results.is_empty());
    assert!(indexes.is_empty());
    assert_eq!(scanned, 0);
    assert_eq!(words, 0);
}

#[test]
fn scan_is_deterministic() {
    let config = create_config("duct", false, true, false, false);
    let contents = "Rust:\nsafe, fast, productive.\nPick three.";

    let first = search(contents, &config);
    let second = search(contents, &config);

    assert_eq!(first.0, second.0);
    assert_eq!(first.1, second.1);
    assert_eq!(first.2, second.2);
    assert_eq!(first.3, second.3);
}

#[test]
fn query_matching_inside_multibyte_line_keeps_text_intact() {
    let config = create_config("grün", true, true, false, false);
    let contents = "Grün ist schön\nblau auch";

    let (results, indexes, _, _) = search(contents, &config);

    assert_eq!(indexes, vec![0]);
    assert_eq!(results[0], "Grün ist schön");
}

#[test]
fn lowercasing_really_lowercases() {
    assert_eq!(minigrep::conditional_lowercase("AbC", true), "abc");
    assert_eq!(minigrep::conditional_lowercase("AbC", false), "AbC");
}

#[test]
fn highlight_line_counts_tokens_holding_the_query() {
    let (display, words) = minigrep::highlight_line("Fast faster fastest", "fast faster fastest", "fast", false);
    assert_eq!(display, "Fast faster fastest");
    assert_eq!(words, 3);
}

#[test]
fn highlight_without_color_returns_token_unchanged() {
    assert_eq!(minigrep::highlight("safest", 2, 3, false), "safest");
}

#[test]
fn highlight_with_color_wraps_matched_slice() {
    let out = minigrep::highlight("safest", 2, 3, true);
    assert!(out.starts_with("sa"));
    assert!(out.ends_with("t"));
    assert!(out.contains("fes"));
}
