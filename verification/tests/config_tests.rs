use minigrep::Config;
use minigrep::EnvFlags;

fn no_env() -> EnvFlags {
    EnvFlags { ignore_case: false, no_color: false, line_number: false, stats: false }
}

fn args_of(parts: &[&str]) -> Vec<String> {
    parts.iter().map(|s| s.to_string()).collect()
}

#[test]
fn build_requires_query_and_file() {
    let args = args_of(&["prog", "needle"]);
    let err = Config::build(&args, no_env()).unwrap_err();
    assert_eq!(err, "Not enough arguments!");
}

#[test]
fn build_takes_positionals_in_order() {
    let args = args_of(&["prog", "needle", "haystack.txt"]);
    let config = Config::build(&args, no_env()).unwrap();
    assert_eq!(config.query, "needle");
    assert_eq!(config.file_path, "haystack.txt");
    assert!(!config.ignore_case);
    assert!(!config.no_color);
    assert!(!config.line_number);
    assert!(!config.stats);
}

#[test]
fn build_accepts_every_known_flag() {
    let args = args_of(&[
        "prog",
        "needle",
        "haystack.txt",
        "--ignore-case",
        "--no-color",
        "--line-number",
        "--stats",
    ]);
    let config = Config::build(&args, no_env()).unwrap();
    assert!(config.ignore_case);
    assert!(config.no_color);
    assert!(config.line_number);
    assert!(config.stats);
}

#[test]
fn build_suggests_nearest_flag_for_a_typo() {
    let args = args_of(&["prog", "needle", "haystack.txt", "--line-numbr"]);
    let err = Config::build(&args, no_env()).unwrap_err();
    assert_eq!(
        err,
        "Unrecognized flag '--line-numbr'. Did you mean '--line-number'?"
    );
}

#[test]
fn build_rejects_a_token_without_dashes() {
    let args = args_of(&["prog", "needle", "haystack.txt", "stats"]);
    let err = Config::build(&args, no_env()).unwrap_err();
    assert_eq!(err, "Invalid flag format 'stats'. Flags must start with '--'");
}

#[test]
fn build_reports_the_first_offending_flag() {
    let args = args_of(&["prog", "needle", "haystack.txt", "--stats", "--ignore-cse", "oops"]);
    let err = Config::build(&args, no_env()).unwrap_err();
    assert_eq!(
        err,
        "Unrecognized flag '--ignore-cse'. Did you mean '--ignore-case'?"
    );
}

#[test]
fn environment_presence_enables_flags_too() {
    let args = args_of(&["prog", "needle", "haystack.txt", "--stats"]);
    let env = EnvFlags { ignore_case: true, no_color: false, line_number: false, stats: false };
    let config = Config::build(&args, env).unwrap();
    assert!(config.ignore_case);
    assert!(!config.no_color);
    assert!(!config.line_number);
    assert!(config.stats);
}
