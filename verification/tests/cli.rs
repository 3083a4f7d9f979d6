//! Command-line parsing: requests, options, and the messages a mistake gets.

use terminarium::cli::{parse, Invocation, Options, HELP, VERSION_LINE};

fn args(tokens: &[&str]) -> Vec<String> {
    tokens.iter().map(|s| s.to_string()).collect()
}

fn options(tokens: &[&str]) -> Options {
    match parse(&args(tokens)).unwrap() {
        Invocation::Run(options) => options,
        other => panic!("expected a run, got {other:?}"),
    }
}

#[test]
fn no_flag_is_real_time() {
    assert_eq!(options(&[]), Options { time_scale: 1 });
}

#[test]
fn time_scale_flag_sets_the_multiplier() {
    assert_eq!(options(&["--time-scale", "60"]).time_scale, 60);
}

#[test]
fn zero_scale_is_rejected() {
    assert!(parse(&args(&["--time-scale", "0"])).is_err());
}

#[test]
fn non_numeric_scale_is_rejected() {
    assert!(parse(&args(&["--time-scale", "fast"])).is_err());
}

#[test]
fn missing_value_is_rejected() {
    assert!(parse(&args(&["--time-scale"])).is_err());
}

#[test]
fn unknown_argument_is_rejected() {
    assert!(parse(&args(&["--turbo"])).is_err());
}

#[test]
fn help_is_asked_for_by_either_spelling() {
    for flag in ["-h", "--help"] {
        assert_eq!(parse(&args(&[flag])).unwrap(), Invocation::Help);
    }
}

#[test]
fn the_version_is_asked_for_by_either_spelling() {
    for flag in ["-V", "--version"] {
        assert_eq!(parse(&args(&[flag])).unwrap(), Invocation::Version);
    }
}

#[test]
fn a_request_wins_over_the_options_before_it() {
    assert_eq!(
        parse(&args(&["--time-scale", "60", "--help"])).unwrap(),
        Invocation::Help
    );
}

#[test]
fn a_mistake_before_a_request_is_still_a_mistake() {
    assert!(parse(&args(&["--turbo", "--help"])).is_err());
}

#[test]
fn help_names_both_layers_and_the_size_that_divides_them() {
    for term in ["wallpaper", "game", "80x20"] {
        assert!(HELP.contains(term), "help should name {term}");
    }
}

#[test]
fn help_lists_every_key_the_sea_answers_to() {
    for key in [
        "h l",
        "j k",
        "Enter / Backspace",
        "  s ",
        "1-4",
        "  a ",
        "n, then y",
        "q (or Ctrl-C)",
    ] {
        assert!(HELP.contains(key), "help should list the key {key:?}");
    }
}

#[test]
fn help_lists_every_flag_the_parser_answers_to() {
    for flag in ["-h, --help", "-V, --version"] {
        assert!(HELP.contains(flag), "help should list {flag}");
    }
    // The help is a promise; each flag it prints has to parse.
    for flag in ["-h", "--help", "-V", "--version"] {
        assert!(parse(&args(&[flag])).is_ok(), "{flag} should parse");
    }
}

#[test]
fn help_stays_ascii() {
    assert!(
        HELP.is_ascii(),
        "help must survive a console that is not UTF-8"
    );
}

#[test]
fn the_version_printed_is_the_version_in_the_manifest() {
    // The package is released as 0.3.0 (the release that added lantern and
    // lagoon); the version line names it.
    assert_eq!(VERSION_LINE, "terminarium 0.3.0");
}

#[test]
fn a_bad_scale_names_itself_in_the_message() {
    assert_eq!(
        parse(&args(&["--time-scale", "fast"])),
        Err("--time-scale: not a number: fast".to_string())
    );
    assert_eq!(parse(&args(&["--turbo"])), Err("unknown argument: --turbo".to_string()));
    assert_eq!(
        parse(&args(&["--time-scale"])),
        Err("--time-scale needs a value".to_string())
    );
    assert_eq!(
        parse(&args(&["--time-scale", "0"])),
        Err("--time-scale must be at least 1".to_string())
    );
    // A scale past u64 is not a number a u64 can hold.
    assert_eq!(
        parse(&args(&["--time-scale", "18446744073709551616"])),
        Err("--time-scale: not a number: 18446744073709551616".to_string())
    );
}

#[test]
fn the_last_scale_given_wins() {
    assert_eq!(options(&["--time-scale", "5", "--time-scale", "+7"]).time_scale, 7);
}

