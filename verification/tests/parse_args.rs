use velr_cli::args::{parse_args_from_inner, Action, Config, Mode};
use velr_cli::table::RenderMode;

fn args(list: &[&str]) -> Vec<Option<String>> {
    list.iter().map(|a| Some(a.to_string())).collect()
}

fn no_stdin() -> Result<String, String> {
    Ok(String::new())
}

fn parse(list: &[&str], stdin_is_terminal: bool, stdout_is_terminal: bool) -> Result<Config, String> {
    parse_args_from_inner(args(list), stdin_is_terminal, stdout_is_terminal, false, no_stdin)
}

#[test]
fn parse_args_defaults_to_tsv_when_stdout_is_not_terminal() {
    let config = parse(&["-e", "RETURN 1 AS n"], true, false).expect("args should parse");

    assert_eq!(config.format, RenderMode::Tsv);
    assert_eq!(config.mode, Mode::Execute("RETURN 1 AS n".to_string()));
}

#[test]
fn parse_args_defaults_to_styled_when_stdout_is_terminal() {
    let config = parse(&["-e", "RETURN 1 AS n"], true, true).expect("args should parse");

    assert_eq!(config.format, RenderMode::Styled);
    assert_eq!(config.mode, Mode::Execute("RETURN 1 AS n".to_string()));
}

#[test]
fn explicit_format_overrides_terminal_default() {
    let config = parse(&["-f", "csv", "-e", "RETURN 1 AS n"], true, true).expect("args should parse");

    assert_eq!(config.format, RenderMode::Csv);
}

#[test]
fn explain_query_does_not_require_execute_flag() {
    let config = parse(&["--explain", "RETURN 1 AS n"], true, true).expect("args should parse");

    assert!(config.explain);
    assert_eq!(config.mode, Mode::Execute("RETURN 1 AS n".to_string()));
}

#[test]
fn explain_query_can_follow_database_path() {
    let config = parse(&["graph.db", "--explain", "MATCH (n) RETURN n"], true, true)
        .expect("args should parse");

    assert!(config.explain);
    assert_eq!(config.db_path, Some("graph.db".to_string()));
    assert_eq!(config.mode, Mode::Execute("MATCH (n) RETURN n".to_string()));
}

#[test]
fn explain_rejects_execute_flag() {
    let err = parse(&["--explain", "-e", "RETURN 1 AS n"], true, true)
        .expect_err("explain and execute should conflict");

    assert!(err.contains("Cannot combine --explain with -e/--execute"));
}

#[test]
fn windows_style_flags_are_rejected_when_enabled() {
    for flag in ["/?", "/help", "/version", "/xxx"] {
        let err = parse_args_from_inner(args(&[flag]), true, true, true, no_stdin)
            .expect_err("windows style flag should be rejected");

        assert!(err.contains(&format!("Unknown option: {flag}")), "{flag}");
    }
}

#[test]
fn windows_style_flags_are_rejected_after_db_path_when_enabled() {
    for flag in ["/?", "/xxx"] {
        let err = parse_args_from_inner(args(&["graph.db", flag]), true, true, true, no_stdin)
            .expect_err("windows style flag after db path should be rejected");

        assert!(err.contains(&format!("Unknown option: {flag}")), "{flag}");
    }
}

#[test]
fn windows_style_flags_are_rejected_after_explain_when_enabled() {
    for flag in ["/?", "/xxx"] {
        let err = parse_args_from_inner(args(&["--explain", flag]), true, true, true, no_stdin)
            .expect_err("windows style flag after explain should be rejected");

        assert!(err.contains(&format!("Unknown option: {flag}")), "{flag}");
    }
}

#[test]
fn slash_prefixed_paths_are_allowed_on_non_windows_parse() {
    let config = parse_args_from_inner(args(&["/tmp/graph.db"]), true, true, false, no_stdin)
        .expect("unix absolute path should parse when windows slash flags are disabled");

    assert_eq!(config.db_path, Some("/tmp/graph.db".to_string()));
}

#[test]
fn help_and_version_stop_reading_arguments() {
    let config = parse(&["-h", "--bogus"], true, true).expect("help parses");
    assert_eq!(config.action, Action::Help);
    assert_eq!(config.format, RenderMode::Plain);
    assert_eq!(config.mode, Mode::Interactive);

    let config = parse(&["--version"], false, false).expect("version parses");
    assert_eq!(config.action, Action::Version);
}

#[test]
fn unknown_flags_and_formats_are_usage_errors() {
    assert_eq!(
        parse(&["--bogus"], true, true).unwrap_err(),
        "Unknown option: --bogus\nTry 'velr --help'."
    );
    assert_eq!(
        parse(&["-f", "yaml"], true, true).unwrap_err(),
        "Unknown format: yaml. Expected one of: plain, styled, csv, tsv, ndjson\nTry 'velr --help'."
    );
    assert_eq!(
        parse(&["--format=xml"], true, true).unwrap_err(),
        "Unknown format: xml. Expected one of: plain, styled, csv, tsv, ndjson\nTry 'velr --help'."
    );
    assert_eq!(
        parse(&["-e"], true, true).unwrap_err(),
        "Missing value for -e\nTry 'velr --help'."
    );
    assert_eq!(
        parse(&["-e", "A", "--execute", "B"], true, true).unwrap_err(),
        "--execute may only be passed once\nTry 'velr --help'."
    );
    assert_eq!(
        parse(&["a.db", "b.db"], true, true).unwrap_err(),
        "Unexpected argument: b.db\nTry 'velr --help'."
    );
}

#[test]
fn option_separator_still_rejects_dash_prefixed_paths() {
    assert_eq!(
        parse(&["--", "-graph.db"], true, true).unwrap_err(),
        "Unknown option: -graph.db\nTry 'velr --help'."
    );
    let config = parse(&["--", "--stats"], true, true).unwrap_err();
    assert_eq!(config, "Unknown option: --stats\nTry 'velr --help'.");
}

#[test]
fn non_utf8_arguments_are_usage_errors() {
    let err = parse_args_from_inner(vec![None], true, true, false, no_stdin).unwrap_err();
    assert_eq!(err, "argument must be valid UTF-8\nTry 'velr --help'.");

    let err = parse_args_from_inner(vec![Some("-e".to_string()), None], true, true, false, no_stdin)
        .unwrap_err();
    assert_eq!(err, "-e must be valid UTF-8\nTry 'velr --help'.");
}

#[test]
fn equals_forms_set_options() {
    let config = parse(&["--execute=RETURN 2", "--format=ndjson", "--stats"], true, false)
        .expect("args should parse");
    assert_eq!(config.mode, Mode::Execute("RETURN 2".to_string()));
    assert_eq!(config.format, RenderMode::Ndjson);
    assert!(config.stats);
    assert!(!config.explain);

    let config = parse(&["--explain=RETURN 3"], true, false).expect("args should parse");
    assert!(config.explain);
    assert_eq!(config.mode, Mode::Execute("RETURN 3".to_string()));
}

#[test]
fn stdin_is_read_only_when_no_query_is_given() {
    let config = parse_args_from_inner(args(&["graph.db"]), false, false, false, || {
        Ok("RETURN 1;".to_string())
    })
    .expect("args should parse");
    assert_eq!(config.mode, Mode::Stdin("RETURN 1;".to_string()));
    assert_eq!(config.db_path, Some("graph.db".to_string()));

    let config = parse_args_from_inner(args(&[]), true, false, false, || {
        Err("should not be read".to_string())
    })
    .expect("args should parse");
    assert_eq!(config.mode, Mode::Interactive);

    let err = parse_args_from_inner(args(&[]), false, false, false, || Err("broken pipe".to_string()))
        .unwrap_err();
    assert_eq!(err, "Failed to read stdin: broken pipe\nTry 'velr --help'.");
}

#[test]
fn equals_forms_read_like_separate_values() {
    assert_eq!(
        parse(&["--execute=RETURN 2", "x.db", "--stats"], true, false),
        parse(&["-e", "RETURN 2", "x.db", "--stats"], true, false)
    );
    assert_eq!(
        parse(&["--format=csv", "--explain", "RETURN 1"], true, true),
        parse(&["-f", "csv", "--explain", "RETURN 1"], true, true)
    );
    assert_eq!(
        parse(&["--format=bogus"], true, true),
        parse(&["-f", "bogus"], true, true)
    );
}

fn stdin_must_not_be_read() -> Result<String, String> {
    panic!("stdin must not be read here")
}

#[test]
fn help_version_execute_and_terminals_never_read_stdin() {
    for flag in ["-h", "--help"] {
        let config = parse_args_from_inner(args(&[flag, "x"]), false, false, false, stdin_must_not_be_read)
            .expect("help parses");
        assert_eq!(config.action, Action::Help);
    }
    let config = parse_args_from_inner(args(&["--version"]), false, true, true, stdin_must_not_be_read)
        .expect("version parses");
    assert_eq!(config.action, Action::Version);

    let config = parse_args_from_inner(args(&["-e", "RETURN 1"]), false, false, false, stdin_must_not_be_read)
        .expect("execute parses");
    assert_eq!(config.mode, Mode::Execute("RETURN 1".to_string()));

    let config = parse_args_from_inner(args(&["graph.db"]), true, false, false, stdin_must_not_be_read)
        .expect("terminal parses");
    assert_eq!(config.mode, Mode::Interactive);

    let err = parse_args_from_inner(args(&["--explain", "-e", "q"]), false, false, false, stdin_must_not_be_read)
        .unwrap_err();
    assert!(err.contains("Cannot combine --explain with -e/--execute"));
}
