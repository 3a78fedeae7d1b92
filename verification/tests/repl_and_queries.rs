use velr_cli::args::HELP;
use velr_cli::lexer::{normalize_query_for_execution, repl_buffer_is_complete, split_query_statements};
use velr_cli::repl::{
    expand_repl_path, is_repl_exit_command, resolve_repl_cd_path, ReplPath, REPL_HELP,
};

#[test]
fn repl_buffer_is_incomplete_without_trailing_semicolon() {
    assert!(!repl_buffer_is_complete("RETURN 1 AS n"));
    assert!(!repl_buffer_is_complete(
        "MATCH (p:Person)\nRETURN p.name AS name"
    ));
}

#[test]
fn repl_buffer_is_complete_when_last_token_is_semicolon() {
    assert!(repl_buffer_is_complete("RETURN 1 AS n;"));
    assert!(repl_buffer_is_complete(
        "MATCH (p:Person)\nRETURN p.name AS name;"
    ));
}

#[test]
fn repl_buffer_treats_repl_commands_as_complete() {
    assert!(repl_buffer_is_complete(":help"));
    assert!(repl_buffer_is_complete(":pwd"));
    assert!(repl_buffer_is_complete(":ls"));
    assert!(repl_buffer_is_complete(":source demo.cypher"));
    assert!(repl_buffer_is_complete(":quit"));
}

#[test]
fn repl_buffer_ignores_semicolons_inside_literals_until_query_terminator() {
    assert!(!repl_buffer_is_complete("RETURN ';' AS semi"));
    assert!(repl_buffer_is_complete("RETURN ';' AS semi;"));
    assert!(!repl_buffer_is_complete("RETURN \"text;\" AS semi"));
    assert!(repl_buffer_is_complete("RETURN `semi;colon`;"));
    assert!(!repl_buffer_is_complete("RETURN 1 // ;"));
    assert!(repl_buffer_is_complete("RETURN 1; // trailing comment"));
    assert!(!repl_buffer_is_complete("RETURN 1 /* ; */"));
    assert!(repl_buffer_is_complete("RETURN 1; /* trailing comment */"));
}

#[test]
fn repl_help_mentions_semicolon_termination() {
    assert!(HELP.contains("REPL submits when input ends with ';'"));
    assert!(HELP.contains(":pwd                   Print current working directory"));
    assert!(HELP
        .contains(":cd [dir]              Change current working directory (default: home)"));
    assert!(HELP.contains(":ls [path]             List files in current directory or path"));
    assert!(HELP.contains(":quit, :exit, :q       Exit the REPL"));
    assert!(REPL_HELP.contains(":pwd            Print current working directory"));
    assert!(
        REPL_HELP.contains(":cd [dir]       Change current working directory (default: home)")
    );
    assert!(REPL_HELP.contains(":ls [path]      List files in current directory or path"));
    assert!(REPL_HELP.contains("; + Enter       Execute the buffered query"));
    assert!(REPL_HELP.contains("Paste           Multiline paste stays in the buffer"));
    assert!(REPL_HELP.contains(":quit, :exit, :q Exit the REPL"));
    assert!(REPL_HELP.contains("Ctrl+C          Exit the REPL"));
}

#[test]
fn repl_exit_commands_are_recognized() {
    assert!(is_repl_exit_command(":quit"));
    assert!(is_repl_exit_command(":exit"));
    assert!(is_repl_exit_command(":q"));
    assert!(!is_repl_exit_command(":help"));
}

#[test]
fn normalize_query_strips_one_trailing_semicolon_token() {
    assert_eq!(
        normalize_query_for_execution("EXPLAIN RETURN 1 AS n;"),
        "EXPLAIN RETURN 1 AS n"
    );
    assert_eq!(
        normalize_query_for_execution("MATCH (p)\nRETURN p.name AS name;\n"),
        "MATCH (p)\nRETURN p.name AS name"
    );
}

#[test]
fn normalize_query_preserves_inner_semicolons_and_queries_without_terminator() {
    assert_eq!(
        normalize_query_for_execution("RETURN ';' AS semi;"),
        "RETURN ';' AS semi"
    );
    assert_eq!(
        normalize_query_for_execution("RETURN 1 AS n"),
        "RETURN 1 AS n"
    );
    assert_eq!(
        normalize_query_for_execution("RETURN 1 AS n; // trailing comment"),
        "RETURN 1 AS n"
    );
    assert_eq!(
        normalize_query_for_execution("RETURN 1 AS n /* comment */;"),
        "RETURN 1 AS n /* comment */"
    );
}

#[test]
fn expand_repl_path_supports_tilde_paths() {
    let home = "/home/tester".to_string();

    assert_eq!(
        expand_repl_path("~", Some(home.clone())),
        ReplPath::Home(home.clone())
    );
    assert_eq!(
        expand_repl_path("~/demo.cypher", Some(home.clone())),
        ReplPath::UnderHome(home, "demo.cypher".to_string())
    );
}

#[test]
fn resolve_repl_cd_path_defaults_to_home() {
    let home = "/home/tester".to_string();

    assert_eq!(
        resolve_repl_cd_path("", Some(home.clone())).expect("home dir should resolve"),
        ReplPath::Home(home.clone())
    );
    assert_eq!(
        resolve_repl_cd_path("   ", Some(home.clone())).expect("home dir should resolve"),
        ReplPath::Home(home)
    );
}

#[test]
fn resolve_repl_cd_path_expands_non_empty_input() {
    let path = resolve_repl_cd_path("demo", Some("/home/tester".to_string()))
        .expect("path should resolve");
    assert_eq!(path, ReplPath::Literal("demo".to_string()));
}

#[test]
fn split_query_statements_ignores_semicolons_inside_literals_and_comments() {
    assert_eq!(
        split_query_statements(
            "RETURN ';' AS semi; // comment ;\nRETURN `semi;colon` AS name; /* ; */"
        ),
        vec![
            "RETURN ';' AS semi",
            "// comment ;\nRETURN `semi;colon` AS name",
        ]
    );

    assert!(split_query_statements("// only comment ;").is_empty());
    assert!(split_query_statements("/* only comment ; */").is_empty());
}
