use velr_cli::repl::{repl_step, ReplEvent, ReplStep};
use velr_cli::listing::{list_repl_path, DirEntryName, PathListing};
use velr_cli::repl::{
    classify_repl_input, history_path, join_explain_traces, join_table_outputs, parse_repl_command,
    printed_output, CliError, HistoryPath, Platform, ReplCommand, ReplInput,
};

fn entry(name: &str, is_dir: bool) -> DirEntryName {
    DirEntryName { name: name.to_string(), is_dir }
}

#[test]
fn list_repl_path_sorts_entries_and_marks_directories() {
    let listing = list_repl_path(PathListing::Directory(vec![
        entry("zeta.txt", false),
        entry("alpha.txt", false),
        entry("nested", true),
    ]));

    assert_eq!(listing, "alpha.txt\nnested/\nzeta.txt\n");
}

#[test]
fn listing_ignores_case_and_then_breaks_ties_by_text() {
    let listing = list_repl_path(PathListing::Directory(vec![
        entry("b", false),
        entry("B", false),
        entry("a", true),
        entry("C", false),
    ]));
    assert_eq!(listing, "a/\nB\nb\nC\n");
    assert_eq!(list_repl_path(PathListing::Directory(vec![])), "");
    assert_eq!(list_repl_path(PathListing::File("demo.cypher".to_string())), "demo.cypher\n");
}

#[test]
fn repl_commands_are_recognised_by_prefix() {
    assert_eq!(parse_repl_command(":help").unwrap(), ReplCommand::Help);
    assert_eq!(parse_repl_command(":h").unwrap(), ReplCommand::Help);
    assert_eq!(parse_repl_command(":q").unwrap(), ReplCommand::Exit);
    assert_eq!(parse_repl_command(":pwd").unwrap(), ReplCommand::Pwd);
    assert_eq!(parse_repl_command(":cd data").unwrap(), ReplCommand::Cd(" data".to_string()));
    assert_eq!(parse_repl_command(":ls").unwrap(), ReplCommand::Ls(None));
    assert_eq!(
        parse_repl_command(":ls  data ").unwrap(),
        ReplCommand::Ls(Some("data".to_string()))
    );
    assert_eq!(
        parse_repl_command(":source demo.cypher").unwrap(),
        ReplCommand::Source("demo.cypher".to_string())
    );
    assert_eq!(
        parse_repl_command(":source   ").unwrap_err(),
        CliError::IOError("missing file path. Usage: :source <file>".to_string())
    );
    assert_eq!(
        parse_repl_command(":frobnicate").unwrap(),
        ReplCommand::Unknown(":frobnicate".to_string())
    );
}

#[test]
fn errors_print_with_their_kind() {
    assert_eq!(CliError::IOError("gone".to_string()).message(), "I/O error: gone");
    assert_eq!(CliError::Internal("bad".to_string()).message(), "Internal error: bad");
}

#[test]
fn submitted_lines_are_classified_after_trimming() {
    assert_eq!(classify_repl_input("  \n"), ReplInput::Blank);
    assert_eq!(classify_repl_input(" :pwd \n"), ReplInput::Command(":pwd".to_string()));
    assert_eq!(
        classify_repl_input("RETURN 1;\n"),
        ReplInput::Query("RETURN 1;".to_string())
    );
}

#[test]
fn history_file_follows_the_platform_conventions() {
    let s = |v: &str| Some(v.to_string());
    let comps = |v: &[&str]| v.iter().map(|c| c.to_string()).collect::<Vec<_>>();
    assert_eq!(
        history_path(Platform::Unix, s("/h.txt"), None, s("/state"), s("/home/u")),
        Some(HistoryPath { base: "/h.txt".to_string(), components: vec![] })
    );
    assert_eq!(
        history_path(Platform::Unix, None, None, s("/state"), s("/home/u")),
        Some(HistoryPath { base: "/state".to_string(), components: comps(&["velr", "history.txt"]) })
    );
    assert_eq!(
        history_path(Platform::Unix, None, None, None, s("/home/u")),
        Some(HistoryPath {
            base: "/home/u".to_string(),
            components: comps(&[".local", "state", "velr", "history.txt"])
        })
    );
    assert_eq!(
        history_path(Platform::MacOs, None, None, None, s("/Users/u")),
        Some(HistoryPath {
            base: "/Users/u".to_string(),
            components: comps(&["Library", "Application Support", "velr", "history.txt"])
        })
    );
    assert_eq!(
        history_path(Platform::Windows, None, s("C:\\AppData"), None, s("C:\\Users\\u")),
        Some(HistoryPath { base: "C:\\AppData".to_string(), components: comps(&["velr", "history.txt"]) })
    );
    assert_eq!(history_path(Platform::Windows, None, None, None, s("C:\\Users\\u")), None);
    assert_eq!(history_path::<String>(Platform::Other, None, None, None, None), None);
}

#[test]
fn query_output_is_assembled_line_by_line() {
    let parts = vec!["a\tb\n1\t2\n".to_string(), "x".to_string(), "y\n".to_string()];
    assert_eq!(join_table_outputs(&parts), "a\tb\n1\t2\nx\ny\n");
    assert_eq!(join_table_outputs(&vec![]), "");

    let traces = vec!["trace one".to_string(), "trace two\n".to_string(), "three".to_string()];
    assert_eq!(join_explain_traces(&traces), "trace one\n\ntrace two\n\nthree");

    assert_eq!(printed_output(String::new()), "");
    assert_eq!(printed_output("x".to_string()), "x\n");
    assert_eq!(printed_output("x\n".to_string()), "x\n");
}

#[test]
fn driver_errors_become_internal_errors() {
    assert_eq!(
        velr_cli::repl::to_err("database is locked"),
        CliError::Internal("database is locked".to_string())
    );
}

#[test]
fn line_editor_reports_become_repl_steps() {
    assert_eq!(repl_step(ReplEvent::Submitted("   ".to_string())), ReplStep::Skip);
    assert_eq!(
        repl_step(ReplEvent::Submitted(" :q \n".to_string())),
        ReplStep::Command(":q".to_string())
    );
    assert_eq!(
        repl_step(ReplEvent::Submitted("RETURN 1;\n".to_string())),
        ReplStep::Query("RETURN 1;".to_string())
    );
    assert_eq!(repl_step(ReplEvent::Interrupted), ReplStep::Stop);
    assert_eq!(repl_step(ReplEvent::EndOfInput), ReplStep::Stop);
    assert_eq!(repl_step(ReplEvent::Other), ReplStep::Skip);
    assert_eq!(
        repl_step(ReplEvent::Failed("tty gone".to_string())),
        ReplStep::StopWithError("Interactive shell error: tty gone".to_string())
    );
}
