use velr_cli::lexer::{
    next_token_end, push_statement, skip_block_comment, skip_escaped_identifier,
    skip_line_comment, skip_quoted_string, statement_has_code, trailing_statement_terminator,
};
use velr_cli::table::write_csv_row;

fn chars(s: &str) -> Vec<char> {
    s.chars().collect()
}

#[test]
fn tokens_that_hide_semicolons_are_skipped_whole() {
    let q = chars("// a;\nx");
    assert_eq!(skip_line_comment(&q, 0), 5);
    let q = chars("/* ; */;");
    assert_eq!(skip_block_comment(&q, 0), 7);
    let q = chars("/* open");
    assert_eq!(skip_block_comment(&q, 0), 7);
    let q = chars("'a\\';b';");
    assert_eq!(skip_quoted_string(&q, 0, '\''), 7);
    let q = chars("`a``;b`;");
    assert_eq!(skip_escaped_identifier(&q, 0), 7);
    let q = chars("é;");
    assert_eq!(next_token_end(&q, 0), 1);
}

#[test]
fn terminator_is_the_last_code_token() {
    assert_eq!(trailing_statement_terminator(&chars("RETURN 1; ")), Some(8));
    assert_eq!(trailing_statement_terminator(&chars("RETURN 1;; /* x */")), Some(9));
    assert_eq!(trailing_statement_terminator(&chars("RETURN 1; x")), None);
    assert_eq!(trailing_statement_terminator(&chars("RETURN 'é;")), None);
    assert_eq!(trailing_statement_terminator(&chars("")), None);
}

#[test]
fn statements_need_code() {
    assert!(!statement_has_code("  // only a comment\n /* and this */ "));
    assert!(statement_has_code(" /* c */ RETURN 1"));
    assert!(statement_has_code(";"));

    let mut statements = Vec::new();
    push_statement(&mut statements, "  \n");
    push_statement(&mut statements, "  RETURN 1 \n");
    assert_eq!(statements, vec!["RETURN 1".to_string()]);
}

#[test]
fn csv_rows_are_written_with_a_line_feed() {
    let mut out = String::from("x\n");
    write_csv_row(&mut out, &vec!["a".to_string(), "b,c".to_string(), String::new()]);
    assert_eq!(out, "x\na,\"b,c\",\n");
}
