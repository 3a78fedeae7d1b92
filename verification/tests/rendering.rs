use velr_cli::escape::{csv_escape, escape_tsv, hex, integer_text, json_quote};
use velr_cli::table::{
    display_from_cellref, json_from_cellref, print_table, print_table_styled, CellValue,
    RenderMode, ResultTable,
};

fn text(s: &str) -> CellValue {
    CellValue::Text(s.as_bytes().to_vec())
}

fn special_table() -> ResultTable {
    ResultTable {
        column_names: vec![
            "comma_text".to_string(),
            "quoted_text".to_string(),
            "tabbed_text".to_string(),
            "multiline_text".to_string(),
            "carriage_text".to_string(),
            "literal_escape".to_string(),
        ],
        rows: vec![vec![
            text("a,b"),
            text("he said \"hi\""),
            text("left\tright"),
            text("line1\nline2"),
            text("left\rright"),
            text("slash\\ttext"),
        ]],
    }
}

#[test]
fn csv_fields_are_quoted_only_when_needed() {
    assert_eq!(csv_escape("plain"), "plain");
    assert_eq!(csv_escape("a,b"), "\"a,b\"");
    assert_eq!(csv_escape("he said \"hi\""), "\"he said \"\"hi\"\"\"");
    assert_eq!(csv_escape("line1\nline2"), "\"line1\nline2\"");
    assert_eq!(csv_escape("left\rright"), "\"left\rright\"");
    assert_eq!(csv_escape(""), "");
}

#[test]
fn tsv_fields_escape_separators_and_backslashes() {
    assert_eq!(escape_tsv("left\tright"), "left\\tright");
    assert_eq!(escape_tsv("line1\nline2\r"), "line1\\nline2\\r");
    assert_eq!(escape_tsv("slash\\t"), "slash\\\\t");
    assert_eq!(escape_tsv("plain"), "plain");
}

#[test]
fn json_strings_escape_quotes_and_control_characters() {
    assert_eq!(json_quote("he said \"hi\""), "\"he said \\\"hi\\\"\"");
    assert_eq!(json_quote("a\\b"), "\"a\\\\b\"");
    assert_eq!(json_quote("\n\r\t\u{8}\u{c}"), "\"\\n\\r\\t\\b\\f\"");
    assert_eq!(json_quote("\u{1}\u{1f}"), "\"\\u0001\\u001F\"");
    assert_eq!(json_quote("é"), "\"é\"");
}

#[test]
fn hex_and_integers_are_rendered_exactly() {
    assert_eq!(hex(&[0x00, 0xab, 0x0f, 0xff]), "00ab0fff");
    assert_eq!(hex(&[]), "");
    assert_eq!(integer_text(0), "0");
    assert_eq!(integer_text(42), "42");
    assert_eq!(integer_text(-7), "-7");
    assert_eq!(integer_text(i64::MAX), "9223372036854775807");
    assert_eq!(integer_text(i64::MIN), "-9223372036854775808");
}

#[test]
fn cells_render_like_the_driver_values() {
    assert_eq!(display_from_cellref(&CellValue::Null), "NULL");
    assert_eq!(json_from_cellref(&CellValue::Null), "null");
    assert_eq!(display_from_cellref(&CellValue::Bool(true)), "true");
    assert_eq!(json_from_cellref(&CellValue::Bool(false)), "false");
    assert_eq!(display_from_cellref(&CellValue::Integer(-12)), "-12");
    assert_eq!(display_from_cellref(&CellValue::Float(Some("1.5".to_string()))), "1.5");
    assert_eq!(display_from_cellref(&CellValue::Float(None)), "NULL");
    assert_eq!(json_from_cellref(&CellValue::Float(None)), "null");
    assert_eq!(display_from_cellref(&text("Ada")), "Ada");
    assert_eq!(json_from_cellref(&text("Ada")), "\"Ada\"");
    assert_eq!(display_from_cellref(&CellValue::Text(vec![0xff, 0x00])), "0xff00");
    assert_eq!(json_from_cellref(&CellValue::Text(vec![0xff, 0x00])), "\"0xff00\"");
    assert_eq!(
        display_from_cellref(&CellValue::Json(b"[1,2]".to_vec())),
        "[1,2]"
    );
    assert_eq!(json_from_cellref(&CellValue::Json(b"{\"a\":1}".to_vec())), "{\"a\":1}");
    assert_eq!(display_from_cellref(&CellValue::Json(vec![b'a', 0xff])), "a\u{fffd}");
}

#[test]
fn ndjson_output_is_one_object_per_row() {
    let table = ResultTable {
        column_names: vec!["n".to_string(), "name".to_string()],
        rows: vec![
            vec![CellValue::Integer(1), text("Ada")],
            vec![CellValue::Integer(2), CellValue::Null],
        ],
    };
    assert_eq!(
        print_table_styled(&table, &RenderMode::Ndjson),
        "{\"n\":1,\"name\":\"Ada\"}\n{\"n\":2,\"name\":null}\n"
    );
}

#[test]
fn ndjson_output_escapes_special_characters() {
    assert_eq!(
        print_table_styled(&special_table(), &RenderMode::Ndjson),
        "{\"comma_text\":\"a,b\",\"quoted_text\":\"he said \\\"hi\\\"\",\"tabbed_text\":\"left\\tright\",\"multiline_text\":\"line1\\nline2\",\"carriage_text\":\"left\\rright\",\"literal_escape\":\"slash\\\\ttext\"}\n"
    );
}

#[test]
fn csv_output_quotes_special_characters() {
    assert_eq!(
        print_table_styled(&special_table(), &RenderMode::Csv),
        "comma_text,quoted_text,tabbed_text,multiline_text,carriage_text,literal_escape\n\"a,b\",\"he said \"\"hi\"\"\",left\tright,\"line1\nline2\",\"left\rright\",slash\\ttext\n"
    );
}

#[test]
fn tsv_output_escapes_special_characters() {
    assert_eq!(
        print_table_styled(&special_table(), &RenderMode::Tsv),
        "comma_text\tquoted_text\ttabbed_text\tmultiline_text\tcarriage_text\tliteral_escape\na,b\the said \"hi\"\tleft\\tright\tline1\\nline2\tleft\\rright\tslash\\\\ttext\n"
    );
}

#[test]
fn tsv_and_csv_of_an_empty_result_hold_the_header_only() {
    let table = ResultTable { column_names: vec!["n".to_string()], rows: vec![] };
    assert_eq!(print_table_styled(&table, &RenderMode::Tsv), "n\n");
    assert_eq!(print_table_styled(&table, &RenderMode::Csv), "n\n");
    assert_eq!(print_table_styled(&table, &RenderMode::Ndjson), "");
}

#[test]
fn plain_and_styled_tables_show_header_and_values() {
    let table = ResultTable {
        column_names: vec!["n".to_string(), "name".to_string()],
        rows: vec![vec![CellValue::Integer(1), text("Ada")]],
    };
    let plain = print_table(&table);
    assert_eq!(plain, print_table_styled(&table, &RenderMode::Plain));
    assert!(plain.contains("name"));
    assert!(plain.contains("Ada"));
    assert!(plain.contains('-'));
    assert!(!plain.contains('│'));

    let styled = print_table_styled(&table, &RenderMode::Styled);
    assert!(styled.starts_with('╭'));
    assert!(styled.contains("│ n │ name │"));
    assert!(styled.contains("│ 1 │ Ada  │"));
}
