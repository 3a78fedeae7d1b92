//! Rendering of a query's result table in the five output formats.

use tabled::builder::Builder;
use tabled::settings::style::HorizontalLine;
use tabled::settings::{Alignment, Padding, Style};
use vstd::prelude::*;
use vstd::string::StringExecFns;
use vstd::utf8::{decode_utf8, valid_utf8};

use crate::escape::{
    csv_escape, csv_escaped, escape_tsv, hex, hex_text, int_decimal, integer_text, json_quote,
    json_quoted, tsv_escaped,
};
use crate::text::push_char;

verus! {

broadcast use vstd::string::group_string_axioms;

/// The output format of a result table.
#[derive(Debug, Clone, Copy, PartialEq, Eq)]
pub enum RenderMode {
    /// A table with rounded Unicode borders.
    Styled,
    /// A header, a rule under it and the rows, without borders.
    Plain,
    /// Tab-separated values.
    Tsv,
    /// One JSON object per row.
    Ndjson,
    /// Comma-separated values.
    Csv,
}

/// One value of a result row.
#[derive(Debug, PartialEq)]
pub enum CellValue {
    Null,
    Bool(bool),
    Integer(i64),
    /// A floating-point value as Rust prints it, or `None` when it is not
    /// finite.
    Float(Option<String>),
    /// Text as the database stored it; normally UTF-8.
    Text(Vec<u8>),
    /// A JSON document (a list or a map), as UTF-8.
    Json(Vec<u8>),
}

/// A result table: its column names and its rows, each with one value per
/// column.
#[derive(Debug, PartialEq)]
pub struct ResultTable {
    pub column_names: Vec<String>,
    pub rows: Vec<Vec<CellValue>>,
}

impl ResultTable {
    /// The column names as character sequences.
    pub open spec fn columns(&self) -> Seq<Seq<char>> {
        self.column_names@.map_values(|s: String| s@)
    }

    /// The rows as sequences of values.
    pub open spec fn row_values(&self) -> Seq<Seq<CellValue>> {
        self.rows@.map_values(|r: Vec<CellValue>| r@)
    }

    /// Every row has one value per column.
    pub open spec fn wf(&self) -> bool {
        forall|r: int| 0 <= r < self.rows@.len() ==> #[trigger] self.rows@[r]@.len()
            == self.column_names@.len()
    }
}

/// `bytes` read as UTF-8 with each invalid sequence replaced by U+FFFD,
/// as `String::from_utf8_lossy` reads it.
pub uninterp spec fn utf8_lossy(bytes: Seq<u8>) -> Seq<char>;

/// What the plain layout of `tabled` prints for these records (the first
/// one is the header): no borders, a `-` rule under the header, two spaces
/// of right padding and left alignment.
pub uninterp spec fn plain_table_text(records: Seq<Seq<Seq<char>>>) -> Seq<char>;

/// What the rounded layout of `tabled` prints for these records.
pub uninterp spec fn styled_table_text(records: Seq<Seq<Seq<char>>>) -> Seq<char>;

/// The rows of cell texts a `tabled` builder holds, in order.
pub uninterp spec fn builder_records(b: Builder) -> Seq<Seq<Seq<char>>>;

#[verifier::external_type_specification]
#[verifier::external_body]
pub struct ExBuilder(Builder);

/// `std::str::from_utf8`: the text when `bytes` is valid UTF-8.
#[verifier::external_body]
fn utf8_str(bytes: &[u8]) -> (r: Option<&str>)
    ensures
        r is Some <==> valid_utf8(bytes@),
        r matches Some(s) ==> s@ == decode_utf8(bytes@),
{
    std::str::from_utf8(bytes).ok()
}

/// `String::from_utf8_lossy`: the text of `bytes`, with invalid sequences
/// replaced; valid UTF-8 comes out as it decodes.
#[verifier::external_body]
fn utf8_lossy_string(bytes: &[u8]) -> (r: String)
    ensures
        r@ == utf8_lossy(bytes@),
        valid_utf8(bytes@) ==> r@ == decode_utf8(bytes@),
{
    String::from_utf8_lossy(bytes).into_owned()
}

/// `tabled::builder::Builder::default`: a builder with no records.
#[verifier::external_body]
fn new_builder() -> (b: Builder)
    ensures
        builder_records(b) == Seq::<Seq<Seq<char>>>::empty(),
{
    Builder::default()
}

/// `tabled::builder::Builder::push_record`: appends one record.  A record
/// shorter or longer than the rows already held would be padded, or would
/// widen the earlier rows, with empty cells; only records as wide as the
/// rows already held are accepted here, and those are stored as given.
#[verifier::external_body]
fn push_record(b: &mut Builder, record: Vec<String>)
    requires
        builder_records(*old(b)).len() == 0 || builder_records(*old(b)).last().len()
            == record@.len(),
    ensures
        builder_records(*final(b)) == builder_records(*old(b)).push(
            record@.map_values(|s: String| s@),
        ),
{
    b.push_record(record);
}

/// Builds the table and prints it in the plain layout
/// (`Builder::build`, then `Table::with` the layout settings, then
/// `Display`).
#[verifier::external_body]
fn plain_layout(b: Builder) -> (s: String)
    ensures
        s@ == plain_table_text(builder_records(b)),
{
    let mut table = b.build();
    let style = Style::empty().horizontals([(1, HorizontalLine::new('-'))]);
    format!("{}", table.with(style).with(Padding::new(0, 2, 0, 0)).with(Alignment::left()))
}

/// Builds the table and prints it with rounded borders (`Builder::build`,
/// then `Table::with(Style::rounded())`, then `Display`).
#[verifier::external_body]
fn styled_layout(b: Builder) -> (s: String)
    ensures
        s@ == styled_table_text(builder_records(b)),
{
    let mut table = b.build();
    format!("{}", table.with(Style::rounded()))
}

/// How a value reads in the text formats (TSV, CSV and the tables).
pub open spec fn display_text(c: CellValue) -> Seq<char> {
    match c {
        CellValue::Null => "NULL"@,
        CellValue::Bool(b) => if b {
            "true"@
        } else {
            "false"@
        },
        CellValue::Integer(i) => int_decimal(i as int),
        CellValue::Float(f) => match f {
            Some(t) => t@,
            None => "NULL"@,
        },
        CellValue::Text(b) => if valid_utf8(b@) {
            decode_utf8(b@)
        } else {
            "0x"@ + hex_text(b@)
        },
        CellValue::Json(b) => utf8_lossy(b@),
    }
}

/// How a value reads in NDJSON.
pub open spec fn json_text(c: CellValue) -> Seq<char> {
    match c {
        CellValue::Null => "null"@,
        CellValue::Bool(b) => if b {
            "true"@
        } else {
            "false"@
        },
        CellValue::Integer(i) => int_decimal(i as int),
        CellValue::Float(f) => match f {
            Some(t) => t@,
            None => "null"@,
        },
        CellValue::Text(b) => if valid_utf8(b@) {
            json_quoted(decode_utf8(b@))
        } else {
            json_quoted("0x"@ + hex_text(b@))
        },
        CellValue::Json(b) => utf8_lossy(b@),
    }
}

/// The parts joined with `sep` between them.
pub open spec fn joined(parts: Seq<Seq<char>>, sep: char) -> Seq<char>
    decreases parts.len(),
{
    if parts.len() == 0 {
        Seq::empty()
    } else if parts.len() == 1 {
        parts[0]
    } else {
        joined(parts.drop_last(), sep) + seq![sep] + parts.last()
    }
}

/// One TSV line holding these fields.
pub open spec fn tsv_line(fields: Seq<Seq<char>>) -> Seq<char> {
    joined(fields.map_values(|f: Seq<char>| tsv_escaped(f)), '\t') + seq!['\n']
}

/// One CSV line holding these fields.
pub open spec fn csv_line(fields: Seq<Seq<char>>) -> Seq<char> {
    joined(fields.map_values(|f: Seq<char>| csv_escaped(f)), ',') + seq!['\n']
}

/// The values of a row as text.
pub open spec fn row_texts(row: Seq<CellValue>) -> Seq<Seq<char>> {
    row.map_values(|c: CellValue| display_text(c))
}

/// The TSV lines of these rows.
pub open spec fn tsv_rows(rows: Seq<Seq<CellValue>>) -> Seq<char>
    decreases rows.len(),
{
    if rows.len() == 0 {
        Seq::empty()
    } else {
        tsv_rows(rows.drop_last()) + tsv_line(row_texts(rows.last()))
    }
}

/// The CSV lines of these rows.
pub open spec fn csv_rows(rows: Seq<Seq<CellValue>>) -> Seq<char>
    decreases rows.len(),
{
    if rows.len() == 0 {
        Seq::empty()
    } else {
        csv_rows(rows.drop_last()) + csv_line(row_texts(rows.last()))
    }
}

/// The NDJSON line of one row: an object with a member per column.
pub open spec fn ndjson_line(columns: Seq<Seq<char>>, row: Seq<CellValue>) -> Seq<char> {
    seq!['{'] + joined(
        Seq::new(
            columns.len(),
            |i: int| json_quoted(columns[i]) + seq![':'] + json_text(row[i]),
        ),
        ',',
    ) + seq!['}', '\n']
}

/// The NDJSON lines of these rows.
pub open spec fn ndjson_rows(columns: Seq<Seq<char>>, rows: Seq<Seq<CellValue>>) -> Seq<char>
    decreases rows.len(),
{
    if rows.len() == 0 {
        Seq::empty()
    } else {
        ndjson_rows(columns, rows.drop_last()) + ndjson_line(columns, rows.last())
    }
}

/// The records handed to `tabled`: the header, then each row as text.
pub open spec fn table_records(columns: Seq<Seq<char>>, rows: Seq<Seq<CellValue>>) -> Seq<
    Seq<Seq<char>>,
> {
    seq![columns] + rows.map_values(|r: Seq<CellValue>| row_texts(r))
}

/// The text of a table in the given format.
pub open spec fn rendered(table: ResultTable, mode: RenderMode) -> Seq<char> {
    let columns = table.columns();
    let rows = table.row_values();
    match mode {
        RenderMode::Ndjson => ndjson_rows(columns, rows),
        RenderMode::Tsv => tsv_line(columns) + tsv_rows(rows),
        RenderMode::Plain => plain_table_text(table_records(columns, rows)),
        RenderMode::Styled => styled_table_text(table_records(columns, rows)),
        RenderMode::Csv => csv_line(columns) + csv_rows(rows),
    }
}

/// Appends `s` to `out`.
fn push_text(out: &mut String, s: &str)
    ensures
        final(out)@ == old(out)@ + s@,
{
    out.append(s);
}

/// The parts joined with `sep` between them.
fn join_with(parts: &Vec<String>, sep: char) -> (r: String)
    ensures
        r@ == joined(parts@.map_values(|s: String| s@), sep),
{
    let ghost views = parts@.map_values(|s: String| s@);
    let mut out = String::new();
    let mut i: usize = 0;
    while i < parts.len()
        invariant
            i <= parts@.len(),
            views == parts@.map_values(|s: String| s@),
            out@ == joined(views.take(i as int), sep),
        decreases parts@.len() - i,
    {
        if i > 0 {
            push_char(&mut out, sep);
        }
        push_text(&mut out, parts[i].as_str());
        proof {
            assert(views.take(i + 1).drop_last() == views.take(i as int));
            if i == 0 {
                assert(views.take(1)[0] == views[0]);
            }
        }
        i += 1;
    }
    assert(views.take(parts@.len() as int) == views);
    out
}

/// How a value reads in the text formats.
pub fn display_from_cellref(v: &CellValue) -> (s: String)
    ensures
        s@ == display_text(*v),
{
    match v {
        CellValue::Null => String::from_str("NULL"),
        CellValue::Bool(b) => if *b {
            String::from_str("true")
        } else {
            String::from_str("false")
        },
        CellValue::Integer(i) => integer_text(*i),
        CellValue::Float(f) => match f {
            Some(t) => t.clone(),
            None => String::from_str("NULL"),
        },
        CellValue::Text(b) => match utf8_str(b.as_slice()) {
            Some(s) => String::from_str(s),
            None => {
                let mut out = String::from_str("0x");
                let h = hex(b.as_slice());
                push_text(&mut out, h.as_str());
                out
            },
        },
        CellValue::Json(js) => utf8_lossy_string(js.as_slice()),
    }
}

/// How a value reads in NDJSON.
pub fn json_from_cellref(v: &CellValue) -> (s: String)
    ensures
        s@ == json_text(*v),
{
    match v {
        CellValue::Null => String::from_str("null"),
        CellValue::Bool(b) => if *b {
            String::from_str("true")
        } else {
            String::from_str("false")
        },
        CellValue::Integer(i) => integer_text(*i),
        CellValue::Float(f) => match f {
            Some(t) => t.clone(),
            None => String::from_str("null"),
        },
        CellValue::Text(b) => match utf8_str(b.as_slice()) {
            Some(s) => json_quote(s),
            None => {
                let mut out = String::from_str("0x");
                let h = hex(b.as_slice());
                push_text(&mut out, h.as_str());
                json_quote(out.as_str())
            },
        },
        CellValue::Json(js) => utf8_lossy_string(js.as_slice()),
    }
}

/// The text of every value of `row`.
fn row_display(row: &Vec<CellValue>) -> (r: Vec<String>)
    ensures
        r@.map_values(|s: String| s@) == row_texts(row@),
{
    let mut out: Vec<String> = Vec::new();
    let mut i: usize = 0;
    while i < row.len()
        invariant
            i <= row@.len(),
            out@.len() == i,
            forall|j: int| 0 <= j < i ==> #[trigger] out@[j]@ == display_text(row@[j]),
        decreases row@.len() - i,
    {
        out.push(display_from_cellref(&row[i]));
        i += 1;
    }
    assert(out@.map_values(|s: String| s@) =~= row_texts(row@));
    out
}

/// Every field escaped for CSV (`csv`) or for TSV (`!csv`).
fn escape_fields(fields: &Vec<String>, csv: bool) -> (r: Vec<String>)
    ensures
        r@.len() == fields@.len(),
        forall|j: int|
            0 <= j < fields@.len() ==> #[trigger] r@[j]@ == if csv {
                csv_escaped(fields@[j]@)
            } else {
                tsv_escaped(fields@[j]@)
            },
{
    let mut out: Vec<String> = Vec::new();
    let mut i: usize = 0;
    while i < fields.len()
        invariant
            i <= fields@.len(),
            out@.len() == i,
            forall|j: int|
                0 <= j < i ==> #[trigger] out@[j]@ == if csv {
                    csv_escaped(fields@[j]@)
                } else {
                    tsv_escaped(fields@[j]@)
                },
        decreases fields@.len() - i,
    {
        let e = if csv {
            csv_escape(fields[i].as_str())
        } else {
            escape_tsv(fields[i].as_str())
        };
        out.push(e);
        i += 1;
    }
    out
}

/// One line of separated, escaped fields.
fn delimited_line(fields: &Vec<String>, csv: bool) -> (r: String)
    ensures
        csv ==> r@ == csv_line(fields@.map_values(|s: String| s@)),
        !csv ==> r@ == tsv_line(fields@.map_values(|s: String| s@)),
{
    let escaped = escape_fields(fields, csv);
    let sep = if csv {
        ','
    } else {
        '\t'
    };
    let mut line = join_with(&escaped, sep);
    push_char(&mut line, '\n');
    proof {
        let views = fields@.map_values(|s: String| s@);
        if csv {
            assert(escaped@.map_values(|s: String| s@) =~= views.map_values(
                |f: Seq<char>| csv_escaped(f),
            ));
        } else {
            assert(escaped@.map_values(|s: String| s@) =~= views.map_values(
                |f: Seq<char>| tsv_escaped(f),
            ));
        }
    }
    line
}

/// Appends one CSV line holding `fields`.
pub fn write_csv_row(out: &mut String, fields: &Vec<String>)
    ensures
        final(out)@ == old(out)@ + csv_line(fields@.map_values(|s: String| s@)),
{
    let line = delimited_line(fields, true);
    push_text(out, line.as_str());
}

/// Appends one TSV line holding `fields`.
fn write_tsv_row(out: &mut String, fields: &Vec<String>)
    ensures
        final(out)@ == old(out)@ + tsv_line(fields@.map_values(|s: String| s@)),
{
    let line = delimited_line(fields, false);
    push_text(out, line.as_str());
}

/// TSV: a header line, then one line per row.
fn render_tsv(table: &ResultTable) -> (s: String)
    requires
        table.wf(),
    ensures
        s@ == tsv_line(table.columns()) + tsv_rows(table.row_values()),
{
    render_delimited(table, false)
}

/// CSV: a header line, then one line per row.
fn render_csv_stream(table: &ResultTable) -> (s: String)
    requires
        table.wf(),
    ensures
        s@ == csv_line(table.columns()) + csv_rows(table.row_values()),
{
    render_delimited(table, true)
}

/// The header line and one line per row, as TSV or CSV.
fn render_delimited(table: &ResultTable, csv: bool) -> (s: String)
    ensures
        csv ==> s@ == csv_line(table.columns()) + csv_rows(table.row_values()),
        !csv ==> s@ == tsv_line(table.columns()) + tsv_rows(table.row_values()),
{
    let ghost rows = table.row_values();
    let mut out = String::new();
    if csv {
        write_csv_row(&mut out, &table.column_names);
    } else {
        write_tsv_row(&mut out, &table.column_names);
    }
    let ghost header = out@;
    assert(out@ =~= header + Seq::<char>::empty());
    let mut r: usize = 0;
    while r < table.rows.len()
        invariant
            r <= table.rows@.len(),
            rows == table.row_values(),
            csv ==> header == csv_line(table.columns()),
            !csv ==> header == tsv_line(table.columns()),
            csv ==> out@ == header + csv_rows(rows.take(r as int)),
            !csv ==> out@ == header + tsv_rows(rows.take(r as int)),
        decreases table.rows@.len() - r,
    {
        let texts = row_display(&table.rows[r]);
        let ghost prev = out@;
        if csv {
            write_csv_row(&mut out, &texts);
        } else {
            write_tsv_row(&mut out, &texts);
        }
        proof {
            assert(rows.take(r + 1).drop_last() == rows.take(r as int));
            assert(rows.take(r + 1).last() == table.rows@[r as int]@);
            assert(texts@.map_values(|s: String| s@) == row_texts(rows.take(r + 1).last()));
            let line = if csv {
                csv_line(row_texts(rows.take(r + 1).last()))
            } else {
                tsv_line(row_texts(rows.take(r + 1).last()))
            };
            assert(out@ == prev + line);
            if csv {
                assert(out@ =~= header + (csv_rows(rows.take(r as int)) + line));
            } else {
                assert(out@ =~= header + (tsv_rows(rows.take(r as int)) + line));
            }
        }
        r += 1;
    }
    assert(rows.take(table.rows@.len() as int) == rows);
    out
}

/// NDJSON: one object per row, keyed by the column names.
fn render_ndjson(table: &ResultTable) -> (s: String)
    requires
        table.wf(),
    ensures
        s@ == ndjson_rows(table.columns(), table.row_values()),
{
    let ghost columns = table.columns();
    let ghost rows = table.row_values();
    let col_count = table.column_names.len();
    let mut quoted_keys: Vec<String> = Vec::new();
    let mut k: usize = 0;
    while k < col_count
        invariant
            k <= col_count == table.column_names@.len(),
            columns == table.columns(),
            quoted_keys@.len() == k,
            forall|j: int| 0 <= j < k ==> #[trigger] quoted_keys@[j]@ == json_quoted(columns[j]),
        decreases col_count - k,
    {
        quoted_keys.push(json_quote(table.column_names[k].as_str()));
        k += 1;
    }
    let mut out = String::new();
    let mut r: usize = 0;
    while r < table.rows.len()
        invariant
            r <= table.rows@.len(),
            col_count == table.column_names@.len(),
            table.wf(),
            columns == table.columns(),
            rows == table.row_values(),
            quoted_keys@.len() == col_count,
            forall|j: int|
                0 <= j < col_count ==> #[trigger] quoted_keys@[j]@ == json_quoted(columns[j]),
            out@ == ndjson_rows(columns, rows.take(r as int)),
        decreases table.rows@.len() - r,
    {
        let cells = &table.rows[r];
        let mut members: Vec<String> = Vec::new();
        let mut i: usize = 0;
        let ghost row = cells@;
        let ghost items = Seq::new(
            columns.len(),
            |i: int| json_quoted(columns[i]) + seq![':'] + json_text(row[i]),
        );
        while i < col_count
            invariant
                i <= col_count == table.column_names@.len() == cells@.len(),
                row == cells@,
                columns == table.columns(),
                quoted_keys@.len() == col_count,
                forall|j: int|
                    0 <= j < col_count ==> #[trigger] quoted_keys@[j]@ == json_quoted(columns[j]),
                items == Seq::new(
                    columns.len(),
                    |i: int| json_quoted(columns[i]) + seq![':'] + json_text(row[i]),
                ),
                members@.len() == i,
                forall|j: int| 0 <= j < i ==> #[trigger] members@[j]@ == items[j],
            decreases col_count - i,
        {
            let mut member = quoted_keys[i].clone();
            push_char(&mut member, ':');
            let value = json_from_cellref(&cells[i]);
            push_text(&mut member, value.as_str());
            members.push(member);
            i += 1;
        }
        assert(members@.map_values(|s: String| s@) =~= items);
        let mut line = String::new();
        push_char(&mut line, '{');
        let body = join_with(&members, ',');
        push_text(&mut line, body.as_str());
        push_char(&mut line, '}');
        push_char(&mut line, '\n');
        push_text(&mut out, line.as_str());
        proof {
            assert(rows.take(r + 1).drop_last() == rows.take(r as int));
            assert(rows.take(r + 1).last() == row);
            assert(line@ =~= ndjson_line(columns, row));
        }
        r += 1;
    }
    assert(rows.take(table.rows@.len() as int) == rows);
    out
}

/// The `tabled` builder holding the header and every row as text.
fn build_table(table: &ResultTable) -> (b: Builder)
    requires
        table.wf(),
    ensures
        builder_records(b) == table_records(table.columns(), table.row_values()),
{
    let ghost rows = table.row_values();
    let mut builder = new_builder();
    push_record(&mut builder, table.column_names.clone());
    let mut r: usize = 0;
    while r < table.rows.len()
        invariant
            r <= table.rows@.len(),
            rows == table.row_values(),
            table.wf(),
            builder_records(builder) == table_records(table.columns(), rows.take(r as int)),
            builder_records(builder).last().len() == table.column_names@.len(),
        decreases table.rows@.len() - r,
    {
        let texts = row_display(&table.rows[r]);
        assert(texts@.len() == table.rows@[r as int]@.len()) by {
            assert(texts@.map_values(|s: String| s@).len() == texts@.len());
        }
        push_record(&mut builder, texts);
        assert(table_records(table.columns(), rows.take(r + 1)) =~= table_records(
            table.columns(),
            rows.take(r as int),
        ).push(row_texts(table.rows@[r as int]@)));
        r += 1;
    }
    assert(rows.take(table.rows@.len() as int) == rows);
    builder
}

/// Plain layout: header, a rule, the rows.
fn render_plain(table: &ResultTable) -> (s: String)
    requires
        table.wf(),
    ensures
        s@ == plain_table_text(table_records(table.columns(), table.row_values())),
{
    plain_layout(build_table(table))
}

/// Rounded-border layout.
fn render_styled(table: &ResultTable) -> (s: String)
    requires
        table.wf(),
    ensures
        s@ == styled_table_text(table_records(table.columns(), table.row_values())),
{
    styled_layout(build_table(table))
}

/// The table in the plain layout.
pub fn print_table(table: &ResultTable) -> (s: String)
    requires
        table.wf(),
    ensures
        s@ == rendered(*table, RenderMode::Plain),
{
    let render_mode = RenderMode::Plain;
    print_table_styled(table, &render_mode)
}

/// The table in the given format.
pub fn print_table_styled(table: &ResultTable, mode: &RenderMode) -> (s: String)
    requires
        table.wf(),
    ensures
        s@ == rendered(*table, *mode),
{
    match mode {
        RenderMode::Ndjson => render_ndjson(table),
        RenderMode::Tsv => render_tsv(table),
        RenderMode::Plain => render_plain(table),
        RenderMode::Styled => render_styled(table),
        RenderMode::Csv => render_csv_stream(table),
    }
}

/// NDJSON writes every value as the text formats show it, except that
/// text becomes a JSON string and a missing value is `null`: integers,
/// finite floats and booleans are the same unquoted text, JSON documents
/// are copied as they are, and text is the JSON string of its display.
pub proof fn law_ndjson_values_follow_display(c: CellValue)
    ensures
        match c {
            CellValue::Null => json_text(c) == "null"@,
            CellValue::Float(None) => json_text(c) == "null"@,
            CellValue::Text(_) => json_text(c) == json_quoted(display_text(c)),
            _ => json_text(c) == display_text(c),
        },
        c matches CellValue::Float(Some(t)) ==> json_text(c) == t@,
{
}

} // verus!
