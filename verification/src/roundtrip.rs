//! Reading the output formats back.
//!
//! Each output format is meant to be read by other programs.  This module
//! states, for each, how a reader takes the text apart, and proves that it
//! gets back exactly the values that were written.

use vstd::prelude::*;

use crate::escape::{
    csv_doubled, csv_escaped, csv_needs_quotes, hex_lower, hex_text, int_decimal, json_body,
    json_char, json_quoted, nat_decimal, tsv_char, tsv_escaped,
};
use crate::table::{
    csv_line, csv_rows, joined, rendered, row_texts, tsv_line, tsv_rows, RenderMode, ResultTable,
};

verus! {

// ---------------------------------------------------------------------
// Sequences built by appending one piece per element.
// ---------------------------------------------------------------------

/// Joining a first part to the rest.
pub proof fn lemma_joined_front(a: Seq<char>, rest: Seq<Seq<char>>, sep: char)
    ensures
        joined(seq![a] + rest, sep) == if rest.len() == 0 {
            a
        } else {
            a + seq![sep] + joined(rest, sep)
        },
    decreases rest.len(),
{
    let all = seq![a] + rest;
    if rest.len() == 0 {
        assert(all =~= seq![a]);
    } else if rest.len() == 1 {
        assert(all.drop_last() =~= seq![a]);
        assert(joined(seq![a], sep) == a);
        assert(joined(rest, sep) == rest[0]);
        assert(all.last() == rest[0]);
    } else {
        assert(all.drop_last() =~= seq![a] + rest.drop_last());
        assert(all.last() == rest.last());
        lemma_joined_front(a, rest.drop_last(), sep);
        assert(a + seq![sep] + joined(rest.drop_last(), sep) + seq![sep] + rest.last() =~= a
            + seq![sep] + (joined(rest.drop_last(), sep) + seq![sep] + rest.last()));
    }
}

/// Escaping for TSV works piece by piece.
pub proof fn lemma_tsv_escaped_concat(a: Seq<char>, b: Seq<char>)
    ensures
        tsv_escaped(a + b) == tsv_escaped(a) + tsv_escaped(b),
    decreases b.len(),
{
    if b.len() == 0 {
        assert(a + b =~= a);
        assert(tsv_escaped(a) + tsv_escaped(b) =~= tsv_escaped(a));
    } else {
        assert((a + b).drop_last() =~= a + b.drop_last());
        assert((a + b).last() == b.last());
        lemma_tsv_escaped_concat(a, b.drop_last());
        assert(tsv_escaped(a) + tsv_escaped(b.drop_last()) + tsv_char(b.last()) =~= tsv_escaped(a)
            + (tsv_escaped(b.drop_last()) + tsv_char(b.last())));
    }
}

/// Doubling quotes works piece by piece.
pub proof fn lemma_csv_doubled_concat(a: Seq<char>, b: Seq<char>)
    ensures
        csv_doubled(a + b) == csv_doubled(a) + csv_doubled(b),
    decreases b.len(),
{
    if b.len() == 0 {
        assert(a + b =~= a);
        assert(csv_doubled(a) + csv_doubled(b) =~= csv_doubled(a));
    } else {
        assert((a + b).drop_last() =~= a + b.drop_last());
        assert((a + b).last() == b.last());
        lemma_csv_doubled_concat(a, b.drop_last());
        let tail = if b.last() == '"' {
            seq!['"', '"']
        } else {
            seq![b.last()]
        };
        assert(csv_doubled(a) + csv_doubled(b.drop_last()) + tail =~= csv_doubled(a) + (
        csv_doubled(b.drop_last()) + tail));
    }
}

/// The JSON string body works piece by piece.
pub proof fn lemma_json_body_concat(a: Seq<char>, b: Seq<char>)
    ensures
        json_body(a + b) == json_body(a) + json_body(b),
    decreases b.len(),
{
    if b.len() == 0 {
        assert(a + b =~= a);
        assert(json_body(a) + json_body(b) =~= json_body(a));
    } else {
        assert((a + b).drop_last() =~= a + b.drop_last());
        assert((a + b).last() == b.last());
        lemma_json_body_concat(a, b.drop_last());
        assert(json_body(a) + json_body(b.drop_last()) + json_char(b.last()) =~= json_body(a) + (
        json_body(b.drop_last()) + json_char(b.last())));
    }
}

// ---------------------------------------------------------------------
// TSV.
// ---------------------------------------------------------------------

/// The character a two-character TSV escape stands for.
pub open spec fn tsv_unescape_char(c: char) -> char {
    if c == 't' {
        '\t'
    } else if c == 'n' {
        '\n'
    } else if c == 'r' {
        '\r'
    } else {
        c
    }
}

/// Reads a TSV field from the front of `t`: up to the next tab or line
/// feed, undoing the escapes.  Gives the value and what follows the field.
pub open spec fn tsv_field(t: Seq<char>) -> (Seq<char>, Seq<char>)
    decreases t.len(),
{
    if t.len() == 0 || t[0] == '\t' || t[0] == '\n' {
        (Seq::empty(), t)
    } else if t[0] == '\\' && t.len() >= 2 && t[1] != '\t' && t[1] != '\n' {
        let (v, r) = tsv_field(t.skip(2));
        (seq![tsv_unescape_char(t[1])] + v, r)
    } else {
        let (v, r) = tsv_field(t.skip(1));
        (seq![t[0]] + v, r)
    }
}

pub proof fn lemma_tsv_field_shorter(t: Seq<char>)
    ensures
        tsv_field(t).1.len() <= t.len(),
        t.len() > 0 && t[0] != '\t' && t[0] != '\n' ==> tsv_field(t).1.len() < t.len(),
    decreases t.len(),
{
    if t.len() == 0 || t[0] == '\t' || t[0] == '\n' {
    } else if t[0] == '\\' && t.len() >= 2 && t[1] != '\t' && t[1] != '\n' {
        lemma_tsv_field_shorter(t.skip(2));
    } else {
        lemma_tsv_field_shorter(t.skip(1));
    }
}

/// Reads a TSV record from the front of `t`: fields separated by tabs, up
/// to and including the line feed that ends it.
pub open spec fn tsv_record(t: Seq<char>) -> (Seq<Seq<char>>, Seq<char>)
    decreases t.len(),
{
    let (v, r) = tsv_field(t);
    if r.len() > 0 && r[0] == '\t' {
        proof {
            lemma_tsv_field_shorter(t);
        }
        let (vs, r2) = tsv_record(r.skip(1));
        (seq![v] + vs, r2)
    } else if r.len() > 0 && r[0] == '\n' {
        (seq![v], r.skip(1))
    } else {
        (seq![v], r)
    }
}

pub proof fn lemma_tsv_record_shorter(t: Seq<char>)
    ensures
        tsv_record(t).1.len() <= t.len(),
        t.len() > 0 ==> tsv_record(t).1.len() < t.len(),
    decreases t.len(),
{
    lemma_tsv_field_shorter(t);
    let (v, r) = tsv_field(t);
    if r.len() > 0 && r[0] == '\t' {
        lemma_tsv_record_shorter(r.skip(1));
    }
}

/// Reads all the TSV records of `t`.
pub open spec fn tsv_records(t: Seq<char>) -> Seq<Seq<Seq<char>>>
    decreases t.len(),
{
    if t.len() == 0 {
        Seq::empty()
    } else {
        proof {
            lemma_tsv_record_shorter(t);
        }
        let (fs, r) = tsv_record(t);
        seq![fs] + tsv_records(r)
    }
}

/// A TSV field is read back from its escape, whatever follows it, as long
/// as that starts with a separator.
proof fn lemma_tsv_field_round_trip(s: Seq<char>, rest: Seq<char>)
    requires
        rest.len() == 0 || rest[0] == '\t' || rest[0] == '\n',
    ensures
        tsv_field(tsv_escaped(s) + rest) == (s, rest),
    decreases s.len(),
{
    if s.len() == 0 {
        assert(tsv_escaped(s) + rest =~= rest);
    } else {
        let c = s[0];
        let tail = s.drop_first();
        assert(s =~= seq![c] + tail);
        lemma_tsv_escaped_concat(seq![c], tail);
        assert(seq![c].drop_last() =~= Seq::<char>::empty());
        assert(tsv_escaped(Seq::<char>::empty()) == Seq::<char>::empty());
        assert(tsv_escaped(seq![c]) == tsv_escaped(seq![c].drop_last()) + tsv_char(c));
        assert(Seq::<char>::empty() + tsv_char(c) =~= tsv_char(c));
        let t = tsv_escaped(s) + rest;
        assert(t =~= tsv_char(c) + (tsv_escaped(tail) + rest));
        lemma_tsv_field_round_trip(tail, rest);
        let k = tsv_char(c).len() as int;
        assert(t.skip(k) =~= tsv_escaped(tail) + rest);
    }
}

/// A TSV record is read back from the line that holds its fields.
proof fn lemma_tsv_record_round_trip(fields: Seq<Seq<char>>, rest: Seq<char>)
    requires
        fields.len() >= 1,
    ensures
        tsv_record(tsv_line(fields) + rest) == (fields, rest),
    decreases fields.len(),
{
    let esc = fields.map_values(|f: Seq<char>| tsv_escaped(f));
    let f0 = fields[0];
    let others = fields.drop_first();
    assert(esc =~= seq![tsv_escaped(f0)] + others.map_values(|f: Seq<char>| tsv_escaped(f)));
    lemma_joined_front(tsv_escaped(f0), others.map_values(|f: Seq<char>| tsv_escaped(f)), '\t');
    let t = tsv_line(fields) + rest;
    if others.len() == 0 {
        assert(t =~= tsv_escaped(f0) + (seq!['\n'] + rest));
        lemma_tsv_field_round_trip(f0, seq!['\n'] + rest);
        assert((seq!['\n'] + rest).skip(1) =~= rest);
        assert(fields =~= seq![f0]);
    } else {
        let after = tsv_line(others) + rest;
        assert(t =~= tsv_escaped(f0) + (seq!['\t'] + after));
        lemma_tsv_field_round_trip(f0, seq!['\t'] + after);
        assert((seq!['\t'] + after).skip(1) =~= after);
        lemma_tsv_record_round_trip(others, rest);
        assert(fields =~= seq![f0] + others);
    }
}

/// Lines written one after another, one per record.
pub open spec fn concat_lines(
    records: Seq<Seq<Seq<char>>>,
    line: spec_fn(Seq<Seq<char>>) -> Seq<char>,
) -> Seq<char>
    decreases records.len(),
{
    if records.len() == 0 {
        Seq::empty()
    } else {
        line(records[0]) + concat_lines(records.drop_first(), line)
    }
}

/// One more line at the end.
proof fn lemma_concat_lines_push(
    records: Seq<Seq<Seq<char>>>,
    x: Seq<Seq<char>>,
    line: spec_fn(Seq<Seq<char>>) -> Seq<char>,
)
    ensures
        concat_lines(records.push(x), line) == concat_lines(records, line) + line(x),
    decreases records.len(),
{
    if records.len() == 0 {
        assert(records.push(x).drop_first() =~= Seq::<Seq<Seq<char>>>::empty());
        assert(records.push(x)[0] == x);
        assert(concat_lines(records.push(x).drop_first(), line) == Seq::<char>::empty());
        assert(concat_lines(records, line) == Seq::<char>::empty());
        assert(line(x) + Seq::<char>::empty() =~= line(x));
        assert(Seq::<char>::empty() + line(x) =~= line(x));
    } else {
        assert(records.push(x).drop_first() =~= records.drop_first().push(x));
        assert(records.push(x)[0] == records[0]);
        lemma_concat_lines_push(records.drop_first(), x, line);
        assert(line(records[0]) + (concat_lines(records.drop_first(), line) + line(x))
            =~= line(records[0]) + concat_lines(records.drop_first(), line) + line(x));
    }
}

/// The text of every row.
pub open spec fn rows_texts(rows: Seq<Seq<crate::table::CellValue>>) -> Seq<Seq<Seq<char>>> {
    rows.map_values(|r: Seq<crate::table::CellValue>| row_texts(r))
}

/// The TSV rows are the TSV lines of the rows' texts.
proof fn lemma_tsv_rows_lines(rows: Seq<Seq<crate::table::CellValue>>)
    ensures
        tsv_rows(rows) == concat_lines(rows_texts(rows), |f: Seq<Seq<char>>| tsv_line(f)),
    decreases rows.len(),
{
    if rows.len() > 0 {
        lemma_tsv_rows_lines(rows.drop_last());
        assert(rows_texts(rows) =~= rows_texts(rows.drop_last()).push(row_texts(rows.last())));
        lemma_concat_lines_push(
            rows_texts(rows.drop_last()),
            row_texts(rows.last()),
            |f: Seq<Seq<char>>| tsv_line(f),
        );
    } else {
        assert(rows_texts(rows) =~= Seq::<Seq<Seq<char>>>::empty());
    }
}

/// TSV lines are read back record by record.
proof fn lemma_tsv_records_of_lines(records: Seq<Seq<Seq<char>>>)
    requires
        forall|i: int| 0 <= i < records.len() ==> (#[trigger] records[i]).len() >= 1,
    ensures
        tsv_records(concat_lines(records, |f: Seq<Seq<char>>| tsv_line(f))) == records,
    decreases records.len(),
{
    let line = |f: Seq<Seq<char>>| tsv_line(f);
    if records.len() > 0 {
        let rest = concat_lines(records.drop_first(), line);
        let t = concat_lines(records, line);
        lemma_tsv_record_round_trip(records[0], rest);
        assert(tsv_line(records[0]).len() > 0);
        lemma_tsv_records_of_lines(records.drop_first());
        assert(records =~= seq![records[0]] + records.drop_first());
    } else {
        assert(concat_lines(records, line) =~= Seq::<char>::empty());
    }
}

/// A header and rows written as TSV, read back.
proof fn lemma_tsv_document(
    columns: Seq<Seq<char>>,
    rows: Seq<Seq<crate::table::CellValue>>,
)
    requires
        columns.len() >= 1,
        forall|r: int| 0 <= r < rows.len() ==> #[trigger] rows[r].len() == columns.len(),
    ensures
        tsv_records(tsv_line(columns) + tsv_rows(rows)) == seq![columns] + rows_texts(rows),
{
    let line = |f: Seq<Seq<char>>| tsv_line(f);
    let records = seq![columns] + rows_texts(rows);
    lemma_tsv_rows_lines(rows);
    assert(records.drop_first() =~= rows_texts(rows));
    assert(concat_lines(records, line) == tsv_line(columns) + tsv_rows(rows));
    assert forall|i: int| 0 <= i < records.len() implies (#[trigger] records[i]).len() >= 1 by {
        if i > 0 {
            assert(records[i] == row_texts(rows[i - 1]));
        }
    }
    lemma_tsv_records_of_lines(records);
}

/// Reading back what `print_table_styled` writes in TSV gives the header
/// and every row, value for value (as the text formats show values), as
/// long as the table has at least one column.
pub proof fn law_tsv_round_trip(table: ResultTable)
    requires
        table.wf(),
        table.column_names@.len() >= 1,
    ensures
        tsv_records(rendered(table, RenderMode::Tsv)) == seq![table.columns()] + rows_texts(
            table.row_values(),
        ),
{
    assert forall|r: int| 0 <= r < table.row_values().len() implies #[trigger] table.row_values()[r].len()
        == table.columns().len() by {
        assert(table.row_values()[r] == table.rows@[r]@);
    }
    lemma_tsv_document(table.columns(), table.row_values());
}

// ---------------------------------------------------------------------
// CSV.
// ---------------------------------------------------------------------

/// Reads the rest of a quoted CSV field (after its opening quote): up to
/// the closing quote, a doubled quote standing for one.  Gives the value
/// and what follows the closing quote.
pub open spec fn csv_quoted(t: Seq<char>) -> (Seq<char>, Seq<char>)
    decreases t.len(),
{
    if t.len() == 0 {
        (Seq::empty(), t)
    } else if t[0] == '"' {
        if t.len() >= 2 && t[1] == '"' {
            let (v, r) = csv_quoted(t.skip(2));
            (seq!['"'] + v, r)
        } else {
            (Seq::empty(), t.skip(1))
        }
    } else {
        let (v, r) = csv_quoted(t.skip(1));
        (seq![t[0]] + v, r)
    }
}

/// Reads an unquoted CSV field: up to the next comma or line feed.
pub open spec fn csv_plain(t: Seq<char>) -> (Seq<char>, Seq<char>)
    decreases t.len(),
{
    if t.len() == 0 || t[0] == ',' || t[0] == '\n' {
        (Seq::empty(), t)
    } else {
        let (v, r) = csv_plain(t.skip(1));
        (seq![t[0]] + v, r)
    }
}

/// Reads a CSV field from the front of `t`.
pub open spec fn csv_field(t: Seq<char>) -> (Seq<char>, Seq<char>) {
    if t.len() > 0 && t[0] == '"' {
        csv_quoted(t.skip(1))
    } else {
        csv_plain(t)
    }
}

pub proof fn lemma_csv_quoted_shorter(t: Seq<char>)
    ensures
        csv_quoted(t).1.len() <= t.len(),
    decreases t.len(),
{
    if t.len() > 0 {
        if t[0] == '"' {
            if t.len() >= 2 && t[1] == '"' {
                lemma_csv_quoted_shorter(t.skip(2));
            }
        } else {
            lemma_csv_quoted_shorter(t.skip(1));
        }
    }
}

pub proof fn lemma_csv_plain_shorter(t: Seq<char>)
    ensures
        csv_plain(t).1.len() <= t.len(),
        t.len() > 0 && t[0] != ',' && t[0] != '\n' ==> csv_plain(t).1.len() < t.len(),
    decreases t.len(),
{
    if t.len() > 0 && t[0] != ',' && t[0] != '\n' {
        lemma_csv_plain_shorter(t.skip(1));
    }
}

pub proof fn lemma_csv_field_shorter(t: Seq<char>)
    ensures
        csv_field(t).1.len() <= t.len(),
        t.len() > 0 && t[0] != ',' && t[0] != '\n' ==> csv_field(t).1.len() < t.len(),
{
    if t.len() > 0 && t[0] == '"' {
        lemma_csv_quoted_shorter(t.skip(1));
    } else {
        lemma_csv_plain_shorter(t);
    }
}

/// Reads a CSV record from the front of `t`: fields separated by commas,
/// up to and including the line feed that ends it.
pub open spec fn csv_record(t: Seq<char>) -> (Seq<Seq<char>>, Seq<char>)
    decreases t.len(),
{
    let (v, r) = csv_field(t);
    if r.len() > 0 && r[0] == ',' {
        proof {
            lemma_csv_field_shorter(t);
        }
        let (vs, r2) = csv_record(r.skip(1));
        (seq![v] + vs, r2)
    } else if r.len() > 0 && r[0] == '\n' {
        (seq![v], r.skip(1))
    } else {
        (seq![v], r)
    }
}

pub proof fn lemma_csv_record_shorter(t: Seq<char>)
    ensures
        csv_record(t).1.len() <= t.len(),
        t.len() > 0 ==> csv_record(t).1.len() < t.len(),
    decreases t.len(),
{
    lemma_csv_field_shorter(t);
    let (v, r) = csv_field(t);
    if r.len() > 0 && r[0] == ',' {
        lemma_csv_record_shorter(r.skip(1));
    }
}

/// Reads all the CSV records of `t`.
pub open spec fn csv_records(t: Seq<char>) -> Seq<Seq<Seq<char>>>
    decreases t.len(),
{
    if t.len() == 0 {
        Seq::empty()
    } else {
        proof {
            lemma_csv_record_shorter(t);
        }
        let (fs, r) = csv_record(t);
        seq![fs] + csv_records(r)
    }
}

/// A field that needs no quotes is read back as it is.
proof fn lemma_csv_plain_round_trip(s: Seq<char>, rest: Seq<char>)
    requires
        !s.contains(','),
        !s.contains('\n'),
        rest.len() == 0 || rest[0] == ',' || rest[0] == '\n',
    ensures
        csv_plain(s + rest) == (s, rest),
    decreases s.len(),
{
    if s.len() == 0 {
        assert(s + rest =~= rest);
    } else {
        let tail = s.drop_first();
        assert(s[0] != ',' && s[0] != '\n') by {
            if s[0] == ',' || s[0] == '\n' {
                assert(s.contains(s[0]));
            }
        }
        assert(!tail.contains(',') && !tail.contains('\n')) by {
            if tail.contains(',') {
                let k = choose|k: int| 0 <= k < tail.len() && tail[k] == ',';
                assert(s[k + 1] == ',');
            }
            if tail.contains('\n') {
                let k = choose|k: int| 0 <= k < tail.len() && tail[k] == '\n';
                assert(s[k + 1] == '\n');
            }
        }
        lemma_csv_plain_round_trip(tail, rest);
        assert((s + rest).skip(1) =~= tail + rest);
        assert(s =~= seq![s[0]] + tail);
    }
}

/// A quoted field body is read back up to its closing quote.
proof fn lemma_csv_quoted_round_trip(s: Seq<char>, rest: Seq<char>)
    requires
        rest.len() == 0 || rest[0] != '"',
    ensures
        csv_quoted(csv_doubled(s) + seq!['"'] + rest) == (s, rest),
    decreases s.len(),
{
    let t = csv_doubled(s) + seq!['"'] + rest;
    if s.len() == 0 {
        assert(csv_doubled(s) =~= Seq::<char>::empty());
        assert(t =~= seq!['"'] + rest);
        assert(t.skip(1) =~= rest);
    } else {
        let c = s[0];
        let tail = s.drop_first();
        assert(s =~= seq![c] + tail);
        lemma_csv_doubled_concat(seq![c], tail);
        assert(seq![c].drop_last() =~= Seq::<char>::empty());
        assert(csv_doubled(Seq::<char>::empty()) == Seq::<char>::empty());
        let piece = if c == '"' {
            seq!['"', '"']
        } else {
            seq![c]
        };
        assert(csv_doubled(seq![c]) == csv_doubled(seq![c].drop_last()) + piece);
        assert(Seq::<char>::empty() + piece =~= piece);
        assert(t =~= piece + (csv_doubled(tail) + seq!['"'] + rest));
        lemma_csv_quoted_round_trip(tail, rest);
        assert(t.skip(piece.len() as int) =~= csv_doubled(tail) + seq!['"'] + rest);
    }
}

/// A CSV field is read back from its escape, as long as what follows
/// starts with a separator.
proof fn lemma_csv_field_round_trip(s: Seq<char>, rest: Seq<char>)
    requires
        rest.len() == 0 || rest[0] == ',' || rest[0] == '\n',
    ensures
        csv_field(csv_escaped(s) + rest) == (s, rest),
{
    if csv_needs_quotes(s) {
        let t = csv_escaped(s) + rest;
        assert(t =~= seq!['"'] + (csv_doubled(s) + seq!['"'] + rest));
        assert(t.skip(1) =~= csv_doubled(s) + seq!['"'] + rest);
        lemma_csv_quoted_round_trip(s, rest);
    } else {
        lemma_csv_plain_round_trip(s, rest);
        if s.len() > 0 {
            assert(s[0] != '"') by {
                if s[0] == '"' {
                    assert(s.contains('"'));
                }
            }
        }
    }
}

/// A CSV record is read back from the line that holds its fields.
proof fn lemma_csv_record_round_trip(fields: Seq<Seq<char>>, rest: Seq<char>)
    requires
        fields.len() >= 1,
    ensures
        csv_record(csv_line(fields) + rest) == (fields, rest),
    decreases fields.len(),
{
    let f0 = fields[0];
    let others = fields.drop_first();
    assert(fields.map_values(|f: Seq<char>| csv_escaped(f)) =~= seq![csv_escaped(f0)]
        + others.map_values(|f: Seq<char>| csv_escaped(f)));
    lemma_joined_front(csv_escaped(f0), others.map_values(|f: Seq<char>| csv_escaped(f)), ',');
    let t = csv_line(fields) + rest;
    if others.len() == 0 {
        assert(t =~= csv_escaped(f0) + (seq!['\n'] + rest));
        lemma_csv_field_round_trip(f0, seq!['\n'] + rest);
        assert((seq!['\n'] + rest).skip(1) =~= rest);
        assert(fields =~= seq![f0]);
    } else {
        let after = csv_line(others) + rest;
        assert(t =~= csv_escaped(f0) + (seq![','] + after));
        lemma_csv_field_round_trip(f0, seq![','] + after);
        assert((seq![','] + after).skip(1) =~= after);
        lemma_csv_record_round_trip(others, rest);
        assert(fields =~= seq![f0] + others);
    }
}

/// The CSV rows are the CSV lines of the rows' texts.
proof fn lemma_csv_rows_lines(rows: Seq<Seq<crate::table::CellValue>>)
    ensures
        csv_rows(rows) == concat_lines(rows_texts(rows), |f: Seq<Seq<char>>| csv_line(f)),
    decreases rows.len(),
{
    if rows.len() > 0 {
        lemma_csv_rows_lines(rows.drop_last());
        assert(rows_texts(rows) =~= rows_texts(rows.drop_last()).push(row_texts(rows.last())));
        lemma_concat_lines_push(
            rows_texts(rows.drop_last()),
            row_texts(rows.last()),
            |f: Seq<Seq<char>>| csv_line(f),
        );
    } else {
        assert(rows_texts(rows) =~= Seq::<Seq<Seq<char>>>::empty());
    }
}

/// CSV lines are read back record by record.
proof fn lemma_csv_records_of_lines(records: Seq<Seq<Seq<char>>>)
    requires
        forall|i: int| 0 <= i < records.len() ==> (#[trigger] records[i]).len() >= 1,
    ensures
        csv_records(concat_lines(records, |f: Seq<Seq<char>>| csv_line(f))) == records,
    decreases records.len(),
{
    let line = |f: Seq<Seq<char>>| csv_line(f);
    if records.len() > 0 {
        let rest = concat_lines(records.drop_first(), line);
        lemma_csv_record_round_trip(records[0], rest);
        assert(csv_line(records[0]).len() > 0);
        lemma_csv_records_of_lines(records.drop_first());
        assert(records =~= seq![records[0]] + records.drop_first());
    } else {
        assert(concat_lines(records, line) =~= Seq::<char>::empty());
    }
}

/// A header and rows written as CSV, read back.
proof fn lemma_csv_document(
    columns: Seq<Seq<char>>,
    rows: Seq<Seq<crate::table::CellValue>>,
)
    requires
        columns.len() >= 1,
        forall|r: int| 0 <= r < rows.len() ==> #[trigger] rows[r].len() == columns.len(),
    ensures
        csv_records(csv_line(columns) + csv_rows(rows)) == seq![columns] + rows_texts(rows),
{
    let line = |f: Seq<Seq<char>>| csv_line(f);
    let records = seq![columns] + rows_texts(rows);
    lemma_csv_rows_lines(rows);
    assert(records.drop_first() =~= rows_texts(rows));
    assert(concat_lines(records, line) == csv_line(columns) + csv_rows(rows));
    assert forall|i: int| 0 <= i < records.len() implies (#[trigger] records[i]).len() >= 1 by {
        if i > 0 {
            assert(records[i] == row_texts(rows[i - 1]));
        }
    }
    lemma_csv_records_of_lines(records);
}

/// Reading back what `print_table_styled` writes in CSV gives the header
/// and every row, value for value (as the text formats show values), as
/// long as the table has at least one column.
/// Quoted fields may hold commas, quotes and line breaks.
pub proof fn law_csv_round_trip(table: ResultTable)
    requires
        table.wf(),
        table.column_names@.len() >= 1,
    ensures
        csv_records(rendered(table, RenderMode::Csv)) == seq![table.columns()] + rows_texts(
            table.row_values(),
        ),
{
    assert forall|r: int| 0 <= r < table.row_values().len() implies #[trigger] table.row_values()[r].len()
        == table.columns().len() by {
        assert(table.row_values()[r] == table.rows@[r]@);
    }
    lemma_csv_document(table.columns(), table.row_values());
}

// ---------------------------------------------------------------------
// JSON strings (the NDJSON keys and text values).
// ---------------------------------------------------------------------

/// The value of a hexadecimal digit.
pub open spec fn hex_value(c: char) -> int {
    let u = c as u32;
    if 48 <= u <= 57 {
        u - 48
    } else if 65 <= u <= 70 {
        u - 55
    } else if 97 <= u <= 102 {
        u - 87
    } else {
        0
    }
}

/// The character a backslash escape (other than `\u`) stands for.
pub open spec fn json_unescape_char(c: char) -> char {
    if c == 'n' {
        '\n'
    } else if c == 'r' {
        '\r'
    } else if c == 't' {
        '\t'
    } else if c == 'b' {
        8u32 as char
    } else if c == 'f' {
        12u32 as char
    } else {
        c
    }
}

/// Reads the rest of a JSON string (after its opening quote): up to the
/// closing quote, undoing escapes.  Gives the value and what follows.
pub open spec fn json_string_body(t: Seq<char>) -> (Seq<char>, Seq<char>)
    decreases t.len(),
{
    if t.len() == 0 {
        (Seq::empty(), t)
    } else if t[0] == '"' {
        (Seq::empty(), t.skip(1))
    } else if t[0] == '\\' && t.len() >= 2 {
        if t[1] == 'u' && t.len() >= 6 {
            let v = 4096 * hex_value(t[2]) + 256 * hex_value(t[3]) + 16 * hex_value(t[4])
                + hex_value(t[5]);
            let (w, r) = json_string_body(t.skip(6));
            (seq![v as char] + w, r)
        } else {
            let (w, r) = json_string_body(t.skip(2));
            (seq![json_unescape_char(t[1])] + w, r)
        }
    } else {
        let (w, r) = json_string_body(t.skip(1));
        (seq![t[0]] + w, r)
    }
}

/// Reads a JSON string literal from the front of `t`.
pub open spec fn json_string(t: Seq<char>) -> (Seq<char>, Seq<char>) {
    if t.len() > 0 && t[0] == '"' {
        json_string_body(t.skip(1))
    } else {
        (Seq::empty(), t)
    }
}

proof fn lemma_hex_upper_value(d: int)
    requires
        0 <= d < 16,
    ensures
        hex_value(crate::escape::hex_upper(d)) == d,
{
}

/// One escaped character is read back as that character.
proof fn lemma_json_char_round_trip(c: char, more: Seq<char>)
    ensures
        json_string_body(json_char(c) + more) == (
            seq![c] + json_string_body(more).0,
            json_string_body(more).1,
        ),
{
    let u = c as u32;
    let t = json_char(c) + more;
    vstd::utf8::char_u32_cast(c, u);
    if c == '"' || c == '\\' || c == '\n' || c == '\r' || c == '\t' || u == 0x08 || u == 0x0c {
        assert(t.skip(2) =~= more);
    } else if u < 0x20 {
        lemma_hex_upper_value((u / 4096 % 16) as int);
        lemma_hex_upper_value((u / 256 % 16) as int);
        lemma_hex_upper_value((u / 16 % 16) as int);
        lemma_hex_upper_value((u % 16) as int);
        assert(t.skip(6) =~= more);
        assert(4096 * (u / 4096 % 16) + 256 * (u / 256 % 16) + 16 * (u / 16 % 16) + (u % 16)
            == u);
    } else {
        assert(t.skip(1) =~= more);
    }
}

/// A JSON string body is read back up to its closing quote.
proof fn lemma_json_body_round_trip(s: Seq<char>, rest: Seq<char>)
    ensures
        json_string_body(json_body(s) + seq!['"'] + rest) == (s, rest),
    decreases s.len(),
{
    if s.len() == 0 {
        assert(json_body(s) =~= Seq::<char>::empty());
        assert(json_body(s) + seq!['"'] + rest =~= seq!['"'] + rest);
        assert((seq!['"'] + rest).skip(1) =~= rest);
    } else {
        let c = s[0];
        let tail = s.drop_first();
        assert(s =~= seq![c] + tail);
        lemma_json_body_concat(seq![c], tail);
        assert(seq![c].drop_last() =~= Seq::<char>::empty());
        assert(json_body(Seq::<char>::empty()) == Seq::<char>::empty());
        assert(json_body(seq![c]) == json_body(seq![c].drop_last()) + json_char(c));
        assert(Seq::<char>::empty() + json_char(c) =~= json_char(c));
        let more = json_body(tail) + seq!['"'] + rest;
        assert(json_body(s) + seq!['"'] + rest =~= json_char(c) + more);
        lemma_json_char_round_trip(c, more);
        lemma_json_body_round_trip(tail, rest);
    }
}

/// Reading the JSON string written for `s` gives back `s`, and leaves
/// what follows the string untouched.
pub proof fn law_json_string_round_trip(s: Seq<char>, rest: Seq<char>)
    ensures
        json_string(json_quoted(s) + rest) == (s, rest),
{
    let t = json_quoted(s) + rest;
    assert(t =~= seq!['"'] + (json_body(s) + seq!['"'] + rest));
    assert(t.skip(1) =~= json_body(s) + seq!['"'] + rest);
    lemma_json_body_round_trip(s, rest);
}

// ---------------------------------------------------------------------
// Numbers and bytes.
// ---------------------------------------------------------------------

/// The number a string of decimal digits stands for.
pub open spec fn decimal_value(s: Seq<char>) -> int
    decreases s.len(),
{
    if s.len() == 0 {
        0
    } else {
        10 * decimal_value(s.drop_last()) + (s.last() as u32 - 48)
    }
}

/// `s` is a non-empty string of decimal digits without a leading zero
/// (a single `0` aside).
pub open spec fn canonical_digits(s: Seq<char>) -> bool {
    &&& s.len() > 0
    &&& forall|i: int| 0 <= i < s.len() ==> 48 <= (#[trigger] s[i]) as u32 <= 57
    &&& (s.len() > 1 ==> s[0] != '0')
}

proof fn lemma_nat_decimal(n: nat)
    ensures
        decimal_value(nat_decimal(n)) == n,
        canonical_digits(nat_decimal(n)),
        n > 0 ==> nat_decimal(n)[0] != '0',
    decreases n,
{
    let d = nat_decimal(n);
    if n >= 10 {
        lemma_nat_decimal(n / 10);
        assert(d.drop_last() == nat_decimal(n / 10));
        assert(d[0] == nat_decimal(n / 10)[0]);
        assert(d.last() as u32 == 48 + n % 10);
        assert(10 * (n / 10) + n % 10 == n);
    } else {
        assert(d.drop_last() =~= Seq::<char>::empty());
        assert(decimal_value(d.drop_last()) == 0);
        assert(d.last() as u32 == 48 + n);
    }
}

/// The integer text reads back as the integer: an optional `-`, then
/// decimal digits without leading zeros.
pub proof fn law_integer_text_round_trip(i: int)
    ensures
        i >= 0 ==> canonical_digits(int_decimal(i)) && decimal_value(int_decimal(i)) == i,
        i < 0 ==> int_decimal(i)[0] == '-' && canonical_digits(int_decimal(i).drop_first())
            && decimal_value(int_decimal(i).drop_first()) == -i,
{
    if i >= 0 {
        lemma_nat_decimal(i as nat);
    } else {
        lemma_nat_decimal((-i) as nat);
        assert(int_decimal(i).drop_first() =~= nat_decimal((-i) as nat));
    }
}

/// The bytes that pairs of hexadecimal digits stand for.
pub open spec fn hex_bytes(s: Seq<char>) -> Seq<int>
    decreases s.len(),
{
    if s.len() < 2 {
        Seq::empty()
    } else {
        hex_bytes(s.subrange(0, s.len() - 2)).push(
            16 * hex_value(s[s.len() - 2]) + hex_value(s[s.len() - 1]),
        )
    }
}

/// The hexadecimal text of bytes reads back as those bytes, two digits
/// each.
pub proof fn law_hex_round_trip(bytes: Seq<u8>)
    ensures
        hex_text(bytes).len() == 2 * bytes.len(),
        hex_bytes(hex_text(bytes)) == bytes.map_values(|b: u8| b as int),
    decreases bytes.len(),
{
    if bytes.len() > 0 {
        law_hex_round_trip(bytes.drop_last());
        let t = hex_text(bytes);
        let b = bytes.last();
        assert(t.subrange(0, t.len() - 2) =~= hex_text(bytes.drop_last()));
        assert(hex_value(hex_lower((b / 16) as int)) == b / 16);
        assert(hex_value(hex_lower((b % 16) as int)) == b % 16);
        assert(bytes.map_values(|b: u8| b as int) =~= bytes.drop_last().map_values(
            |b: u8| b as int,
        ).push(b as int));
    } else {
        assert(bytes.map_values(|b: u8| b as int) =~= Seq::<int>::empty());
    }
}

} // verus!
