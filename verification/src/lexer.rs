//! Scanning openCypher text for statement boundaries.
//!
//! The scanner knows four kinds of token that can hide a `;`: line comments
//! (`// ...` up to a line break), block comments (`/* ... */`), quoted
//! strings (`'...'` or `"..."`, with backslash escapes) and escaped
//! identifiers (`` `...` ``, with a doubled backtick standing for one).
//! Every other character is a token of its own.  Positions are indices into
//! the text's characters.

use vstd::prelude::*;

use crate::text::{
    chars_of, is_whitespace, is_ws, lemma_trim_idempotent, string_of_range, trim, trim_bounds,
    trim_end, trim_end_bound,
};

verus! {

broadcast use vstd::string::group_string_axioms;

/// `q` holds the two characters `a`, `b` at `i`.
pub open spec fn pair_at(q: Seq<char>, i: int, a: char, b: char) -> bool {
    0 <= i && i + 1 < q.len() && q[i] == a && q[i + 1] == b
}

/// A comment (`//` or `/*`) starts at `i`.
pub open spec fn comment_at(q: Seq<char>, i: int) -> bool {
    pair_at(q, i, '/', '/') || pair_at(q, i, '/', '*')
}

/// The token at `i` carries no code: whitespace or a comment.
pub open spec fn blank_at(q: Seq<char>, i: int) -> bool {
    is_ws(q[i]) || comment_at(q, i)
}

/// The first line break at or after `j`, or the end of `q`.
pub open spec fn line_break_from(q: Seq<char>, j: int) -> int
    decreases q.len() - j,
{
    if j >= q.len() {
        q.len() as int
    } else if q[j] == '\n' || q[j] == '\r' {
        j
    } else {
        line_break_from(q, j + 1)
    }
}

/// Just past the first `*/` that begins at or after `j`, or the end of `q`.
pub open spec fn block_close_from(q: Seq<char>, j: int) -> int
    decreases q.len() - j,
{
    if j + 1 >= q.len() {
        q.len() as int
    } else if q[j] == '*' && q[j + 1] == '/' {
        j + 2
    } else {
        block_close_from(q, j + 1)
    }
}

/// Just past the closing `quote` of a string whose body starts at `j`
/// (a backslash takes the next character with it), or the end of `q`.
pub open spec fn quote_close_from(q: Seq<char>, j: int, quote: char) -> int
    decreases q.len() - j,
{
    if j >= q.len() {
        q.len() as int
    } else if q[j] == '\\' {
        if j + 1 < q.len() {
            quote_close_from(q, j + 2, quote)
        } else {
            j + 1
        }
    } else if q[j] == quote {
        j + 1
    } else {
        quote_close_from(q, j + 1, quote)
    }
}

/// Just past the closing backtick of an escaped identifier whose body
/// starts at `j` (a doubled backtick does not close it), or the end of `q`.
pub open spec fn ident_close_from(q: Seq<char>, j: int) -> int
    decreases q.len() - j,
{
    if j >= q.len() {
        q.len() as int
    } else if pair_at(q, j, '`', '`') {
        ident_close_from(q, j + 2)
    } else if q[j] == '`' {
        j + 1
    } else {
        ident_close_from(q, j + 1)
    }
}

/// Where the token that starts at `i` ends.
pub open spec fn token_end(q: Seq<char>, i: int) -> int {
    if pair_at(q, i, '/', '/') {
        line_break_from(q, i + 2)
    } else if pair_at(q, i, '/', '*') {
        block_close_from(q, i + 2)
    } else if q[i] == '\'' || q[i] == '"' {
        quote_close_from(q, i + 1, q[i])
    } else if q[i] == '`' {
        ident_close_from(q, i + 1)
    } else {
        i + 1
    }
}

proof fn lemma_line_break_bounds(q: Seq<char>, j: int)
    requires
        0 <= j <= q.len(),
    ensures
        j <= line_break_from(q, j) <= q.len(),
    decreases q.len() - j,
{
    if j < q.len() && !(q[j] == '\n' || q[j] == '\r') {
        lemma_line_break_bounds(q, j + 1);
    }
}

proof fn lemma_block_close_bounds(q: Seq<char>, j: int)
    requires
        0 <= j <= q.len(),
    ensures
        j <= block_close_from(q, j) <= q.len(),
    decreases q.len() - j,
{
    if j + 1 < q.len() && !(q[j] == '*' && q[j + 1] == '/') {
        lemma_block_close_bounds(q, j + 1);
    }
}

proof fn lemma_quote_close_bounds(q: Seq<char>, j: int, quote: char)
    requires
        0 <= j <= q.len(),
    ensures
        j <= quote_close_from(q, j, quote) <= q.len(),
    decreases q.len() - j,
{
    if j < q.len() {
        if q[j] == '\\' {
            if j + 1 < q.len() {
                lemma_quote_close_bounds(q, j + 2, quote);
            }
        } else if q[j] != quote {
            lemma_quote_close_bounds(q, j + 1, quote);
        }
    }
}

proof fn lemma_ident_close_bounds(q: Seq<char>, j: int)
    requires
        0 <= j <= q.len(),
    ensures
        j <= ident_close_from(q, j) <= q.len(),
    decreases q.len() - j,
{
    if j < q.len() {
        if pair_at(q, j, '`', '`') {
            lemma_ident_close_bounds(q, j + 2);
        } else if q[j] != '`' {
            lemma_ident_close_bounds(q, j + 1);
        }
    }
}

/// Every token is at least one character long and ends inside `q`.
pub proof fn lemma_token_end_bounds(q: Seq<char>, i: int)
    requires
        0 <= i < q.len(),
    ensures
        i < token_end(q, i) <= q.len(),
{
    if pair_at(q, i, '/', '/') {
        lemma_line_break_bounds(q, i + 2);
    } else if pair_at(q, i, '/', '*') {
        lemma_block_close_bounds(q, i + 2);
    } else if q[i] == '\'' || q[i] == '"' {
        lemma_quote_close_bounds(q, i + 1, q[i]);
    } else if q[i] == '`' {
        lemma_ident_close_bounds(q, i + 1);
    }
}

/// Scans from `i`: the position of the `;` that is the last token carrying
/// code, given that `acc` is that position for the text before `i`.
pub open spec fn scan_terminator(q: Seq<char>, i: int, acc: Option<int>) -> Option<int>
    decreases q.len() - i,
{
    if i < 0 || i >= q.len() {
        acc
    } else {
        proof {
            lemma_token_end_bounds(q, i);
        }
        if blank_at(q, i) {
            scan_terminator(q, token_end(q, i), acc)
        } else if q[i] == ';' {
            scan_terminator(q, i + 1, Some(i))
        } else {
            scan_terminator(q, token_end(q, i), None)
        }
    }
}

/// The position of the `;` that ends `q`, when the last token of `q` that
/// carries code is a `;`.
pub open spec fn trailing_terminator(q: Seq<char>) -> Option<int> {
    scan_terminator(q, 0, None)
}

/// Some token from `i` on carries code.
pub open spec fn has_code_from(q: Seq<char>, i: int) -> bool
    decreases q.len() - i,
{
    if i < 0 || i >= q.len() {
        false
    } else {
        proof {
            lemma_token_end_bounds(q, i);
        }
        if blank_at(q, i) {
            has_code_from(q, token_end(q, i))
        } else {
            true
        }
    }
}

/// `q` holds something besides whitespace and comments.
pub open spec fn has_code(q: Seq<char>) -> bool {
    has_code_from(q, 0)
}

/// Scans from `i` for statements: `acc` holds the statements found so far
/// and `start` is where the current one began.
pub open spec fn split_scan(q: Seq<char>, i: int, start: int, acc: Seq<Seq<char>>) -> Seq<
    Seq<char>,
>
    decreases q.len() - i,
{
    if i < 0 || i >= q.len() {
        keep_statement(acc, q.subrange(start, q.len() as int))
    } else {
        proof {
            lemma_token_end_bounds(q, i);
        }
        if q[i] == ';' {
            split_scan(q, i + 1, i + 1, keep_statement(acc, q.subrange(start, i)))
        } else {
            split_scan(q, token_end(q, i), start, acc)
        }
    }
}

/// `acc` with the trimmed `piece` appended, when the piece carries code.
pub open spec fn keep_statement(acc: Seq<Seq<char>>, piece: Seq<char>) -> Seq<Seq<char>> {
    if has_code(trim(piece)) {
        acc.push(trim(piece))
    } else {
        acc
    }
}

/// The statements of a script: the pieces between top-level `;`s, trimmed,
/// leaving out those that hold only whitespace and comments.
pub open spec fn script_statements(q: Seq<char>) -> Seq<Seq<char>> {
    split_scan(q, 0, 0, Seq::empty())
}

/// The query as it is handed to the driver: trimmed, and without the `;`
/// that ends it together with the whitespace before that `;`.
pub open spec fn normalized(q: Seq<char>) -> Seq<char> {
    let t = trim(q);
    if t.len() == 0 {
        t
    } else {
        match trailing_terminator(t) {
            Some(k) => trim_end(t.subrange(0, k)),
            None => t,
        }
    }
}

/// Whether the REPL should submit `buffer`: it is blank, a `:` command, or
/// ends with a `;` token.
pub open spec fn buffer_complete(buffer: Seq<char>) -> bool {
    let t = trim(buffer);
    t.len() == 0 || t[0] == ':' || trailing_terminator(buffer) is Some
}

/// The end of the line comment that starts at `start`.
pub fn skip_line_comment(query: &Vec<char>, start: usize) -> (r: usize)
    requires
        start + 2 <= query@.len(),
    ensures
        r == line_break_from(query@, start + 2),
{
    let n = query.len();
    let mut index = start + 2;
    while index < n
        invariant
            n == query@.len(),
            start + 2 <= index <= n,
            line_break_from(query@, start + 2) == line_break_from(query@, index as int),
        decreases n - index,
    {
        let ch = query[index];
        if ch == '\n' || ch == '\r' {
            return index;
        }
        index += 1;
    }
    index
}

/// The end of the block comment that starts at `start`.
pub fn skip_block_comment(query: &Vec<char>, start: usize) -> (r: usize)
    requires
        start + 2 <= query@.len(),
    ensures
        r == block_close_from(query@, start + 2),
{
    let n = query.len();
    let mut index = start + 2;
    while index < n && index + 1 < n
        invariant
            n == query@.len(),
            start + 2 <= index <= n,
            block_close_from(query@, start + 2) == block_close_from(query@, index as int),
        decreases n - index,
    {
        if query[index] == '*' && query[index + 1] == '/' {
            return index + 2;
        }
        index += 1;
    }
    n
}

/// The end of the quoted string that starts at `start`.
pub fn skip_quoted_string(query: &Vec<char>, start: usize, quote: char) -> (r: usize)
    requires
        start < query@.len(),
    ensures
        r == quote_close_from(query@, start + 1, quote),
{
    let n = query.len();
    let mut index = start + 1;
    while index < n
        invariant
            n == query@.len(),
            start + 1 <= index <= n,
            quote_close_from(query@, start + 1, quote) == quote_close_from(
                query@,
                index as int,
                quote,
            ),
        decreases n - index,
    {
        let ch = query[index];
        if ch == '\\' {
            if index + 1 < n {
                index += 2;
            } else {
                return index + 1;
            }
        } else if ch == quote {
            return index + 1;
        } else {
            index += 1;
        }
    }
    index
}

/// The end of the escaped identifier that starts at `start`.
pub fn skip_escaped_identifier(query: &Vec<char>, start: usize) -> (r: usize)
    requires
        start < query@.len(),
    ensures
        r == ident_close_from(query@, start + 1),
{
    let n = query.len();
    let mut index = start + 1;
    while index < n
        invariant
            n == query@.len(),
            start + 1 <= index <= n,
            ident_close_from(query@, start + 1) == ident_close_from(query@, index as int),
        decreases n - index,
    {
        if index + 1 < n && query[index] == '`' && query[index + 1] == '`' {
            index += 2;
        } else if query[index] == '`' {
            return index + 1;
        } else {
            index += 1;
        }
    }
    index
}

/// Whether a comment starts at `index`.
fn comment_starts(query: &Vec<char>, index: usize) -> (r: (bool, bool))
    requires
        index < query@.len(),
    ensures
        r.0 == pair_at(query@, index as int, '/', '/'),
        r.1 == pair_at(query@, index as int, '/', '*'),
{
    let n = query.len();
    if index + 1 < n && query[index] == '/' {
        (query[index + 1] == '/', query[index + 1] == '*')
    } else {
        (false, false)
    }
}

/// The end of the token that starts at `index`.
pub fn next_token_end(query: &Vec<char>, index: usize) -> (r: usize)
    requires
        index < query@.len(),
    ensures
        r == token_end(query@, index as int),
        index < r <= query@.len(),
{
    proof {
        lemma_token_end_bounds(query@, index as int);
    }
    let n = query.len();
    let (line, block) = comment_starts(query, index);
    if line {
        skip_line_comment(query, index)
    } else if block {
        skip_block_comment(query, index)
    } else {
        let ch = query[index];
        if ch == '\'' || ch == '"' {
            skip_quoted_string(query, index, ch)
        } else if ch == '`' {
            skip_escaped_identifier(query, index)
        } else {
            index + 1
        }
    }
}

/// The scan keeps, for the position it reports, that it holds a `;` and
/// that only whitespace and comments follow it.
proof fn lemma_scan_terminator(q: Seq<char>, i: int, acc: Option<int>)
    requires
        0 <= i <= q.len(),
        acc matches Some(a) ==> 0 <= a < q.len() && q[a] == ';' && has_code_from(q, a + 1)
            == has_code_from(q, i),
    ensures
        scan_terminator(q, i, acc) matches Some(k) ==> 0 <= k < q.len() && q[k] == ';'
            && !has_code_from(q, k + 1),
    decreases q.len() - i,
{
    if i < q.len() {
        lemma_token_end_bounds(q, i);
        if blank_at(q, i) {
            lemma_scan_terminator(q, token_end(q, i), acc);
        } else if q[i] == ';' {
            lemma_scan_terminator(q, i + 1, Some(i));
        } else {
            lemma_scan_terminator(q, token_end(q, i), None);
        }
    }
}

/// The position of the `;` that ends `query`, if the last token of
/// `query` that carries code is a `;`.
pub fn trailing_statement_terminator(query: &Vec<char>) -> (r: Option<usize>)
    ensures
        r matches Some(k) ==> trailing_terminator(query@) == Some(k as int),
        r is None ==> trailing_terminator(query@) is None,
        r matches Some(k) ==> k < query@.len() && query@[k as int] == ';' && !has_code_from(
            query@,
            k + 1,
        ),
{
    let mut index: usize = 0;
    let mut trailing_semicolon: Option<usize> = None;
    proof {
        lemma_scan_terminator(query@, 0, None);
    }
    while index < query.len()
        invariant
            index <= query@.len(),
            trailing_terminator(query@) == scan_terminator(
                query@,
                index as int,
                match trailing_semicolon {
                    Some(k) => Some(k as int),
                    None => None,
                },
            ),
        decreases query@.len() - index,
    {
        let ch = query[index];
        let (line, block) = comment_starts(query, index);
        if is_whitespace(ch) || line || block {
            index = next_token_end(query, index);
        } else if ch == ';' {
            trailing_semicolon = Some(index);
            index += 1;
        } else {
            trailing_semicolon = None;
            index = next_token_end(query, index);
        }
    }
    trailing_semicolon
}

/// Whether `statement` holds something besides whitespace and comments.
pub fn statement_has_code(statement: &str) -> (r: bool)
    ensures
        r == has_code(statement@),
{
    let q = chars_of(statement);
    let mut index: usize = 0;
    while index < q.len()
        invariant
            index <= q@.len(),
            q@ == statement@,
            has_code(q@) == has_code_from(q@, index as int),
        decreases q@.len() - index,
    {
        let ch = q[index];
        let (line, block) = comment_starts(&q, index);
        if is_whitespace(ch) || line || block {
            index = next_token_end(&q, index);
        } else {
            return true;
        }
    }
    false
}

/// Appends the trimmed `statement` to `statements` when it carries code.
pub fn push_statement(statements: &mut Vec<String>, statement: &str)
    ensures
        final(statements)@.map_values(|s: String| s@) == keep_statement(
            old(statements)@.map_values(|s: String| s@),
            statement@,
        ),
{
    let v = chars_of(statement);
    let (a, b) = trim_bounds(&v, 0, v.len());
    assert(v@.subrange(0, v@.len() as int) == v@);
    let trimmed = string_of_range(&v, a, b);
    if statement_has_code(trimmed.as_str()) {
        statements.push(trimmed);
        assert(final(statements)@.map_values(|s: String| s@) =~= old(statements)@.map_values(
            |s: String| s@,
        ).push(trim(statement@)));
    }
}

/// The statements of a script, split at the `;`s that are not inside a
/// comment, a string or an escaped identifier.
pub fn split_query_statements(query: &str) -> (r: Vec<String>)
    ensures
        r@.map_values(|s: String| s@) == script_statements(query@),
{
    let q = chars_of(query);
    let mut statements: Vec<String> = Vec::new();
    let mut start: usize = 0;
    let mut index: usize = 0;
    assert(statements@.map_values(|s: String| s@) =~= Seq::<Seq<char>>::empty());
    while index < q.len()
        invariant
            start <= index <= q@.len(),
            q@ == query@,
            script_statements(q@) == split_scan(
                q@,
                index as int,
                start as int,
                statements@.map_values(|s: String| s@),
            ),
        decreases q@.len() - index,
    {
        if q[index] == ';' {
            let piece = string_of_range(&q, start, index);
            push_statement(&mut statements, piece.as_str());
            index += 1;
            start = index;
        } else {
            index = next_token_end(&q, index);
        }
    }
    let piece = string_of_range(&q, start, q.len());
    push_statement(&mut statements, piece.as_str());
    statements
}

/// The query with surrounding whitespace and its terminating `;` removed.
pub fn normalize_query_for_execution(query: &str) -> (r: String)
    ensures
        r@ == normalized(query@),
{
    let v = chars_of(query);
    let (a, b) = trim_bounds(&v, 0, v.len());
    assert(v@.subrange(0, v@.len() as int) == v@);
    let t = string_of_range(&v, a, b);
    if a == b {
        return t;
    }
    let tv = chars_of(t.as_str());
    match trailing_statement_terminator(&tv) {
        Some(index) => {
            let d = trim_end_bound(&tv, index);
            string_of_range(&tv, 0, d)
        },
        None => t,
    }
}

/// Whether the REPL should submit `buffer` as it stands.
pub fn repl_buffer_is_complete(buffer: &str) -> (r: bool)
    ensures
        r == buffer_complete(buffer@),
{
    let v = chars_of(buffer);
    let (a, b) = trim_bounds(&v, 0, v.len());
    assert(v@.subrange(0, v@.len() as int) == v@);
    if a == b {
        return true;
    }
    if v[a] == ':' {
        return true;
    }
    trailing_statement_terminator(&v).is_some()
}

proof fn lemma_split_scan_keeps_code(q: Seq<char>, i: int, start: int, acc: Seq<Seq<char>>)
    requires
        0 <= start <= q.len(),
        0 <= i,
        forall|k: int| 0 <= k < acc.len() ==> has_code(#[trigger] acc[k]) && trim(acc[k])
            == acc[k],
    ensures
        forall|k: int|
            0 <= k < split_scan(q, i, start, acc).len() ==> has_code(
                #[trigger] split_scan(q, i, start, acc)[k],
            ) && trim(split_scan(q, i, start, acc)[k]) == split_scan(q, i, start, acc)[k],
    decreases q.len() - i,
{
    if i >= q.len() {
        lemma_keep_statement(acc, q.subrange(start, q.len() as int));
        assert(split_scan(q, i, start, acc) == keep_statement(
            acc,
            q.subrange(start, q.len() as int),
        ));
    } else {
        lemma_token_end_bounds(q, i);
        if q[i] == ';' {
            let acc2 = keep_statement(acc, q.subrange(start, i));
            lemma_keep_statement(acc, q.subrange(start, i));
            lemma_split_scan_keeps_code(q, i + 1, i + 1, acc2);
            assert(split_scan(q, i, start, acc) == split_scan(q, i + 1, i + 1, acc2));
        } else {
            lemma_split_scan_keeps_code(q, token_end(q, i), start, acc);
            assert(split_scan(q, i, start, acc) == split_scan(q, token_end(q, i), start, acc));
        }
    }
}

proof fn lemma_keep_statement(acc: Seq<Seq<char>>, piece: Seq<char>)
    requires
        forall|k: int| 0 <= k < acc.len() ==> has_code(#[trigger] acc[k]) && trim(acc[k])
            == acc[k],
    ensures
        forall|k: int|
            0 <= k < keep_statement(acc, piece).len() ==> has_code(
                #[trigger] keep_statement(acc, piece)[k],
            ) && trim(keep_statement(acc, piece)[k]) == keep_statement(acc, piece)[k],
{
    lemma_trim_idempotent(piece);
}

/// Every statement of a script carries code and has no surrounding
/// whitespace: comments-only pieces and blank pieces are dropped.
pub proof fn law_statements_are_trimmed_code(q: Seq<char>)
    ensures
        forall|k: int|
            0 <= k < script_statements(q).len() ==> has_code(#[trigger] script_statements(q)[k])
                && trim(script_statements(q)[k]) == script_statements(q)[k],
{
    lemma_split_scan_keeps_code(q, 0, 0, Seq::empty());
}

/// Scans from `i` for the start of the last token that carries code,
/// given that `acc` is that start for the text before `i`.
pub open spec fn last_code_from(q: Seq<char>, i: int, acc: Option<int>) -> Option<int>
    decreases q.len() - i,
{
    if i < 0 || i >= q.len() {
        acc
    } else {
        proof {
            lemma_token_end_bounds(q, i);
        }
        if blank_at(q, i) {
            last_code_from(q, token_end(q, i), acc)
        } else {
            last_code_from(q, token_end(q, i), Some(i))
        }
    }
}

/// Where the last token of `q` that carries code starts.
pub open spec fn last_code_token(q: Seq<char>) -> Option<int> {
    last_code_from(q, 0, None)
}

/// The last code token, when it is a `;`.
pub open spec fn semicolon_only(q: Seq<char>, k: Option<int>) -> Option<int> {
    match k {
        Some(j) => if 0 <= j < q.len() && q[j] == ';' {
            Some(j)
        } else {
            None
        },
        None => None,
    }
}

proof fn lemma_scan_is_last_code(q: Seq<char>, i: int, acc: Option<int>)
    requires
        0 <= i,
        acc matches Some(j) ==> 0 <= j < q.len(),
    ensures
        scan_terminator(q, i, semicolon_only(q, acc)) == semicolon_only(q, last_code_from(q, i, acc)),
    decreases q.len() - i,
{
    if i < q.len() {
        lemma_token_end_bounds(q, i);
        if blank_at(q, i) {
            lemma_scan_is_last_code(q, token_end(q, i), acc);
        } else {
            lemma_scan_is_last_code(q, token_end(q, i), Some(i));
            if q[i] == ';' {
                assert(token_end(q, i) == i + 1);
            }
        }
    }
}

/// The REPL submits a buffer exactly when it is blank, when it is a `:`
/// command, or when the last token in it that carries code (anything but
/// whitespace and comments) is a `;` outside any string, identifier or
/// comment.
pub proof fn law_buffer_complete_iff_ends_with_semicolon(buffer: Seq<char>)
    ensures
        buffer_complete(buffer) <==> (trim(buffer).len() == 0 || trim(buffer)[0] == ':' || (
        last_code_token(buffer) matches Some(k) && buffer[k] == ';')),
{
    lemma_scan_is_last_code(buffer, 0, None);
    lemma_last_code_in_range(buffer, 0, None);
}

proof fn lemma_last_code_in_range(q: Seq<char>, i: int, acc: Option<int>)
    requires
        0 <= i,
        acc matches Some(j) ==> 0 <= j < q.len(),
    ensures
        last_code_from(q, i, acc) matches Some(j) ==> 0 <= j < q.len(),
    decreases q.len() - i,
{
    if i < q.len() {
        lemma_token_end_bounds(q, i);
        if blank_at(q, i) {
            lemma_last_code_in_range(q, token_end(q, i), acc);
        } else {
            lemma_last_code_in_range(q, token_end(q, i), Some(i));
        }
    }
}

/// A character that is a token of its own and never a `;`: not a
/// semicolon, a quote, a backtick or a slash.
pub open spec fn plain_char(c: char) -> bool {
    c != ';' && c != '\'' && c != '"' && c != '`' && c != '/'
}

/// Text made of [`plain_char`]s only.
pub open spec fn plain_text(s: Seq<char>) -> bool {
    forall|k: int| 0 <= k < s.len() ==> plain_char(#[trigger] s[k])
}

/// Where no `;` is left, the scan ends by keeping the piece it is in.
proof fn lemma_split_without_semicolon(q: Seq<char>, i: int, start: int, acc: Seq<Seq<char>>)
    requires
        0 <= start <= q.len(),
        start <= i,
        forall|k: int| i <= k < q.len() ==> #[trigger] q[k] != ';',
    ensures
        split_scan(q, i, start, acc) == keep_statement(acc, q.subrange(start, q.len() as int)),
    decreases q.len() - i,
{
    if i < q.len() {
        lemma_token_end_bounds(q, i);
        lemma_split_without_semicolon(q, token_end(q, i), start, acc);
    }
}

/// Over plain text the scan moves one character at a time.
proof fn lemma_split_over_plain(
    q: Seq<char>,
    i: int,
    e: int,
    start: int,
    acc: Seq<Seq<char>>,
)
    requires
        0 <= start <= i <= e <= q.len(),
        forall|k: int| i <= k < e ==> plain_char(#[trigger] q[k]),
    ensures
        split_scan(q, i, start, acc) == split_scan(q, e, start, acc),
    decreases e - i,
{
    if i < e {
        assert(plain_char(q[i]));
        assert(token_end(q, i) == i + 1);
        lemma_split_over_plain(q, i + 1, e, start, acc);
    }
}

/// No statement is lost, the last one included: a script without a `;`
/// is the one statement it holds, and in `a;b`, where `a` is plain text
/// and `b` holds no `;`, the statements are those of `a` and then that of
/// `b`, so that the script ends with the trimmed `b` whenever `b` carries
/// code.
pub proof fn law_every_statement_is_kept(q: Seq<char>, a: Seq<char>, b: Seq<char>)
    ensures
        !q.contains(';') ==> script_statements(q) == keep_statement(Seq::empty(), q),
        !q.contains(';') && has_code(trim(q)) ==> script_statements(q) == seq![trim(q)],
        plain_text(a) && !b.contains(';') ==> script_statements(a + seq![';'] + b)
            == keep_statement(keep_statement(Seq::empty(), a), b),
        plain_text(a) && !b.contains(';') && has_code(trim(b)) ==> script_statements(
            a + seq![';'] + b,
        ).last() == trim(b),
{
    if !q.contains(';') {
        assert forall|k: int| 0 <= k < q.len() implies #[trigger] q[k] != ';' by {
            if q[k] == ';' {
                assert(q.contains(';'));
            }
        }
        lemma_split_without_semicolon(q, 0, 0, Seq::empty());
        assert(q.subrange(0, q.len() as int) == q);
    }
    if plain_text(a) && !b.contains(';') {
        let s = a + seq![';'] + b;
        let n = a.len() as int;
        assert forall|k: int| 0 <= k < n implies plain_char(#[trigger] s[k]) by {
            assert(s[k] == a[k]);
        }
        lemma_split_over_plain(s, 0, n, 0, Seq::empty());
        assert(s[n] == ';');
        assert(s.subrange(0, n) == a);
        let acc = keep_statement(Seq::empty(), a);
        assert(split_scan(s, n, 0, Seq::empty()) == split_scan(s, n + 1, n + 1, acc));
        assert forall|k: int| n + 1 <= k < s.len() implies #[trigger] s[k] != ';' by {
            if s[k] == ';' {
                assert(b[k - n - 1] == s[k]);
                assert(b.contains(';'));
            }
        }
        lemma_split_without_semicolon(s, n + 1, n + 1, acc);
        assert(s.subrange(n + 1, s.len() as int) == b);
    }
}

/// A quoted string whose body holds neither its quote nor a backslash
/// closes at the next quote.
proof fn lemma_quote_closes_at(q: Seq<char>, k: int, j: int, quote: char)
    requires
        0 <= k <= j < q.len(),
        q[j] == quote,
        quote != '\\',
        forall|m: int| k <= m < j ==> #[trigger] q[m] != quote && q[m] != '\\',
    ensures
        quote_close_from(q, k, quote) == j + 1,
    decreases j - k,
{
    if k < j {
        assert(q[k] != quote && q[k] != '\\');
        lemma_quote_closes_at(q, k + 1, j, quote);
    }
}

/// A string in single or in double quotes is one token, whatever it holds
/// besides its own quote and backslashes: the token that starts at its
/// opening quote ends just past its closing one.
pub proof fn law_quoted_string_is_one_token(q: Seq<char>, i: int, j: int)
    requires
        0 <= i < j < q.len(),
        q[i] == '\'' || q[i] == '"',
        q[j] == q[i],
        forall|k: int| i < k < j ==> #[trigger] q[k] != q[i] && q[k] != '\\',
    ensures
        token_end(q, i) == j + 1,
{
    lemma_quote_closes_at(q, i + 1, j, q[i]);
}

/// Over plain text the search for the closing `;` moves one character at
/// a time; a text whose scan from `e` gives `t` whatever was found before
/// gives `t` from `i` too.
proof fn lemma_terminator_over_plain(q: Seq<char>, i: int, e: int, t: Option<int>)
    requires
        0 <= i <= e <= q.len(),
        forall|k: int| i <= k < e ==> plain_char(#[trigger] q[k]),
        forall|x: Option<int>| #[trigger] scan_terminator(q, e, x) == t,
    ensures
        forall|x: Option<int>| #[trigger] scan_terminator(q, i, x) == t,
    decreases e - i,
{
    if i < e {
        lemma_terminator_over_plain(q, i + 1, e, t);
        assert(plain_char(q[i]));
        assert(token_end(q, i) == i + 1);
        assert forall|x: Option<int>| #[trigger] scan_terminator(q, i, x) == t by {
            assert(scan_terminator(q, i + 1, x) == t);
            assert(scan_terminator(q, i + 1, None) == t);
        }
    }
}

/// A statement that holds a quoted string and ends with `;` is complete,
/// whatever the string holds besides its own quote and backslashes: a `;`
/// or the other kind of quote inside it changes nothing.
pub proof fn law_statement_with_string_is_complete(
    p: Seq<char>,
    quote: char,
    s: Seq<char>,
    r: Seq<char>,
)
    requires
        plain_text(p),
        plain_text(r),
        quote == '\'' || quote == '"',
        !s.contains(quote),
        !s.contains('\\'),
    ensures
        trailing_terminator(p + seq![quote] + s + seq![quote] + r + seq![';']) == Some(
            (p.len() + s.len() + r.len() + 2) as int,
        ),
        buffer_complete(p + seq![quote] + s + seq![quote] + r + seq![';']),
{
    let q = p + seq![quote] + s + seq![quote] + r + seq![';'];
    let i = p.len() as int;
    let j = i + s.len() + 1;
    let n = q.len() as int;
    let t = Some(n - 1);
    assert(q[n - 1] == ';');
    assert forall|x: Option<int>| #[trigger] scan_terminator(q, n - 1, x) == t by {
        assert(!blank_at(q, n - 1));
        assert(scan_terminator(q, n, Some(n - 1)) == t);
    }
    assert forall|k: int| j + 1 <= k < n - 1 implies plain_char(#[trigger] q[k]) by {
        assert(q[k] == r[k - j - 1]);
    }
    lemma_terminator_over_plain(q, j + 1, n - 1, t);
    assert(q[i] == quote && q[j] == quote);
    assert forall|k: int| i < k < j implies #[trigger] q[k] != q[i] && q[k] != '\\' by {
        assert(q[k] == s[k - i - 1]);
        if q[k] == quote {
            assert(s.contains(quote));
        }
        if q[k] == '\\' {
            assert(s.contains('\\'));
        }
    }
    law_quoted_string_is_one_token(q, i, j);
    assert forall|x: Option<int>| #[trigger] scan_terminator(q, i, x) == t by {
        assert(!blank_at(q, i));
        assert(scan_terminator(q, j + 1, None) == t);
    }
    assert forall|k: int| 0 <= k < i implies plain_char(#[trigger] q[k]) by {
        assert(q[k] == p[k]);
    }
    lemma_terminator_over_plain(q, 0, i, t);
    assert(scan_terminator(q, 0, None) == t);
}

} // verus!
