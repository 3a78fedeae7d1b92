//! Command-line arguments: what the shell does, on which database, in
//! which output format.

use vstd::prelude::*;
use vstd::string::StringExecFns;

use crate::table::RenderMode;
use crate::text::{chars_of, str_eq, strip_prefix};

verus! {

broadcast use vstd::string::group_string_axioms;

/// The text `--help` prints.
pub const HELP: &'static str = "\
velr - Velr CLI

Usage:
  velr [OPTIONS] [DB_PATH]

Arguments:
  [DB_PATH]              SQLite database path
                         Default: in-memory database when omitted
                         Paths starting with '-' are rejected
                         On Windows, '/flag' style arguments are rejected

Modes:
  -e, --execute <QUERY>  Execute QUERY and exit
  stdin                  When stdin is piped and -e is absent, read query text from stdin
  interactive            When stdin is a TTY and -e is absent, start the REPL

Options:
      --explain [QUERY]  Explain QUERY without executing it and render compact trace
                         When QUERY is omitted, read stdin or start an explain REPL
  -f, --format <FORMAT>  Output format: plain, styled, csv, tsv, ndjson
                         Default: styled on TTY, tsv otherwise
                         Explain statements render from the driver table stream
      --stats            Print query timing to stderr
  -h, --help             Show help
      --version          Show CLI and Velr driver versions

Interactive commands:
  :source <file>         Execute queries from file
  :pwd                   Print current working directory
  :cd [dir]              Change current working directory (default: home)
  :ls [path]             List files in current directory or path
  :help, :h              Show REPL help
  :quit, :exit, :q       Exit the REPL
  REPL submits when input ends with ';'

Examples:
  velr -e 'RETURN 1 AS n'
  velr --explain 'RETURN 1 AS n'
  echo 'RETURN 1 AS n' | velr
  echo 'RETURN 1 AS n; RETURN 2 AS m' | velr --explain
  velr graph.db -e 'RETURN 1 AS n'
  velr -f plain -e 'EXPLAIN RETURN 1 AS n'
  velr -f ndjson -e 'EXPLAIN ANALYZE RETURN 1 AS n'
  velr -f ndjson --stats -e 'RETURN 1 AS n'

Exit codes:
  0 success
  1 query/runtime error
  2 usage error
";

/// What the shell was asked to do.
#[derive(Debug, Clone, Copy, PartialEq, Eq)]
pub enum Action {
    Run,
    Help,
    Version,
}

/// Where the query text comes from.
#[derive(Debug, PartialEq, Eq)]
pub enum Mode {
    /// Given on the command line (`-e` or `--explain`).
    Execute(String),
    /// Read from standard input.
    Stdin(String),
    /// Typed into the REPL.
    Interactive,
}

/// The parsed command line.
#[derive(Debug, PartialEq, Eq)]
pub struct Config {
    pub action: Action,
    pub mode: Mode,
    pub format: RenderMode,
    pub db_path: Option<String>,
    pub stats: bool,
    pub explain: bool,
}

/// [`Mode`] with its text as characters.
pub enum ModeView {
    Execute(Seq<char>),
    Stdin(Seq<char>),
    Interactive,
}

/// [`Config`] with its text as characters.
pub struct ConfigView {
    pub action: Action,
    pub mode: ModeView,
    pub format: RenderMode,
    pub db_path: Option<Seq<char>>,
    pub stats: bool,
    pub explain: bool,
}

impl View for Mode {
    type V = ModeView;

    open spec fn view(&self) -> ModeView {
        match self {
            Mode::Execute(q) => ModeView::Execute(q@),
            Mode::Stdin(q) => ModeView::Stdin(q@),
            Mode::Interactive => ModeView::Interactive,
        }
    }
}

impl View for Config {
    type V = ConfigView;

    open spec fn view(&self) -> ConfigView {
        ConfigView {
            action: self.action,
            mode: self.mode@,
            format: self.format,
            db_path: opt_view(self.db_path),
            stats: self.stats,
            explain: self.explain,
        }
    }
}

/// An optional string as characters.
pub open spec fn opt_view(s: Option<String>) -> Option<Seq<char>> {
    match s {
        Some(t) => Some(t@),
        None => None,
    }
}

/// The arguments as characters; `None` stands for one that is not UTF-8.
pub open spec fn args_view(args: Seq<Option<String>>) -> Seq<Option<Seq<char>>> {
    args.map_values(|a: Option<String>| opt_view(a))
}

/// A usage error: the message and a pointer to `--help`.
pub open spec fn usage_text(message: Seq<char>) -> Seq<char> {
    message + "\nTry 'velr --help'."@
}

/// The output format a name stands for.
pub open spec fn format_named(value: Seq<char>) -> Option<RenderMode> {
    if value == "ndjson"@ {
        Some(RenderMode::Ndjson)
    } else if value == "tsv"@ {
        Some(RenderMode::Tsv)
    } else if value == "csv"@ {
        Some(RenderMode::Csv)
    } else if value == "plain"@ {
        Some(RenderMode::Plain)
    } else if value == "styled"@ {
        Some(RenderMode::Styled)
    } else {
        None
    }
}

/// The output format a name stands for, or the usage error.
pub open spec fn format_result(value: Seq<char>) -> Result<RenderMode, Seq<char>> {
    match format_named(value) {
        Some(m) => Ok(m),
        None => Err(
            usage_text(
                "Unknown format: "@ + value + ". Expected one of: plain, styled, csv, tsv, ndjson"@,
            ),
        ),
    }
}

/// The format used when none is asked for: a table on a terminal, TSV
/// otherwise.
pub open spec fn default_format_for(stdout_is_terminal: bool) -> RenderMode {
    if stdout_is_terminal {
        RenderMode::Styled
    } else {
        RenderMode::Tsv
    }
}

/// `arg` looks like an option: it starts with `-`, or, where Windows-style
/// flags are rejected, it is `/` followed by something.
pub open spec fn rejected_option_like(arg: Seq<char>, reject_windows_style_flags: bool) -> bool {
    (arg.len() > 0 && arg[0] == '-') || (reject_windows_style_flags && arg.len() > 1 && arg[0]
        == '/')
}

/// `s` begins with `p`.
pub open spec fn begins_with(s: Seq<char>, p: Seq<char>) -> bool {
    p.len() <= s.len() && s.subrange(0, p.len() as int) == p
}

/// What has been read of the command line so far.
pub struct ArgsState {
    pub execute: Option<Seq<char>>,
    pub explain: bool,
    pub explain_query: Option<Seq<char>>,
    pub format: Option<RenderMode>,
    pub db_path: Option<Seq<char>>,
    pub stats: bool,
    pub end_of_options: bool,
}

/// Nothing read yet.
pub open spec fn initial_state() -> ArgsState {
    ArgsState {
        execute: None,
        explain: false,
        explain_query: None,
        format: None,
        db_path: None,
        stats: false,
        end_of_options: false,
    }
}

/// The result of reading one argument.
pub enum ArgsStep {
    /// Go on at the given index with the given state.
    Next(ArgsState, int),
    /// Stop: help or version was asked for.
    Early(Action),
    /// Stop with this usage error.
    Failed(Seq<char>),
}

/// The result of reading the whole command line.
pub enum ArgsOutcome {
    Finished(ArgsState),
    Early(Action),
    Failed(Seq<char>),
}

/// The value of the option at `i`, taken from the next argument.
pub open spec fn option_value(args: Seq<Option<Seq<char>>>, i: int, flag: Seq<char>) -> Result<
    Seq<char>,
    Seq<char>,
> {
    if i + 1 >= args.len() {
        Err(usage_text("Missing value for "@ + flag))
    } else {
        match args[i + 1] {
            Some(v) => Ok(v),
            None => Err(usage_text(flag + " must be valid UTF-8"@)),
        }
    }
}

/// The error for an option given twice.
pub open spec fn repeated_text(flag: Seq<char>) -> Seq<char> {
    usage_text(flag + " may only be passed once"@)
}

/// Reading an argument that is not an option: an explain query, or the
/// database path.
pub open spec fn positional_step(st: ArgsState, a: Seq<char>, i: int, reject: bool) -> ArgsStep {
    if rejected_option_like(a, reject) {
        ArgsStep::Failed(usage_text("Unknown option: "@ + a))
    } else if st.explain && st.execute is None && st.explain_query is None {
        ArgsStep::Next(ArgsState { explain_query: Some(a), ..st }, i + 1)
    } else if st.db_path is Some {
        ArgsStep::Failed(usage_text("Unexpected argument: "@ + a))
    } else {
        ArgsStep::Next(ArgsState { db_path: Some(a), ..st }, i + 1)
    }
}

/// Reading an argument that may be an option.
pub open spec fn option_step(
    args: Seq<Option<Seq<char>>>,
    st: ArgsState,
    a: Seq<char>,
    i: int,
    reject: bool,
) -> ArgsStep {
    if a == "-h"@ || a == "--help"@ {
        ArgsStep::Early(Action::Help)
    } else if a == "--version"@ {
        ArgsStep::Early(Action::Version)
    } else if a == "--explain"@ {
        ArgsStep::Next(ArgsState { explain: true, ..st }, i + 1)
    } else if a == "--stats"@ {
        ArgsStep::Next(ArgsState { stats: true, ..st }, i + 1)
    } else if a == "--"@ {
        ArgsStep::Next(ArgsState { end_of_options: true, ..st }, i + 1)
    } else if a == "-e"@ || a == "--execute"@ {
        match option_value(args, i, a) {
            Err(m) => ArgsStep::Failed(m),
            Ok(v) => if st.execute is Some {
                ArgsStep::Failed(repeated_text(a))
            } else {
                ArgsStep::Next(ArgsState { execute: Some(v), ..st }, i + 2)
            },
        }
    } else if a == "-f"@ || a == "--format"@ {
        match option_value(args, i, a) {
            Err(m) => ArgsStep::Failed(m),
            Ok(v) => match format_result(v) {
                Err(m) => ArgsStep::Failed(m),
                Ok(f) => if st.format is Some {
                    ArgsStep::Failed(repeated_text(a))
                } else {
                    ArgsStep::Next(ArgsState { format: Some(f), ..st }, i + 2)
                },
            },
        }
    } else if begins_with(a, "--execute="@) {
        if st.execute is Some {
            ArgsStep::Failed(repeated_text("--execute"@))
        } else {
            ArgsStep::Next(
                ArgsState { execute: Some(a.skip("--execute="@.len() as int)), ..st },
                i + 1,
            )
        }
    } else if begins_with(a, "--explain="@) {
        if st.explain_query is Some {
            ArgsStep::Failed(repeated_text("--explain"@))
        } else {
            ArgsStep::Next(
                ArgsState {
                    explain: true,
                    explain_query: Some(a.skip("--explain="@.len() as int)),
                    ..st
                },
                i + 1,
            )
        }
    } else if begins_with(a, "--format="@) {
        match format_result(a.skip("--format="@.len() as int)) {
            Err(m) => ArgsStep::Failed(m),
            Ok(f) => if st.format is Some {
                ArgsStep::Failed(repeated_text("--format"@))
            } else {
                ArgsStep::Next(ArgsState { format: Some(f), ..st }, i + 1)
            },
        }
    } else {
        positional_step(st, a, i, reject)
    }
}

/// Reading the argument at `i`.
pub open spec fn arg_step(args: Seq<Option<Seq<char>>>, i: int, st: ArgsState, reject: bool) -> ArgsStep {
    match args[i] {
        None => ArgsStep::Failed(usage_text("argument must be valid UTF-8"@)),
        Some(a) => if !st.end_of_options {
            option_step(args, st, a, i, reject)
        } else {
            positional_step(st, a, i, reject)
        },
    }
}

/// A step moves on by one argument, or by two for an option and its value.
pub proof fn lemma_arg_step_advances(args: Seq<Option<Seq<char>>>, i: int, st: ArgsState, reject: bool)
    requires
        0 <= i < args.len(),
    ensures
        arg_step(args, i, st, reject) matches ArgsStep::Next(_, j) ==> i < j <= args.len(),
{
}

/// Reads the arguments from `i` on.
pub open spec fn parse_from(args: Seq<Option<Seq<char>>>, i: int, st: ArgsState, reject: bool) -> ArgsOutcome
    decreases args.len() - i,
{
    if i < 0 || i >= args.len() {
        ArgsOutcome::Finished(st)
    } else {
        proof {
            lemma_arg_step_advances(args, i, st, reject);
        }
        match arg_step(args, i, st, reject) {
            ArgsStep::Next(st2, j) => parse_from(args, j, st2, reject),
            ArgsStep::Early(a) => ArgsOutcome::Early(a),
            ArgsStep::Failed(m) => ArgsOutcome::Failed(m),
        }
    }
}

/// The message for `--explain` given together with `-e`.
pub open spec fn explain_conflict_text() -> Seq<char> {
    usage_text(
        "Cannot combine --explain with -e/--execute; pass the query to --explain instead"@,
    )
}

/// The configuration for help or version.
pub open spec fn early_config(action: Action) -> ConfigView {
    ConfigView {
        action,
        mode: ModeView::Interactive,
        format: RenderMode::Plain,
        db_path: None,
        stats: false,
        explain: false,
    }
}

/// The configuration to run with, given where the query comes from.
pub open spec fn run_config(st: ArgsState, mode: ModeView, stdout_is_terminal: bool) -> ConfigView {
    ConfigView {
        action: Action::Run,
        mode,
        format: match st.format {
            Some(f) => f,
            None => default_format_for(stdout_is_terminal),
        },
        db_path: st.db_path,
        stats: st.stats,
        explain: st.explain,
    }
}

/// The query given on the command line, by `-e` or else by `--explain`.
pub open spec fn given_query(st: ArgsState) -> Option<Seq<char>> {
    match st.execute {
        Some(q) => Some(q),
        None => st.explain_query,
    }
}

/// The outcome of reading standard input, as the mode or the usage error.
pub open spec fn stdin_outcome(read: Result<String, String>) -> Result<ModeView, Seq<char>> {
    match read {
        Ok(text) => Ok(ModeView::Stdin(text@)),
        Err(e) => Err(usage_text("Failed to read stdin: "@ + e@)),
    }
}

/// The result as characters.
pub open spec fn config_result_view(r: Result<Config, String>) -> Result<ConfigView, Seq<char>> {
    match r {
        Ok(c) => Ok(c@),
        Err(e) => Err(e@),
    }
}

/// A usage error: the message and a pointer to `--help`.
pub fn usage_error(message: String) -> (r: String)
    ensures
        r@ == usage_text(message@),
{
    let mut m = message;
    m.append("\nTry 'velr --help'.");
    m
}

/// `a` followed by `b`.
fn concat2(a: &str, b: &str) -> (r: String)
    ensures
        r@ == a@ + b@,
{
    let mut s = String::from_str(a);
    s.append(b);
    s
}

/// `a` followed by `b` followed by `c`.
fn concat3(a: &str, b: &str, c: &str) -> (r: String)
    ensures
        r@ == a@ + b@ + c@,
{
    let mut s = String::from_str(a);
    s.append(b);
    s.append(c);
    s
}

/// The output format named `value`.
pub fn parse_format(value: &str) -> (r: Result<RenderMode, String>)
    ensures
        match (r, format_result(value@)) {
            (Ok(m), Ok(n)) => m == n,
            (Err(e), Err(f)) => e@ == f,
            _ => false,
        },
{
    if str_eq(value, "ndjson") {
        Ok(RenderMode::Ndjson)
    } else if str_eq(value, "tsv") {
        Ok(RenderMode::Tsv)
    } else if str_eq(value, "csv") {
        Ok(RenderMode::Csv)
    } else if str_eq(value, "plain") {
        Ok(RenderMode::Plain)
    } else if str_eq(value, "styled") {
        Ok(RenderMode::Styled)
    } else {
        Err(
            usage_error(
                concat3(
                    "Unknown format: ",
                    value,
                    ". Expected one of: plain, styled, csv, tsv, ndjson",
                ),
            ),
        )
    }
}

/// The format used when none is asked for.
pub fn default_format(stdout_is_terminal: bool) -> (r: RenderMode)
    ensures
        r == default_format_for(stdout_is_terminal),
{
    if stdout_is_terminal {
        RenderMode::Styled
    } else {
        RenderMode::Tsv
    }
}

/// `arg` is `/` followed by something.
pub fn is_windows_style_flag(arg: &str) -> (r: bool)
    ensures
        r == (arg@.len() > 1 && arg@[0] == '/'),
{
    let v = chars_of(arg);
    v.len() > 1 && v[0] == '/'
}

/// `arg` would be taken for an option.
pub fn is_rejected_option_like_arg(arg: &str, reject_windows_style_flags: bool) -> (r: bool)
    ensures
        r == rejected_option_like(arg@, reject_windows_style_flags),
{
    let v = chars_of(arg);
    (v.len() > 0 && v[0] == '-') || (reject_windows_style_flags && is_windows_style_flag(arg))
}

/// Stores `value` in an empty slot; a full one is the error for an option
/// given twice.
pub fn set_once<T>(slot: &mut Option<T>, value: T, flag: &str) -> (r: Result<(), String>)
    ensures
        *old(slot) is Some ==> (r matches Err(e) && e@ == repeated_text(flag@)) && *final(slot)
            == *old(slot),
        *old(slot) is None ==> r is Ok && *final(slot) == Some(value),
{
    if slot.is_some() {
        return Err(usage_error(concat2(flag, " may only be passed once")));
    }
    *slot = Some(value);
    Ok(())
}

/// The value of the option at `i`, taken from the next argument.
fn next_arg_value(args: &Vec<Option<String>>, i: usize, flag: &str) -> (r: Result<String, String>)
    requires
        i < args@.len(),
    ensures
        match (r, option_value(args_view(args@), i as int, flag@)) {
            (Ok(v), Ok(w)) => v@ == w,
            (Err(e), Err(f)) => e@ == f,
            _ => false,
        },
{
    if i >= args.len() - 1 {
        return Err(usage_error(concat2("Missing value for ", flag)));
    }
    match &args[i + 1] {
        Some(v) => Ok(v.clone()),
        None => Err(usage_error(concat2(flag, " must be valid UTF-8"))),
    }
}


/// What has been read of the command line so far.
struct Progress {
    execute: Option<String>,
    explain: bool,
    explain_query: Option<String>,
    format: Option<RenderMode>,
    db_path: Option<String>,
    stats: bool,
    end_of_options: bool,
}

impl View for Progress {
    type V = ArgsState;

    closed spec fn view(&self) -> ArgsState {
        ArgsState {
            execute: opt_view(self.execute),
            explain: self.explain,
            explain_query: opt_view(self.explain_query),
            format: self.format,
            db_path: opt_view(self.db_path),
            stats: self.stats,
            end_of_options: self.end_of_options,
        }
    }
}

/// How reading one argument went on.
enum Advance {
    /// Continue at this index.
    Next(usize),
    /// Stop with help or version.
    Early(Action),
}

/// The text of a `Result<(), String>` error, for the proof.
spec fn unit_err(r: Result<(), String>) -> Seq<char> {
    match r {
        Err(e) => e@,
        Ok(_) => Seq::empty(),
    }
}

/// Reads an argument that is not an option.
fn read_positional(st: &mut Progress, a: String, i: usize, reject: bool) -> (r: Result<
    Advance,
    String,
>)
    requires
        i < usize::MAX,
    ensures
        match positional_step(old(st)@, a@, i as int, reject) {
            ArgsStep::Next(s2, j) => r matches Ok(Advance::Next(k)) && k == j && final(st)@ == s2,
            ArgsStep::Early(x) => r matches Ok(Advance::Early(y)) && x == y,
            ArgsStep::Failed(m) => r matches Err(e) && e@ == m,
        },
{
    if is_rejected_option_like_arg(a.as_str(), reject) {
        return Err(usage_error(concat2("Unknown option: ", a.as_str())));
    }
    if st.explain && st.execute.is_none() && st.explain_query.is_none() {
        st.explain_query = Some(a);
        return Ok(Advance::Next(i + 1));
    }
    if st.db_path.is_some() {
        return Err(usage_error(concat2("Unexpected argument: ", a.as_str())));
    }
    st.db_path = Some(a);
    Ok(Advance::Next(i + 1))
}

/// Reads an argument that may be an option.
fn read_option(
    args: &Vec<Option<String>>,
    st: &mut Progress,
    a: String,
    i: usize,
    reject: bool,
) -> (r: Result<Advance, String>)
    requires
        i < args@.len(),
    ensures
        match option_step(args_view(args@), old(st)@, a@, i as int, reject) {
            ArgsStep::Next(s2, j) => r matches Ok(Advance::Next(k)) && k == j && final(st)@ == s2,
            ArgsStep::Early(x) => r matches Ok(Advance::Early(y)) && x == y,
            ArgsStep::Failed(m) => r matches Err(e) && e@ == m,
        },
{
    let n = args.len();
    if str_eq(a.as_str(), "-h") || str_eq(a.as_str(), "--help") {
        return Ok(Advance::Early(Action::Help));
    }
    if str_eq(a.as_str(), "--version") {
        return Ok(Advance::Early(Action::Version));
    }
    if str_eq(a.as_str(), "--explain") {
        st.explain = true;
        return Ok(Advance::Next(i + 1));
    }
    if str_eq(a.as_str(), "--stats") {
        st.stats = true;
        return Ok(Advance::Next(i + 1));
    }
    if str_eq(a.as_str(), "--") {
        st.end_of_options = true;
        return Ok(Advance::Next(i + 1));
    }
    if str_eq(a.as_str(), "-e") || str_eq(a.as_str(), "--execute") {
        let value = next_arg_value(args, i, a.as_str())?;
        let set = set_once(&mut st.execute, value, a.as_str());
        if set.is_err() {
            return Err(set.unwrap_err());
        }
        return Ok(Advance::Next(i + 2));
    }
    if str_eq(a.as_str(), "-f") || str_eq(a.as_str(), "--format") {
        let value = next_arg_value(args, i, a.as_str())?;
        let mode = parse_format(value.as_str())?;
        let set = set_once(&mut st.format, mode, a.as_str());
        if set.is_err() {
            return Err(set.unwrap_err());
        }
        return Ok(Advance::Next(i + 2));
    }
    if let Some(value) = strip_prefix(a.as_str(), "--execute=") {
        let set = set_once(&mut st.execute, value, "--execute");
        if set.is_err() {
            return Err(set.unwrap_err());
        }
        return Ok(Advance::Next(i + 1));
    }
    if let Some(value) = strip_prefix(a.as_str(), "--explain=") {
        st.explain = true;
        let set = set_once(&mut st.explain_query, value, "--explain");
        if set.is_err() {
            return Err(set.unwrap_err());
        }
        return Ok(Advance::Next(i + 1));
    }
    if let Some(value) = strip_prefix(a.as_str(), "--format=") {
        let mode = parse_format(value.as_str())?;
        let set = set_once(&mut st.format, mode, "--format");
        if set.is_err() {
            return Err(set.unwrap_err());
        }
        return Ok(Advance::Next(i + 1));
    }
    read_positional(st, a, i, reject)
}

/// Reads the argument at `i`.
fn read_arg(args: &Vec<Option<String>>, st: &mut Progress, i: usize, reject: bool) -> (r: Result<
    Advance,
    String,
>)
    requires
        i < args@.len(),
    ensures
        match arg_step(args_view(args@), i as int, old(st)@, reject) {
            ArgsStep::Next(s2, j) => r matches Ok(Advance::Next(k)) && k == j && final(st)@ == s2,
            ArgsStep::Early(x) => r matches Ok(Advance::Early(y)) && x == y,
            ArgsStep::Failed(m) => r matches Err(e) && e@ == m,
        },
{
    let n = args.len();
    let a = match &args[i] {
        Some(a) => a.clone(),
        None => {
            return Err(usage_error(String::from_str("argument must be valid UTF-8")));
        },
    };
    if !st.end_of_options {
        read_option(args, st, a, i, reject)
    } else {
        read_positional(st, a, i, reject)
    }
}

/// Where the query comes from: the command line, the REPL when standard
/// input is a terminal, or else standard input, read by `read_stdin`.
pub fn pick_mode<F: FnOnce() -> Result<String, String>>(
    execute: Option<String>,
    stdin_is_terminal: bool,
    read_stdin: F,
) -> (r: Result<Mode, String>)
    requires
        execute is None && !stdin_is_terminal ==> read_stdin.requires(()),
    ensures
        execute matches Some(q) ==> r == Ok::<Mode, String>(Mode::Execute(q)),
        execute is None && stdin_is_terminal ==> r == Ok::<Mode, String>(Mode::Interactive),
        execute is None && !stdin_is_terminal ==> exists|read: Result<String, String>|
            read_stdin.ensures((), read) && mode_result_view(r) == stdin_outcome(read),
{
    if let Some(query) = execute {
        return Ok(Mode::Execute(query));
    }
    if stdin_is_terminal {
        return Ok(Mode::Interactive);
    }
    let read = read_stdin();
    match read {
        Ok(buffer) => Ok(Mode::Stdin(buffer)),
        Err(err) => {
            let r = Err(usage_error(concat2("Failed to read stdin: ", err.as_str())));
            assert(mode_result_view(r) == stdin_outcome(read));
            r
        },
    }
}

/// The mode result as characters.
pub open spec fn mode_result_view(r: Result<Mode, String>) -> Result<ModeView, Seq<char>> {
    match r {
        Ok(m) => Ok(m@),
        Err(e) => Err(e@),
    }
}

/// The query has to come from standard input: the arguments read without
/// error and without help or version, there is no `--explain`/`-e`
/// conflict, no query was given, and standard input is not a terminal.
pub open spec fn needs_stdin(
    args: Seq<Option<Seq<char>>>,
    stdin_is_terminal: bool,
    reject_windows_style_flags: bool,
) -> bool {
    match parse_from(args, 0, initial_state(), reject_windows_style_flags) {
        ArgsOutcome::Finished(st) => !(st.explain && st.execute is Some) && given_query(st) is None
            && !stdin_is_terminal,
        _ => false,
    }
}

/// What the command line asks for.  `None` in `args` stands for an
/// argument that is not valid UTF-8.  `read_stdin` is called, once, only
/// when the query has to come from standard input (`needs_stdin`): it is
/// required to be callable only then, so a reader that may not be called
/// in any other case (on help, version, `-e`, a terminal, or an error) is
/// accepted.
pub fn parse_args_from_inner<F: FnOnce() -> Result<String, String>>(
    args: Vec<Option<String>>,
    stdin_is_terminal: bool,
    stdout_is_terminal: bool,
    reject_windows_style_flags: bool,
    read_stdin: F,
) -> (r: Result<Config, String>)
    requires
        needs_stdin(args_view(args@), stdin_is_terminal, reject_windows_style_flags)
            ==> read_stdin.requires(()),
    ensures
        match parse_from(args_view(args@), 0, initial_state(), reject_windows_style_flags) {
            ArgsOutcome::Failed(m) => config_result_view(r) == Err::<ConfigView, Seq<char>>(m),
            ArgsOutcome::Early(a) => config_result_view(r) == Ok::<ConfigView, Seq<char>>(
                early_config(a),
            ),
            ArgsOutcome::Finished(st) => if st.explain && st.execute is Some {
                config_result_view(r) == Err::<ConfigView, Seq<char>>(explain_conflict_text())
            } else {
                match given_query(st) {
                    Some(q) => config_result_view(r) == Ok::<ConfigView, Seq<char>>(
                        run_config(st, ModeView::Execute(q), stdout_is_terminal),
                    ),
                    None => if stdin_is_terminal {
                        config_result_view(r) == Ok::<ConfigView, Seq<char>>(
                            run_config(st, ModeView::Interactive, stdout_is_terminal),
                        )
                    } else {
                        exists|read: Result<String, String>|
                            read_stdin.ensures((), read) && config_result_view(r) == match stdin_outcome(read) {
                                Ok(m) => Ok(run_config(st, m, stdout_is_terminal)),
                                Err(e) => Err(e),
                            }
                    },
                }
            },
        },
{
    let ghost view = args_view(args@);
    let mut st = Progress {
        execute: None,
        explain: false,
        explain_query: None,
        format: None,
        db_path: None,
        stats: false,
        end_of_options: false,
    };
    let mut i: usize = 0;
    let n = args.len();
    while i < n
        invariant
            n == args@.len(),
            i <= n,
            view == args_view(args@),
            parse_from(view, 0, initial_state(), reject_windows_style_flags) == parse_from(
                view,
                i as int,
                st@,
                reject_windows_style_flags,
            ),
        decreases n - i,
    {
        proof {
            lemma_arg_step_advances(view, i as int, st@, reject_windows_style_flags);
        }
        match read_arg(&args, &mut st, i, reject_windows_style_flags) {
            Ok(Advance::Next(j)) => {
                i = j;
            },
            Ok(Advance::Early(action)) => {
                return Ok(
                    Config {
                        action,
                        mode: Mode::Interactive,
                        format: RenderMode::Plain,
                        db_path: None,
                        stats: false,
                        explain: false,
                    },
                );
            },
            Err(message) => {
                return Err(message);
            },
        }
    }
    if st.explain && st.execute.is_some() {
        return Err(
            usage_error(
                String::from_str(
                    "Cannot combine --explain with -e/--execute; pass the query to --explain instead",
                ),
            ),
        );
    }
    let query = match st.execute {
        Some(q) => Some(q),
        None => st.explain_query,
    };
    let mode = pick_mode(query, stdin_is_terminal, read_stdin)?;
    let format = match st.format {
        Some(f) => f,
        None => default_format(stdout_is_terminal),
    };
    Ok(Config { action: Action::Run, mode, format, db_path: st.db_path, stats: st.stats, explain: st.explain })
}
/// What has been read keeps the database path from looking like an option.
pub open spec fn path_not_option_like(st: ArgsState, reject: bool) -> bool {
    st.db_path matches Some(p) ==> !rejected_option_like(p, reject)
}

/// `m` is a usage error: some message followed by the pointer to `--help`.
pub open spec fn is_usage_error(m: Seq<char>) -> bool {
    exists|x: Seq<char>| m == #[trigger] usage_text(x)
}

proof fn lemma_step_laws(args: Seq<Option<Seq<char>>>, i: int, st: ArgsState, reject: bool)
    requires
        0 <= i < args.len(),
        path_not_option_like(st, reject),
    ensures
        arg_step(args, i, st, reject) matches ArgsStep::Next(st2, _) ==> path_not_option_like(
            st2,
            reject,
        ),
        arg_step(args, i, st, reject) matches ArgsStep::Failed(m) ==> is_usage_error(m),
{
    match args[i] {
        None => {
            assert(usage_text("argument must be valid UTF-8"@) == usage_text(
                "argument must be valid UTF-8"@,
            ));
        },
        Some(a) => {
            if !st.end_of_options {
                lemma_option_step_laws(args, st, a, i, reject);
            } else {
                lemma_positional_step_laws(st, a, i, reject);
            }
        },
    }
}

proof fn lemma_positional_step_laws(st: ArgsState, a: Seq<char>, i: int, reject: bool)
    requires
        path_not_option_like(st, reject),
    ensures
        positional_step(st, a, i, reject) matches ArgsStep::Next(st2, _) ==> path_not_option_like(
            st2,
            reject,
        ),
        positional_step(st, a, i, reject) matches ArgsStep::Failed(m) ==> is_usage_error(m),
{
    if rejected_option_like(a, reject) {
        let m = "Unknown option: "@ + a;
        assert(usage_text(m) == usage_text(m));
    } else if st.explain && st.execute is None && st.explain_query is None {
    } else if st.db_path is Some {
        let m = "Unexpected argument: "@ + a;
        assert(usage_text(m) == usage_text(m));
    }
}

proof fn lemma_option_step_laws(
    args: Seq<Option<Seq<char>>>,
    st: ArgsState,
    a: Seq<char>,
    i: int,
    reject: bool,
)
    requires
        path_not_option_like(st, reject),
    ensures
        option_step(args, st, a, i, reject) matches ArgsStep::Next(st2, _) ==> path_not_option_like(
            st2,
            reject,
        ),
        option_step(args, st, a, i, reject) matches ArgsStep::Failed(m) ==> is_usage_error(m),
{
    lemma_positional_step_laws(st, a, i, reject);
    if i + 1 >= args.len() {
        let m = "Missing value for "@ + a;
        assert(usage_text(m) == usage_text(m));
    } else if args[i + 1] is None {
        let m = a + " must be valid UTF-8"@;
        assert(usage_text(m) == usage_text(m));
    } else {
        let v = args[i + 1]->0;
        let m = "Unknown format: "@ + v + ". Expected one of: plain, styled, csv, tsv, ndjson"@;
        assert(usage_text(m) == usage_text(m));
    }
    let r = a + " may only be passed once"@;
    assert(usage_text(r) == usage_text(r));
    let e = "--execute"@ + " may only be passed once"@;
    assert(usage_text(e) == usage_text(e));
    let x = "--explain"@ + " may only be passed once"@;
    assert(usage_text(x) == usage_text(x));
    let f = "--format"@ + " may only be passed once"@;
    assert(usage_text(f) == usage_text(f));
    let rest = a.skip("--format="@.len() as int);
    let m = "Unknown format: "@ + rest + ". Expected one of: plain, styled, csv, tsv, ndjson"@;
    assert(usage_text(m) == usage_text(m));
}

proof fn lemma_parse_laws(args: Seq<Option<Seq<char>>>, i: int, st: ArgsState, reject: bool)
    requires
        0 <= i,
        path_not_option_like(st, reject),
    ensures
        parse_from(args, i, st, reject) matches ArgsOutcome::Finished(st2) ==> path_not_option_like(
            st2,
            reject,
        ),
        parse_from(args, i, st, reject) matches ArgsOutcome::Failed(m) ==> is_usage_error(m),
    decreases args.len() - i,
{
    if i < args.len() {
        lemma_arg_step_advances(args, i, st, reject);
        lemma_step_laws(args, i, st, reject);
        if let ArgsStep::Next(st2, j) = arg_step(args, i, st, reject) {
            lemma_parse_laws(args, j, st2, reject);
        }
    }
}

/// The database path is never something that looks like an option: an
/// argument starting with `-` (even after `--`), or, where Windows-style
/// flags are rejected, `/` followed by something.  So a mistyped flag
/// cannot name a database file.
pub proof fn law_database_path_is_not_option_like(
    args: Seq<Option<Seq<char>>>,
    reject_windows_style_flags: bool,
)
    ensures
        parse_from(args, 0, initial_state(), reject_windows_style_flags) matches ArgsOutcome::Finished(
            st,
        ) ==> (st.db_path matches Some(p) ==> !rejected_option_like(
            p,
            reject_windows_style_flags,
        )),
{
    lemma_parse_laws(args, 0, initial_state(), reject_windows_style_flags);
}

/// Every error that reading the arguments can give is a usage error: its
/// message ends with the pointer to `--help`.
pub proof fn law_argument_errors_are_usage_errors(
    args: Seq<Option<Seq<char>>>,
    reject_windows_style_flags: bool,
)
    ensures
        parse_from(args, 0, initial_state(), reject_windows_style_flags) matches ArgsOutcome::Failed(
            m,
        ) ==> is_usage_error(m),
        is_usage_error(explain_conflict_text()),
{
    lemma_parse_laws(args, 0, initial_state(), reject_windows_style_flags);
    let c = "Cannot combine --explain with -e/--execute; pass the query to --explain instead"@;
    assert(usage_text(c) == usage_text(c));
}

/// A step read at another index, with the index it goes on at moved
/// along.
pub open spec fn shifted(step: ArgsStep, d: int) -> ArgsStep {
    match step {
        ArgsStep::Next(st, k) => ArgsStep::Next(st, k + d),
        other => other,
    }
}

proof fn lemma_step_shift(
    a: Seq<Option<Seq<char>>>,
    i: int,
    b: Seq<Option<Seq<char>>>,
    j: int,
    st: ArgsState,
    reject: bool,
)
    requires
        0 <= i < a.len(),
        0 <= j <= b.len(),
        a.skip(i) == b.skip(j),
    ensures
        arg_step(b, j, st, reject) == shifted(arg_step(a, i, st, reject), j - i),
{
    assert(a.skip(i).len() == a.len() - i);
    assert(b.skip(j).len() == b.len() - j);
    assert(a[i] == a.skip(i)[0]);
    assert(b[j] == b.skip(j)[0]);
    if i + 1 < a.len() {
        assert(a[i + 1] == a.skip(i)[1]);
        assert(b[j + 1] == b.skip(j)[1]);
    }
    if let Some(x) = a[i] {
        assert(option_value(a, i, x) == option_value(b, j, x));
    }
}

/// Reading the arguments depends only on those not read yet.
proof fn lemma_parse_shift(
    a: Seq<Option<Seq<char>>>,
    i: int,
    b: Seq<Option<Seq<char>>>,
    j: int,
    st: ArgsState,
    reject: bool,
)
    requires
        0 <= i <= a.len(),
        0 <= j <= b.len(),
        a.skip(i) == b.skip(j),
    ensures
        parse_from(a, i, st, reject) == parse_from(b, j, st, reject),
    decreases a.len() - i,
{
    assert(a.skip(i).len() == a.len() - i);
    assert(b.skip(j).len() == b.len() - j);
    if i < a.len() {
        lemma_arg_step_advances(a, i, st, reject);
        lemma_step_shift(a, i, b, j, st, reject);
        if let ArgsStep::Next(st2, k) = arg_step(a, i, st, reject) {
            let d = k - i;
            assert(a.skip(k) =~= a.skip(i).skip(d));
            assert(b.skip(j + d) =~= b.skip(j).skip(d));
            lemma_parse_shift(a, k, b, j + d, st2, reject);
        }
    }
}

proof fn lemma_option_literals()
    ensures
        "-h"@ =~= seq!['-', 'h'],
        "--"@ =~= seq!['-', '-'],
        "-e"@ =~= seq!['-', 'e'],
        "-f"@ =~= seq!['-', 'f'],
        "--help"@.len() == 6,
        "--version"@ =~= seq!['-', '-', 'v', 'e', 'r', 's', 'i', 'o', 'n'],
        "--explain"@ =~= seq!['-', '-', 'e', 'x', 'p', 'l', 'a', 'i', 'n'],
        "--stats"@.len() == 7,
        "--execute"@ =~= seq!['-', '-', 'e', 'x', 'e', 'c', 'u', 't', 'e'],
        "--format"@.len() == 8,
        "--execute="@ =~= seq!['-', '-', 'e', 'x', 'e', 'c', 'u', 't', 'e', '='],
        "--explain="@ =~= seq!['-', '-', 'e', 'x', 'p', 'l', 'a', 'i', 'n', '='],
        "--format="@ =~= seq!['-', '-', 'f', 'o', 'r', 'm', 'a', 't', '='],
{
    reveal_strlit("-h");
    reveal_strlit("--help");
    reveal_strlit("--version");
    reveal_strlit("--explain");
    reveal_strlit("--stats");
    reveal_strlit("--");
    reveal_strlit("-e");
    reveal_strlit("--execute");
    reveal_strlit("-f");
    reveal_strlit("--format");
    reveal_strlit("--execute=");
    reveal_strlit("--explain=");
    reveal_strlit("--format=");
}

/// `--execute=QUERY` reads like `-e QUERY`, and `--format=FORMAT` like
/// `-f FORMAT`, whatever arguments follow: the outcome (configuration or
/// usage error) is the same.
pub proof fn law_equals_forms_read_like_separate_values(
    query: Seq<char>,
    format: Seq<char>,
    rest: Seq<Option<Seq<char>>>,
    reject_windows_style_flags: bool,
)
    ensures
        parse_from(
            seq![Some("--execute="@ + query)] + rest,
            0,
            initial_state(),
            reject_windows_style_flags,
        ) == parse_from(
            seq![Some("-e"@), Some(query)] + rest,
            0,
            initial_state(),
            reject_windows_style_flags,
        ),
        parse_from(
            seq![Some("--format="@ + format)] + rest,
            0,
            initial_state(),
            reject_windows_style_flags,
        ) == parse_from(
            seq![Some("-f"@), Some(format)] + rest,
            0,
            initial_state(),
            reject_windows_style_flags,
        ),
{
    lemma_option_literals();
    let r = reject_windows_style_flags;
    let st = initial_state();

    let e1 = "--execute="@ + query;
    let a1 = seq![Some(e1)] + rest;
    let a2 = seq![Some("-e"@), Some(query)] + rest;
    assert(e1.subrange(0, 10) =~= "--execute="@);
    assert(e1.skip(10) =~= query);
    assert(a1[0] == Some(e1));
    assert(a2[0] == Some("-e"@));
    assert(a2[1] == Some(query));
    assert("-e"@ != "-h"@ && "-e"@ != "--"@) by {
        assert("-e"@[1] != "-h"@[1]);
        assert("-e"@[1] != "--"@[1]);
    }
    assert(option_value(a2, 0, "-e"@) == Ok::<Seq<char>, Seq<char>>(query));
    let st_e = ArgsState { execute: Some(query), ..st };
    assert(arg_step(a1, 0, st, r) == ArgsStep::Next(st_e, 1));
    assert(arg_step(a2, 0, st, r) == ArgsStep::Next(st_e, 2));
    assert(a1.skip(1) =~= rest);
    assert(a2.skip(2) =~= rest);
    lemma_parse_shift(a1, 1, a2, 2, st_e, r);

    let f1 = "--format="@ + format;
    let b1 = seq![Some(f1)] + rest;
    let b2 = seq![Some("-f"@), Some(format)] + rest;
    assert(f1.subrange(0, 9) =~= "--format="@);
    assert(f1.skip(9) =~= format);
    assert(f1[2] == 'f');
    assert(f1 != "--version"@ && f1 != "--explain"@ && f1 != "--execute"@) by {
        if f1.len() == 9 {
            assert(f1[2] != "--version"@[2]);
            assert(f1[2] != "--explain"@[2]);
            assert(f1[2] != "--execute"@[2]);
        }
    }
    assert(!begins_with(f1, "--execute="@)) by {
        if begins_with(f1, "--execute="@) {
            assert(f1.subrange(0, 10)[2] == 'e');
        }
    }
    assert(!begins_with(f1, "--explain="@)) by {
        if begins_with(f1, "--explain="@) {
            assert(f1.subrange(0, 10)[2] == 'e');
        }
    }
    assert(b1[0] == Some(f1));
    assert(b2[0] == Some("-f"@));
    assert(b2[1] == Some(format));
    assert("-f"@ != "-h"@ && "-f"@ != "--"@ && "-f"@ != "-e"@) by {
        assert("-f"@[1] != "-h"@[1]);
        assert("-f"@[1] != "--"@[1]);
        assert("-f"@[1] != "-e"@[1]);
    }
    assert(option_value(b2, 0, "-f"@) == Ok::<Seq<char>, Seq<char>>(format));
    assert(b1.skip(1) =~= rest);
    assert(b2.skip(2) =~= rest);
    match format_result(format) {
        Ok(m) => {
            let st_f = ArgsState { format: Some(m), ..st };
            assert(arg_step(b1, 0, st, r) == ArgsStep::Next(st_f, 1));
            assert(arg_step(b2, 0, st, r) == ArgsStep::Next(st_f, 2));
            lemma_parse_shift(b1, 1, b2, 2, st_f, r);
        },
        Err(m) => {
            assert(arg_step(b1, 0, st, r) == ArgsStep::Failed(m));
            assert(arg_step(b2, 0, st, r) == ArgsStep::Failed(m));
        },
    }
}

/// Each output format has exactly one name, and the names are the five
/// that `--help` lists: `plain`, `styled`, `csv`, `tsv` and `ndjson`, each
/// selecting the format it names.  No two names select the same format.
pub proof fn law_format_names_select_their_formats()
    ensures
        format_named("plain"@) == Some(RenderMode::Plain),
        format_named("styled"@) == Some(RenderMode::Styled),
        format_named("csv"@) == Some(RenderMode::Csv),
        format_named("tsv"@) == Some(RenderMode::Tsv),
        format_named("ndjson"@) == Some(RenderMode::Ndjson),
        forall|v: Seq<char>, w: Seq<char>|
            #[trigger] format_named(v) is Some && format_named(v) == #[trigger] format_named(w)
                ==> v == w,
{
    reveal_strlit("plain");
    reveal_strlit("styled");
    reveal_strlit("csv");
    reveal_strlit("tsv");
    reveal_strlit("ndjson");
    assert("plain"@.len() == 5 && "styled"@.len() == 6 && "ndjson"@.len() == 6);
    assert("csv"@.len() == 3 && "tsv"@.len() == 3);
    assert("styled"@[0] != "ndjson"@[0]);
    assert("csv"@[0] != "tsv"@[0]);
}

} // verus!
