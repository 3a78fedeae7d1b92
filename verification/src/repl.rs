//! The interactive shell's decisions: what a line of input is, what a `:`
//! command asks for, where paths and the history file lead, and how the
//! output of a query is put together.

use vstd::prelude::*;
use vstd::string::StringExecFns;

use crate::args::begins_with;
use crate::text::{
    chars_of, lemma_trim_idempotent, push_char, str_eq, strip_prefix, trim, trim_string,
};

verus! {

broadcast use vstd::string::group_string_axioms;

/// The text `:help` prints.
pub const REPL_HELP: &'static str = "\
Available commands:
  :source <file>  Execute queries from file
  :pwd            Print current working directory
  :cd [dir]       Change current working directory (default: home)
  :ls [path]      List files in current directory or path
  :help, :h       Show REPL help
  :quit, :exit, :q Exit the REPL
  Enter           Insert a newline until the buffer ends with ';'
  ; + Enter       Execute the buffered query
  Paste           Multiline paste stays in the buffer until the final ';'
  Ctrl+C          Exit the REPL
  Ctrl+D          Exit the REPL
";

/// An error of the shell itself.
#[derive(Debug, PartialEq, Eq)]
pub enum CliError {
    IOError(String),
    Internal(String),
}

impl CliError {
    /// The text the shell prints for this error.
    pub open spec fn text(self) -> Seq<char> {
        match self {
            CliError::IOError(m) => "I/O error: "@ + m@,
            CliError::Internal(m) => "Internal error: "@ + m@,
        }
    }

    /// The text the shell prints for this error.
    pub fn message(&self) -> (s: String)
        ensures
            s@ == self.text(),
    {
        match self {
            CliError::IOError(m) => {
                let mut s = String::from_str("I/O error: ");
                s.append(m.as_str());
                s
            },
            CliError::Internal(m) => {
                let mut s = String::from_str("Internal error: ");
                s.append(m.as_str());
                s
            },
        }
    }
}

/// A driver error, as the shell reports it.
pub fn to_err<E: std::fmt::Display>(err: E) -> (r: CliError)
    ensures
        r matches CliError::Internal(m) && vstd::string::to_string_from_display_ensures::<E>(
            &err,
            m,
        ),
{
    CliError::Internal(err.to_string())
}

/// Whether `cmd` ends the REPL.
pub open spec fn is_exit_command(cmd: Seq<char>) -> bool {
    let t = trim(cmd);
    t == ":quit"@ || t == ":exit"@ || t == ":q"@
}

/// Whether `cmd` ends the REPL: `:quit`, `:exit` or `:q`, with any
/// surrounding whitespace.
pub fn is_repl_exit_command(cmd: &str) -> (r: bool)
    ensures
        r == is_exit_command(cmd@),
{
    let t = trim_string(cmd);
    str_eq(t.as_str(), ":quit") || str_eq(t.as_str(), ":exit") || str_eq(t.as_str(), ":q")
}

/// A path typed into the REPL, resolved against the home directory `P`.
#[derive(Debug, PartialEq, Eq)]
pub enum ReplPath<P> {
    /// The home directory itself.
    Home(P),
    /// A path under the home directory.
    UnderHome(P, String),
    /// The path as it was typed.
    Literal(String),
}

/// What a typed path stands for.
pub open spec fn expanded<P>(input: Seq<char>, home: Option<P>) -> (ReplPathView<P>) {
    if input == "~"@ && home is Some {
        ReplPathView::Home(home->0)
    } else if begins_with(input, "~/"@) && home is Some {
        ReplPathView::UnderHome(home->0, input.skip(2))
    } else if begins_with(input, "~\\"@) && home is Some {
        ReplPathView::UnderHome(home->0, input.skip(2))
    } else {
        ReplPathView::Literal(input)
    }
}

/// [`ReplPath`] with its text as characters.
pub enum ReplPathView<P> {
    Home(P),
    UnderHome(P, Seq<char>),
    Literal(Seq<char>),
}

impl<P> ReplPath<P> {
    /// This path with its text as characters.
    pub open spec fn view(self) -> ReplPathView<P> {
        match self {
            ReplPath::Home(h) => ReplPathView::Home(h),
            ReplPath::UnderHome(h, rest) => ReplPathView::UnderHome(h, rest@),
            ReplPath::Literal(s) => ReplPathView::Literal(s@),
        }
    }
}

proof fn lemma_two_char_literals()
    ensures
        "~/"@.len() == 2,
        "~\\"@.len() == 2,
{
    reveal_strlit("~/");
    reveal_strlit("~\\");
}

/// What a typed path stands for: `~` is the home directory and `~/x` (or
/// `~\x`) a path under it, when the home directory is known; anything
/// else is taken as it is.
pub fn expand_repl_path<P>(input: &str, home: Option<P>) -> (r: ReplPath<P>)
    ensures
        r.view() == expanded(input@, home),
{
    proof {
        lemma_two_char_literals();
    }
    if str_eq(input, "~") {
        if let Some(h) = home {
            return ReplPath::Home(h);
        }
        return ReplPath::Literal(String::from_str(input));
    }
    let rest = match strip_prefix(input, "~/") {
        Some(r) => Some(r),
        None => strip_prefix(input, "~\\"),
    };
    if let Some(rest) = rest {
        if let Some(h) = home {
            return ReplPath::UnderHome(h, rest);
        }
    }
    ReplPath::Literal(String::from_str(input))
}

/// [`CliError`] with its text as characters.
pub enum CliErrorView {
    IOError(Seq<char>),
    Internal(Seq<char>),
}

impl View for CliError {
    type V = CliErrorView;

    open spec fn view(&self) -> CliErrorView {
        match self {
            CliError::IOError(m) => CliErrorView::IOError(m@),
            CliError::Internal(m) => CliErrorView::Internal(m@),
        }
    }
}

/// Where `:cd` goes: home when no directory is given, else the expanded
/// path.
pub open spec fn cd_target<P>(input: Seq<char>, home: Option<P>) -> Result<
    ReplPathView<P>,
    CliErrorView,
> {
    let t = trim(input);
    if t.len() == 0 {
        match home {
            Some(h) => Ok(ReplPathView::Home(h)),
            None => Err(
                CliErrorView::IOError("home directory is not available. Usage: :cd [dir]"@),
            ),
        }
    } else {
        Ok(expanded(t, home))
    }
}

/// Where `:cd` goes.
pub fn resolve_repl_cd_path<P>(input: &str, home: Option<P>) -> (r: Result<ReplPath<P>, CliError>)
    ensures
        match (r, cd_target(input@, home)) {
            (Ok(p), Ok(q)) => p.view() == q,
            (Err(e), Err(f)) => e@ == f,
            _ => false,
        },
{
    let trimmed = trim_string(input);
    if trimmed.as_str().is_empty() {
        return match home {
            Some(h) => Ok(ReplPath::Home(h)),
            None => Err(
                CliError::IOError(
                    String::from_str("home directory is not available. Usage: :cd [dir]"),
                ),
            ),
        };
    }
    Ok(expand_repl_path(trimmed.as_str(), home))
}

/// A `:` command of the REPL.
#[derive(Debug, PartialEq, Eq)]
pub enum ReplCommand {
    /// `:help` or `:h`.
    Help,
    /// `:quit`, `:exit` or `:q`.
    Exit,
    /// `:pwd`.
    Pwd,
    /// `:cd`, with what follows it.
    Cd(String),
    /// `:ls`, with the path given, if any.
    Ls(Option<String>),
    /// `:source`, with the file to run.
    Source(String),
    /// Anything else.
    Unknown(String),
}

/// [`ReplCommand`] with its text as characters.
pub enum ReplCommandView {
    Help,
    Exit,
    Pwd,
    Cd(Seq<char>),
    Ls(Option<Seq<char>>),
    Source(Seq<char>),
    Unknown(Seq<char>),
}

impl View for ReplCommand {
    type V = ReplCommandView;

    open spec fn view(&self) -> ReplCommandView {
        match self {
            ReplCommand::Help => ReplCommandView::Help,
            ReplCommand::Exit => ReplCommandView::Exit,
            ReplCommand::Pwd => ReplCommandView::Pwd,
            ReplCommand::Cd(s) => ReplCommandView::Cd(s@),
            ReplCommand::Ls(p) => ReplCommandView::Ls(
                match p {
                    Some(s) => Some(s@),
                    None => None,
                },
            ),
            ReplCommand::Source(s) => ReplCommandView::Source(s@),
            ReplCommand::Unknown(s) => ReplCommandView::Unknown(s@),
        }
    }
}

/// The command a `:` line stands for, or the error for `:source` without
/// a file.  Commands are recognised by their prefix, in this order.
pub open spec fn command_of(cmd: Seq<char>) -> Result<ReplCommandView, CliErrorView> {
    if cmd == ":help"@ || cmd == ":h"@ {
        Ok(ReplCommandView::Help)
    } else if is_exit_command(cmd) {
        Ok(ReplCommandView::Exit)
    } else if cmd == ":pwd"@ {
        Ok(ReplCommandView::Pwd)
    } else if begins_with(cmd, ":cd"@) {
        Ok(ReplCommandView::Cd(cmd.skip(":cd"@.len() as int)))
    } else if begins_with(cmd, ":ls"@) {
        let rest = trim(cmd.skip(":ls"@.len() as int));
        Ok(
            ReplCommandView::Ls(
                if rest.len() == 0 {
                    None
                } else {
                    Some(rest)
                },
            ),
        )
    } else if begins_with(cmd, ":source"@) {
        let file = trim(cmd.skip(":source"@.len() as int));
        if file.len() == 0 {
            Err(CliErrorView::IOError("missing file path. Usage: :source <file>"@))
        } else {
            Ok(ReplCommandView::Source(file))
        }
    } else {
        Ok(ReplCommandView::Unknown(cmd))
    }
}

/// The command a `:` line stands for.
pub fn parse_repl_command(cmd: &str) -> (r: Result<ReplCommand, CliError>)
    ensures
        match (r, command_of(cmd@)) {
            (Ok(c), Ok(d)) => c@ == d,
            (Err(e), Err(f)) => e@ == f,
            _ => false,
        },
{
    if str_eq(cmd, ":help") || str_eq(cmd, ":h") {
        return Ok(ReplCommand::Help);
    }
    if is_repl_exit_command(cmd) {
        return Ok(ReplCommand::Exit);
    }
    if str_eq(cmd, ":pwd") {
        return Ok(ReplCommand::Pwd);
    }
    if let Some(rest) = strip_prefix(cmd, ":cd") {
        return Ok(ReplCommand::Cd(rest));
    }
    if let Some(rest) = strip_prefix(cmd, ":ls") {
        let path = trim_string(rest.as_str());
        if path.as_str().is_empty() {
            return Ok(ReplCommand::Ls(None));
        }
        return Ok(ReplCommand::Ls(Some(path)));
    }
    if let Some(rest) = strip_prefix(cmd, ":source") {
        let file = trim_string(rest.as_str());
        if file.as_str().is_empty() {
            return Err(CliError::IOError(String::from_str("missing file path. Usage: :source <file>")));
        }
        return Ok(ReplCommand::Source(file));
    }
    Ok(ReplCommand::Unknown(String::from_str(cmd)))
}

/// A line submitted to the REPL.
#[derive(Debug, PartialEq, Eq)]
pub enum ReplInput {
    /// Nothing but whitespace.
    Blank,
    /// A `:` command, trimmed.
    Command(String),
    /// Query text, trimmed.
    Query(String),
}

/// [`ReplInput`] with its text as characters.
pub enum ReplInputView {
    Blank,
    Command(Seq<char>),
    Query(Seq<char>),
}

impl View for ReplInput {
    type V = ReplInputView;

    open spec fn view(&self) -> ReplInputView {
        match self {
            ReplInput::Blank => ReplInputView::Blank,
            ReplInput::Command(c) => ReplInputView::Command(c@),
            ReplInput::Query(q) => ReplInputView::Query(q@),
        }
    }
}

/// What a submitted line is.
pub open spec fn input_of(buffer: Seq<char>) -> ReplInputView {
    let t = trim(buffer);
    if t.len() == 0 {
        ReplInputView::Blank
    } else if t[0] == ':' {
        ReplInputView::Command(t)
    } else {
        ReplInputView::Query(t)
    }
}

/// What a submitted line is: blank, a `:` command or query text.
pub fn classify_repl_input(buffer: &str) -> (r: ReplInput)
    ensures
        r@ == input_of(buffer@),
{
    let trimmed = trim_string(buffer);
    if trimmed.as_str().is_empty() {
        return ReplInput::Blank;
    }
    let v = chars_of(trimmed.as_str());
    if v[0] == ':' {
        ReplInput::Command(trimmed)
    } else {
        ReplInput::Query(trimmed)
    }
}

/// What the line editor reported.
#[derive(Debug, PartialEq, Eq)]
pub enum ReplEvent {
    /// A buffer was submitted.
    Submitted(String),
    /// Ctrl+C.
    Interrupted,
    /// Ctrl+D.
    EndOfInput,
    /// The line editor failed, with this message.
    Failed(String),
    /// Anything else the line editor reports.
    Other,
}

/// What the REPL does next.
#[derive(Debug, PartialEq, Eq)]
pub enum ReplStep {
    /// Read the next line.
    Skip,
    /// Run this `:` command.
    Command(String),
    /// Run this query text.
    Query(String),
    /// Leave the REPL.
    Stop,
    /// Print this message and leave the REPL.
    StopWithError(String),
}

/// What the REPL does with one report of the line editor: blank input is
/// skipped, commands and queries are run, Ctrl+C and Ctrl+D end the
/// session, and so does a failure of the line editor, after its message.
pub fn repl_step(event: ReplEvent) -> (r: ReplStep)
    ensures
        match event {
            ReplEvent::Submitted(b) => match input_of(b@) {
                ReplInputView::Blank => r is Skip,
                ReplInputView::Command(c) => r matches ReplStep::Command(x) && x@ == c,
                ReplInputView::Query(q) => r matches ReplStep::Query(x) && x@ == q,
            },
            ReplEvent::Interrupted => r is Stop,
            ReplEvent::EndOfInput => r is Stop,
            ReplEvent::Failed(m) => r matches ReplStep::StopWithError(x) && x@
                == "Interactive shell error: "@ + m@,
            ReplEvent::Other => r is Skip,
        },
{
    match event {
        ReplEvent::Submitted(buffer) => match classify_repl_input(buffer.as_str()) {
            ReplInput::Blank => ReplStep::Skip,
            ReplInput::Command(c) => ReplStep::Command(c),
            ReplInput::Query(q) => ReplStep::Query(q),
        },
        ReplEvent::Interrupted => ReplStep::Stop,
        ReplEvent::EndOfInput => ReplStep::Stop,
        ReplEvent::Failed(m) => {
            let mut msg = String::from_str("Interactive shell error: ");
            msg.append(m.as_str());
            ReplStep::StopWithError(msg)
        },
        ReplEvent::Other => ReplStep::Skip,
    }
}

/// The platform the shell runs on, as far as the history file is concerned.
#[derive(Debug, Clone, Copy, PartialEq, Eq)]
pub enum Platform {
    Windows,
    MacOs,
    /// A Unix other than macOS.
    Unix,
    Other,
}

/// The history file: a base directory (or, alone, the file itself) and
/// the path components to add to it.
#[derive(Debug, PartialEq, Eq)]
pub struct HistoryPath<P> {
    pub base: P,
    pub components: Vec<String>,
}

/// Where the history file lives, given `VELR_HISTORY`, `APPDATA`,
/// `XDG_STATE_HOME` and `HOME`, as (base, components).
pub open spec fn history_location<P>(
    platform: Platform,
    velr_history: Option<P>,
    appdata: Option<P>,
    xdg_state_home: Option<P>,
    home: Option<P>,
) -> Option<(P, Seq<Seq<char>>)> {
    if velr_history is Some {
        Some((velr_history->0, Seq::empty()))
    } else {
        match platform {
            Platform::Windows => match appdata {
                Some(a) => Some((a, seq!["velr"@, "history.txt"@])),
                None => None,
            },
            Platform::MacOs => match home {
                Some(h) => Some(
                    (h, seq!["Library"@, "Application Support"@, "velr"@, "history.txt"@]),
                ),
                None => None,
            },
            Platform::Unix => match xdg_state_home {
                Some(x) => Some((x, seq!["velr"@, "history.txt"@])),
                None => match home {
                    Some(h) => Some((h, seq![".local"@, "state"@, "velr"@, "history.txt"@])),
                    None => None,
                },
            },
            Platform::Other => None,
        }
    }
}

/// The component list as strings.
fn components(parts: &[&str]) -> (v: Vec<String>)
    ensures
        v@.len() == parts@.len(),
        forall|i: int| 0 <= i < parts@.len() ==> #[trigger] v@[i]@ == parts@[i]@,
{
    let mut v: Vec<String> = Vec::new();
    let mut i: usize = 0;
    while i < parts.len()
        invariant
            i <= parts@.len(),
            v@.len() == i,
            forall|j: int| 0 <= j < i ==> #[trigger] v@[j]@ == parts@[j]@,
        decreases parts@.len() - i,
    {
        v.push(String::from_str(parts[i]));
        i += 1;
    }
    v
}

/// Where the history file lives: `VELR_HISTORY` when set, else a `velr`
/// directory in the platform's place for application state.
pub fn history_path<P>(
    platform: Platform,
    velr_history: Option<P>,
    appdata: Option<P>,
    xdg_state_home: Option<P>,
    home: Option<P>,
) -> (r: Option<HistoryPath<P>>)
    ensures
        match (r, history_location(platform, velr_history, appdata, xdg_state_home, home)) {
            (Some(p), Some((base, comps))) => p.base == base && p.components@.map_values(
                |s: String| s@,
            ) == comps,
            (None, None) => true,
            _ => false,
        },
{
    if let Some(path) = velr_history {
        let r = HistoryPath { base: path, components: Vec::new() };
        assert(r.components@.map_values(|s: String| s@) =~= Seq::<Seq<char>>::empty());
        return Some(r);
    }
    let (base, parts): (Option<P>, &[&str]) = match platform {
        Platform::Windows => (appdata, &["velr", "history.txt"]),
        Platform::MacOs => (home, &["Library", "Application Support", "velr", "history.txt"]),
        Platform::Unix => match xdg_state_home {
            Some(x) => (Some(x), &["velr", "history.txt"]),
            None => (home, &[".local", "state", "velr", "history.txt"]),
        },
        Platform::Other => (None, &[]),
    };
    match base {
        Some(b) => {
            let comps = components(parts);
            let r = HistoryPath { base: b, components: comps };
            assert(r.components@.map_values(|s: String| s@) =~= parts@.map_values(|s: &str| s@));
            Some(r)
        },
        None => None,
    }
}

/// `s` ends with a line feed.
pub open spec fn ends_with_newline(s: Seq<char>) -> bool {
    s.len() > 0 && s.last() == '\n'
}

/// The rendered tables of a query, one after the other, each starting on
/// a line of its own.
pub open spec fn tables_text(parts: Seq<Seq<char>>) -> Seq<char>
    decreases parts.len(),
{
    if parts.len() == 0 {
        Seq::empty()
    } else {
        let prev = tables_text(parts.drop_last());
        if prev.len() > 0 && !ends_with_newline(prev) {
            prev + seq!['\n'] + parts.last()
        } else {
            prev + parts.last()
        }
    }
}

/// The explain traces of a script's statements, separated by a blank line.
pub open spec fn traces_text(parts: Seq<Seq<char>>) -> Seq<char>
    decreases parts.len(),
{
    if parts.len() == 0 {
        Seq::empty()
    } else {
        let prev = traces_text(parts.drop_last());
        let closed = if prev.len() > 0 && !ends_with_newline(prev) {
            prev + seq!['\n']
        } else {
            prev
        };
        let spaced = if closed.len() > 0 {
            closed + seq!['\n']
        } else {
            closed
        };
        spaced + parts.last()
    }
}

/// What the shell prints for a query's output: nothing when it is empty,
/// else the output ending with a line feed.
pub open spec fn printed_text(combined: Seq<char>) -> Seq<char> {
    if combined.len() == 0 || ends_with_newline(combined) {
        combined
    } else {
        combined + seq!['\n']
    }
}

/// Whether `s` is empty, and whether it ends with a line feed.
fn text_shape(s: &str) -> (r: (bool, bool))
    ensures
        r.0 == (s@.len() > 0),
        r.1 == ends_with_newline(s@),
{
    let v = chars_of(s);
    let n = v.len();
    (n > 0, n > 0 && v[n - 1] == '\n')
}

/// Appends `s` to `out`.
fn push_str(out: &mut String, s: &str)
    ensures
        final(out)@ == old(out)@ + s@,
{
    out.append(s);
}

/// The rendered tables of a query, one after the other.
pub fn join_table_outputs(parts: &Vec<String>) -> (r: String)
    ensures
        r@ == tables_text(parts@.map_values(|s: String| s@)),
{
    let ghost views = parts@.map_values(|s: String| s@);
    let mut combined = String::new();
    let mut nonempty = false;
    let mut newline_end = false;
    let mut i: usize = 0;
    while i < parts.len()
        invariant
            i <= parts@.len(),
            views == parts@.map_values(|s: String| s@),
            combined@ == tables_text(views.take(i as int)),
            nonempty == (combined@.len() > 0),
            newline_end == ends_with_newline(combined@),
        decreases parts@.len() - i,
    {
        let ghost prev = combined@;
        let (part_nonempty, part_newline) = text_shape(parts[i].as_str());
        if nonempty && !newline_end {
            push_char(&mut combined, '\n');
            newline_end = true;
        }
        push_str(&mut combined, parts[i].as_str());
        if part_nonempty {
            nonempty = true;
            newline_end = part_newline;
        }
        proof {
            assert(views.take(i + 1).drop_last() == views.take(i as int));
            assert(views.take(i + 1).last() == parts@[i as int]@);
            if parts@[i as int]@.len() > 0 {
                assert(combined@.last() == parts@[i as int]@.last());
            } else {
                assert(combined@ =~= combined@.subrange(0, combined@.len() as int));
            }
        }
        i += 1;
    }
    assert(views.take(parts@.len() as int) == views);
    combined
}

/// The explain traces of a script's statements, separated by blank lines.
pub fn join_explain_traces(parts: &Vec<String>) -> (r: String)
    ensures
        r@ == traces_text(parts@.map_values(|s: String| s@)),
{
    let ghost views = parts@.map_values(|s: String| s@);
    let mut combined = String::new();
    let mut nonempty = false;
    let mut newline_end = false;
    let mut i: usize = 0;
    while i < parts.len()
        invariant
            i <= parts@.len(),
            views == parts@.map_values(|s: String| s@),
            combined@ == traces_text(views.take(i as int)),
            nonempty == (combined@.len() > 0),
            newline_end == ends_with_newline(combined@),
        decreases parts@.len() - i,
    {
        let (part_nonempty, part_newline) = text_shape(parts[i].as_str());
        if nonempty && !newline_end {
            push_char(&mut combined, '\n');
            newline_end = true;
        }
        if nonempty {
            push_char(&mut combined, '\n');
            newline_end = true;
        }
        push_str(&mut combined, parts[i].as_str());
        if part_nonempty {
            nonempty = true;
            newline_end = part_newline;
        }
        proof {
            assert(views.take(i + 1).drop_last() == views.take(i as int));
            assert(views.take(i + 1).last() == parts@[i as int]@);
            if parts@[i as int]@.len() > 0 {
                assert(combined@.last() == parts@[i as int]@.last());
            }
        }
        i += 1;
    }
    assert(views.take(parts@.len() as int) == views);
    combined
}

/// What the shell prints for a query's output.
pub fn printed_output(combined: String) -> (r: String)
    ensures
        r@ == printed_text(combined@),
{
    let (nonempty, newline_end) = text_shape(combined.as_str());
    let mut out = combined;
    if nonempty && !newline_end {
        push_char(&mut out, '\n');
    }
    out
}

/// `:cd` ignores the whitespace around its argument: the argument and the
/// argument trimmed lead to the same place, and a directory taken as it is
/// never keeps surrounding whitespace.
pub proof fn law_cd_target_ignores_surrounding_whitespace<P>(input: Seq<char>, home: Option<P>)
    ensures
        cd_target(input, home) == cd_target(trim(input), home),
        cd_target(input, home) matches Ok(ReplPathView::Literal(s)) ==> trim(s) == s,
{
    lemma_trim_idempotent(input);
}

} // verus!
