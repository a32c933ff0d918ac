//! The control socket's line protocol: one command per newline-terminated
//! UTF-8 line, ASCII-whitespace-delimited tokens. Parsing and the exact
//! response texts are verified; the socket itself is the caller's.

use vstd::prelude::*;
use vstd::string::StrSliceExecFns;
use vstd::string::StringExecFns;

verus! {

/// The whitespace that separates tokens on a command line.
pub open spec fn is_space(c: char) -> bool {
    c == ' ' || c == '\t' || c == '\r' || c == '\n'
}

/// The end of the token that starts at `i`: the first position at or
/// after `i` that is past the line or holds whitespace.
pub open spec fn token_end(s: Seq<char>, i: int) -> int
    decreases s.len() - i,
{
    if 0 <= i && i < s.len() && !is_space(s[i]) {
        token_end(s, i + 1)
    } else {
        i
    }
}

proof fn lemma_token_end_bounds(s: Seq<char>, i: int)
    requires
        0 <= i <= s.len(),
    ensures
        i <= token_end(s, i) <= s.len(),
    decreases s.len() - i,
{
    if i < s.len() && !is_space(s[i]) {
        lemma_token_end_bounds(s, i + 1);
    }
}

#[via_fn]
proof fn spec_tokens_from_dec(s: Seq<char>, i: int) {
    if 0 <= i && i < s.len() && !is_space(s[i]) {
        lemma_token_end_bounds(s, i + 1);
    }
}

/// The tokens of `s` from position `i` on: maximal runs of non-space
/// characters, in order.
pub open spec fn spec_tokens_from(s: Seq<char>, i: int) -> Seq<Seq<char>>
    decreases s.len() - i,
    via spec_tokens_from_dec
{
    if i < 0 || i >= s.len() {
        Seq::empty()
    } else if is_space(s[i]) {
        spec_tokens_from(s, i + 1)
    } else {
        seq![s.subrange(i, token_end(s, i))] + spec_tokens_from(s, token_end(s, i))
    }
}

/// The whitespace-delimited tokens of a command line.
pub open spec fn spec_tokens(s: Seq<char>) -> Seq<Seq<char>> {
    spec_tokens_from(s, 0)
}

/// One parsed control command.
#[derive(Debug, Clone, PartialEq, Eq)]
pub enum Command {
    /// `start <name>`: launch the named service.
    Start(String),
    /// `stop <name>`: signal the named service to stop.
    Stop(String),
    /// `exit`: end this connection.
    Exit,
    /// A blank line: ignored, no response.
    Empty,
    /// Anything else.
    Unknown,
}

/// The mathematical shape of a parsed command.
pub ghost enum CommandView {
    Start(Seq<char>),
    Stop(Seq<char>),
    Exit,
    Empty,
    Unknown,
}

impl View for Command {
    type V = CommandView;

    open spec fn view(&self) -> CommandView {
        match self {
            Command::Start(n) => CommandView::Start(n@),
            Command::Stop(n) => CommandView::Stop(n@),
            Command::Exit => CommandView::Exit,
            Command::Empty => CommandView::Empty,
            Command::Unknown => CommandView::Unknown,
        }
    }
}

/// What a command line means: `start` and `stop` take exactly one
/// argument, `exit` stands alone, a blank line is ignored, and everything
/// else is unknown.
pub open spec fn spec_parse_command(s: Seq<char>) -> CommandView {
    let ts = spec_tokens(s);
    if ts.len() == 0 {
        CommandView::Empty
    } else if ts[0] == "start"@ && ts.len() == 2 {
        CommandView::Start(ts[1])
    } else if ts[0] == "stop"@ && ts.len() == 2 {
        CommandView::Stop(ts[1])
    } else if ts[0] == "exit"@ && ts.len() == 1 {
        CommandView::Exit
    } else {
        CommandView::Unknown
    }
}

fn is_space_char(c: char) -> (r: bool)
    ensures
        r == is_space(c),
{
    c == ' ' || c == '\t' || c == '\r' || c == '\n'
}

/// Splits a command line into its whitespace-delimited tokens.
pub fn tokenize(s: &str) -> (r: Vec<String>)
    ensures
        r@.map_values(|t: String| t@) == spec_tokens(s@),
{
    let n = s.unicode_len();
    let mut toks: Vec<String> = Vec::new();
    let mut i: usize = 0;
    proof {
        assert(toks@.map_values(|t: String| t@) =~= Seq::<Seq<char>>::empty());
    }
    while i < n
        invariant
            n == s@.len(),
            i <= n,
            spec_tokens(s@) == toks@.map_values(|t: String| t@) + spec_tokens_from(s@, i as int),
        decreases n - i,
    {
        let c = s.get_char(i);
        if is_space_char(c) {
            proof {
                assert(spec_tokens_from(s@, i as int) == spec_tokens_from(s@, i + 1));
            }
            i += 1;
        } else {
            let ghost start = i as int;
            let mut j: usize = i + 1;
            proof {
                assert(token_end(s@, start) == token_end(s@, j as int));
            }
            while j < n && !is_space_char(s.get_char(j))
                invariant
                    n == s@.len(),
                    0 <= start < j <= n,
                    token_end(s@, start) == token_end(s@, j as int),
                decreases n - j,
            {
                proof {
                    assert(token_end(s@, j as int) == token_end(s@, j + 1));
                }
                j += 1;
            }
            proof {
                assert(token_end(s@, j as int) == j as int);
                assert(token_end(s@, start) == j as int);
            }
            let ghost toks0 = toks@.map_values(|t: String| t@);
            let tok = s.substring_char(i, j).to_owned();
            toks.push(tok);
            proof {
                assert(toks@.map_values(|t: String| t@) =~= toks0.push(s@.subrange(start, j as int)));
                assert(spec_tokens_from(s@, start) == seq![s@.subrange(start, j as int)]
                    + spec_tokens_from(s@, j as int));
                assert(toks0.push(s@.subrange(start, j as int)) + spec_tokens_from(s@, j as int)
                    =~= toks0 + spec_tokens_from(s@, start));
            }
            i = j;
        }
    }
    proof {
        assert(spec_tokens_from(s@, i as int) =~= Seq::<Seq<char>>::empty());
        assert(toks@.map_values(|t: String| t@) + spec_tokens_from(s@, i as int) =~= toks@.map_values(
            |t: String| t@,
        ));
    }
    toks
}

/// Parses one command line.
pub fn parse_command(line: &str) -> (r: Command)
    ensures
        r@ == spec_parse_command(line@),
{
    let mut toks = tokenize(line);
    if toks.len() == 0 {
        return Command::Empty;
    }
    let n_toks = toks.len();
    if toks[0].eq(&"start".to_owned()) && n_toks == 2 {
        let name = toks.pop().unwrap();
        Command::Start(name)
    } else if toks[0].eq(&"stop".to_owned()) && n_toks == 2 {
        let name = toks.pop().unwrap();
        Command::Stop(name)
    } else if toks[0].eq(&"exit".to_owned()) && n_toks == 1 {
        Command::Exit
    } else {
        Command::Unknown
    }
}

/// The exact text answered to each command. A blank line gets no answer;
/// every other command always gets its line, whatever the underlying
/// operation did.
pub open spec fn spec_response(c: CommandView) -> Option<Seq<char>> {
    match c {
        CommandView::Start(n) => Some("Started service: "@ + n + "\n"@),
        CommandView::Stop(n) => Some("Stopped service: "@ + n + "\n"@),
        CommandView::Exit => Some("Goodbye!\n"@),
        CommandView::Empty => None,
        CommandView::Unknown => Some(
            "Unknown command. Use 'start <service>', 'stop <service>', or 'exit'.\n"@,
        ),
    }
}

/// Builds the response line for a command.
pub fn respond(cmd: &Command) -> (r: Option<String>)
    ensures
        match r {
            Some(s) => spec_response(cmd@) == Some(s@),
            None => spec_response(cmd@) is None,
        },
{
    match cmd {
        Command::Start(n) => Some(
            "Started service: ".to_owned().concat(n.as_str()).concat("\n"),
        ),
        Command::Stop(n) => Some("Stopped service: ".to_owned().concat(n.as_str()).concat("\n")),
        Command::Exit => Some("Goodbye!\n".to_owned()),
        Command::Empty => None,
        Command::Unknown => Some(
            "Unknown command. Use 'start <service>', 'stop <service>', or 'exit'.\n".to_owned(),
        ),
    }
}

/// Whether the command ends its connection: exactly `exit` does. Every
/// other line, the unknown ones included, leaves the connection open for
/// further commands.
pub fn connection_closes(cmd: &Command) -> (r: bool)
    ensures
        r == (cmd@ is Exit),
{
    match cmd {
        Command::Exit => true,
        _ => false,
    }
}

} // verus!
