//! The full line parser.
//!
//! [`Batch::new`] turns one line of input into an ordered list of
//! [`Command`]s, an optional input-redirection path, an optional
//! output-redirection path, and a background flag, or reports a
//! [`ParseError`](crate::ParseError).
//!
//! The parse proceeds in three stages over the line:
//! redirection extraction (by the positions of the first `<` and the first
//! `>`), pipeline splitting (on `|`), and whitespace tokenization of each
//! stage.  [`parse_spec`] states the whole computation over `Seq<char>`, and
//! the executable parser is proved to return exactly its value.

use vstd::prelude::*;

use crate::ParseError;
use crate::text::first_pos;
use crate::text::has_char;
use crate::text::lemma_find_from;
use crate::text::lemma_tokens_nonempty;
use crate::text::lemma_trim;
use crate::text::split_spec;
use crate::text::tokens_spec;
use crate::text::trim_spec;
use crate::text::contains_char;
use crate::text::find_char;
use crate::text::split_char;
use crate::text::tokenize;
use crate::text::trim_str;

verus! {

/// Mathematical model of one command: its executable name and its
/// arguments, in left-to-right order.
#[verifier::ext_equal]
pub ghost struct CommandView {
    pub cmd: Seq<char>,
    pub args: Seq<Seq<char>>,
}

/// Mathematical model of a parsed line: the commands in pipe order, the
/// two optional redirection paths, and the background flag.
#[verifier::ext_equal]
pub ghost struct BatchView {
    pub cmds: Seq<CommandView>,
    pub input: Option<Seq<char>>,
    pub output: Option<Seq<char>>,
    pub is_async: bool,
}

/// The command a pipeline stage denotes: its first whitespace token is the
/// executable name and the remaining tokens are the arguments.
pub open spec fn command_of(stage: Seq<char>) -> CommandView {
    let toks = tokens_spec(stage);
    CommandView { cmd: toks[0], args: toks.drop_first() }
}

/// The trimmed pipeline stages of a commands substring: none when the
/// substring is blank, else its `|`-separated pieces, each trimmed.
pub open spec fn stage_list(sub: Seq<char>) -> Seq<Seq<char>> {
    if trim_spec(sub).len() == 0 {
        seq![]
    } else {
        split_spec(sub, '|').map_values(|p: Seq<char>| trim_spec(p))
    }
}

/// The commands of a commands substring, or the error a blank stage raises.
pub open spec fn commands_spec(sub: Seq<char>) -> Result<Seq<CommandView>, ParseError> {
    let stages = stage_list(sub);
    if exists|k: int| 0 <= k < stages.len() && stages[k].len() == 0 {
        Err(ParseError::EmptyCommandToken)
    } else {
        Ok(stages.map_values(|st: Seq<char>| command_of(st)))
    }
}

/// Redirection extraction: the commands substring, the input path and the
/// output path, decided by the positions of the first `<` and the first `>`
/// in the line.  A clause runs from its operator to the other operator's
/// clause or to the end of the line; paths are trimmed but not otherwise
/// inspected, so this reading is documented to be reliable only when each
/// operator occurs at most once and no path contains `<` or `>`.
pub open spec fn cut_spec(line: Seq<char>) -> (Seq<char>, Option<Seq<char>>, Option<Seq<char>>) {
    match (first_pos(line, '<'), first_pos(line, '>')) {
        (Some(i), Some(o)) => if i > o {
            (
                line.subrange(0, o),
                Some(trim_spec(line.subrange(i + 1, line.len() as int))),
                Some(trim_spec(line.subrange(o + 1, i))),
            )
        } else {
            (
                line.subrange(0, i),
                Some(trim_spec(line.subrange(i + 1, o))),
                Some(trim_spec(line.subrange(o + 1, line.len() as int))),
            )
        },
        (Some(i), None) => (
            line.subrange(0, i),
            Some(trim_spec(line.subrange(i + 1, line.len() as int))),
            None,
        ),
        (None, Some(o)) => (
            line.subrange(0, o),
            None,
            Some(trim_spec(line.subrange(o + 1, line.len() as int))),
        ),
        (None, None) => (line, None, None),
    }
}

/// The full parse of one line: redirection extraction, then the malformed
/// check on the extracted paths, then pipeline splitting and tokenization.
/// The background flag is a presence check for `&` on the raw line; the
/// marker is not stripped from the command text.
pub open spec fn parse_spec(line: Seq<char>) -> Result<BatchView, ParseError> {
    let (sub, rin, rout) = cut_spec(line);
    let bad_in = match rin {
        Some(p) => p.len() == 0,
        None => false,
    };
    let bad_out = match rout {
        Some(p) => p.len() == 0,
        None => false,
    };
    if bad_in || bad_out {
        Err(ParseError::MalformedRedirection)
    } else {
        match commands_spec(sub) {
            Ok(cs) => Ok(
                BatchView { cmds: cs, input: rin, output: rout, is_async: has_char(line, '&') },
            ),
            Err(e) => Err(e),
        }
    }
}

/// The view of an optional owned path.
pub open spec fn opt_view(o: Option<String>) -> Option<Seq<char>> {
    match o {
        Some(p) => Some(p@),
        None => None,
    }
}

/// Representation of a shell command: an executable name and its arguments.
#[derive(Debug, Clone, PartialEq, Eq)]
pub struct Command {
    /// Executable name.
    pub cmd: String,
    /// Command arguments, in left-to-right order.
    pub args: Vec<String>,
}

impl View for Command {
    type V = CommandView;

    open spec fn view(&self) -> CommandView {
        CommandView { cmd: self.cmd@, args: self.args@.map_values(|a: String| a@) }
    }
}

impl Command {
    /// A command made of the given name and arguments.
    pub fn new(cmd: String, args: Vec<String>) -> (c: Command)
        ensures
            c@ == (CommandView { cmd: cmd@, args: args@.map_values(|a: String| a@) }),
    {
        Command { cmd, args }
    }
}

/// Representation of a parsed line: piped commands to be executed, the
/// paths of the files used for input and output redirection, if any, and
/// the background-execution flag.
#[derive(Debug, Clone, PartialEq, Eq)]
pub struct Batch {
    /// List of commands to be executed, in pipe order.
    pub cmds: Vec<Command>,
    /// Path of a file to be used as input instead of stdin.
    pub input: Option<String>,
    /// Path of a file to be used as output instead of stdout.
    pub output: Option<String>,
    /// Whether the commands are to be executed in the background.
    pub is_async: bool,
}

impl View for Batch {
    type V = BatchView;

    open spec fn view(&self) -> BatchView {
        BatchView {
            cmds: self.cmds@.map_values(|c: Command| c@),
            input: opt_view(self.input),
            output: opt_view(self.output),
            is_async: self.is_async,
        }
    }
}

/// The command a pipeline stage denotes, or `EmptyCommandToken` for a stage
/// with no token at all.
fn build_command(stage: &str) -> (r: Result<Command, ParseError>)
    ensures
        (match r {
            Ok(c) => tokens_spec(stage@).len() > 0 && c@ == command_of(stage@),
            Err(e) => tokens_spec(stage@).len() == 0 && e == ParseError::EmptyCommandToken,
        }),
{
    let toks = tokenize(stage);
    if toks.len() == 0 {
        return Err(ParseError::EmptyCommandToken);
    }
    let cmd = toks[0].clone();
    let mut args: Vec<String> = Vec::new();
    let mut i: usize = 1;
    while i < toks.len()
        invariant
            1 <= i <= toks@.len(),
            args@.len() == i - 1,
            forall|m: int| 0 <= m < args@.len() ==> args@[m] == toks@[m + 1],
        decreases toks@.len() - i,
    {
        args.push(toks[i].clone());
        i = i + 1;
    }
    let c = Command { cmd, args };
    proof {
        assert(c@.args =~= tokens_spec(stage@).drop_first());
        assert(c@ =~= command_of(stage@));
    }
    Ok(c)
}

/// The commands of a commands substring, or the error a blank stage raises.
pub(crate) fn build_commands(sub: &str) -> (r: Result<Vec<Command>, ParseError>)
    ensures
        (match r {
            Ok(cs) => commands_spec(sub@) == Ok::<Seq<CommandView>, ParseError>(
                cs@.map_values(|c: Command| c@),
            ),
            Err(e) => commands_spec(sub@) == Err::<Seq<CommandView>, ParseError>(e),
        }),
{
    let whole = trim_str(sub);
    if whole.is_empty() {
        let cs: Vec<Command> = Vec::new();
        proof {
            assert(cs@.map_values(|c: Command| c@) =~= stage_list(sub@).map_values(
                |st: Seq<char>| command_of(st),
            ));
        }
        return Ok(cs);
    }
    let parts = split_char(sub, '|');
    let ghost stages = stage_list(sub@);
    proof {
        assert(stages == split_spec(sub@, '|').map_values(|p: Seq<char>| trim_spec(p)));
    }
    let mut cmds: Vec<Command> = Vec::new();
    let mut k: usize = 0;
    while k < parts.len()
        invariant
            0 <= k <= parts@.len(),
            stages == stage_list(sub@),
            stages == split_spec(sub@, '|').map_values(|p: Seq<char>| trim_spec(p)),
            parts@.map_values(|p: String| p@) == split_spec(sub@, '|'),
            stages.len() == parts@.len(),
            cmds@.len() == k,
            forall|m: int| 0 <= m < k ==> stages[m].len() > 0,
            forall|m: int| 0 <= m < k ==> #[trigger] cmds@[m]@ == command_of(stages[m]),
        decreases parts@.len() - k,
    {
        let stage = trim_str(parts[k].as_str());
        assert(stage@ == stages[k as int]);
        if stage.is_empty() {
            assert(stages[k as int].len() == 0);
            return Err(ParseError::EmptyCommandToken);
        }
        proof {
            lemma_trim(parts@[k as int]@);
            lemma_tokens_nonempty(stage@);
        }
        match build_command(stage) {
            Ok(c) => {
                cmds.push(c);
            },
            Err(e) => {
                assert(false);
                return Err(e);
            },
        }
        k = k + 1;
    }
    proof {
        assert(cmds@.map_values(|c: Command| c@) =~= stages.map_values(
            |st: Seq<char>| command_of(st),
        ));
    }
    Ok(cmds)
}

impl Batch {
    /// Parse one line of input.
    ///
    /// The result is exactly the value of [`parse_spec`] on the line: either
    /// a complete batch, or the first error the three stages meet, in the
    /// order redirection extraction, pipeline splitting, tokenization.
    pub fn new(input: &str) -> (r: Result<Batch, ParseError>)
        ensures
            (match r {
                Ok(b) => parse_spec(input@) == Ok::<BatchView, ParseError>(b@),
                Err(e) => parse_spec(input@) == Err::<BatchView, ParseError>(e),
            }),
    {
        let n = input.unicode_len();
        let pos_in = find_char(input, '<');
        let pos_out = find_char(input, '>');
        proof {
            lemma_find_from(input@, '<', 0);
            lemma_find_from(input@, '>', 0);
        }
        let mut redir_in: Option<String> = None;
        let mut redir_out: Option<String> = None;
        let commands_part: &str;
        match (pos_in, pos_out) {
            (Some(i), Some(o)) => {
                if i > o {
                    redir_out = Some(trim_str(input.substring_char(o + 1, i)).to_owned());
                    redir_in = Some(trim_str(input.substring_char(i + 1, n)).to_owned());
                    commands_part = input.substring_char(0, o);
                } else {
                    assert(input@[i as int] == '<' && input@[o as int] == '>');
                    assert(i < o);
                    redir_in = Some(trim_str(input.substring_char(i + 1, o)).to_owned());
                    redir_out = Some(trim_str(input.substring_char(o + 1, n)).to_owned());
                    commands_part = input.substring_char(0, i);
                }
            },
            (Some(i), None) => {
                redir_in = Some(trim_str(input.substring_char(i + 1, n)).to_owned());
                commands_part = input.substring_char(0, i);
            },
            (None, Some(o)) => {
                redir_out = Some(trim_str(input.substring_char(o + 1, n)).to_owned());
                commands_part = input.substring_char(0, o);
            },
            (None, None) => {
                commands_part = input;
            },
        }
        let ghost (gsub, grin, grout) = cut_spec(input@);
        proof {
            assert(gsub == commands_part@);
            assert(grin == opt_view(redir_in));
            assert(grout == opt_view(redir_out));
        }
        let bad_in = match &redir_in {
            Some(p) => p.as_str().is_empty(),
            None => false,
        };
        let bad_out = match &redir_out {
            Some(p) => p.as_str().is_empty(),
            None => false,
        };
        if bad_in || bad_out {
            return Err(ParseError::MalformedRedirection);
        }
        let cmds = match build_commands(commands_part) {
            Ok(cs) => cs,
            Err(e) => {
                return Err(e);
            },
        };
        let is_async = contains_char(input, '&');
        let b = Batch { cmds, input: redir_in, output: redir_out, is_async };
        proof {
            match parse_spec(input@) {
                Ok(v) => {
                    assert(b@ =~= v);
                },
                Err(_) => {
                    assert(false);
                },
            }
        }
        Ok(b)
    }
}

} // verus!
