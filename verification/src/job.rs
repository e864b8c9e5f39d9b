//! A reduced parser: pipeline splitting and whitespace tokenization only.
//!
//! [`Job::new`] splits a line on `|` and tokenizes each stage, with no
//! redirection extraction and no background flag; the redirection fields of
//! the result are always absent.  Operator characters such as `<` and `>`
//! are left in the token text.

use vstd::prelude::*;

use crate::ParseError;
use crate::command::build_commands;
use crate::command::commands_spec;
use crate::command::CommandView;

verus! {

/// Mathematical model of a job: the commands in pipe order and the two
/// redirection paths, which this parser never fills.
#[verifier::ext_equal]
pub ghost struct JobView {
    pub cmds: Seq<CommandView>,
    pub input: Option<Seq<char>>,
    pub output: Option<Seq<char>>,
}

/// The parse of one line by the reduced parser: its commands, and no
/// redirections.
pub open spec fn job_parse_spec(line: Seq<char>) -> Result<JobView, ParseError> {
    match commands_spec(line) {
        Ok(cs) => Ok(JobView { cmds: cs, input: None, output: None }),
        Err(e) => Err(e),
    }
}

/// Representation of a shell command: an executable name and its arguments.
#[derive(Debug, Clone, PartialEq, Eq)]
pub struct Command {
    /// Executable name.
    pub cmd: String,
    /// Command arguments, in left-to-right order.
    pub args: Vec<String>,
}

impl View for Command {
    type V = CommandView;

    open spec fn view(&self) -> CommandView {
        CommandView { cmd: self.cmd@, args: self.args@.map_values(|a: String| a@) }
    }
}

impl Command {
    /// A command made of the given name and arguments.
    pub fn new(cmd: String, args: Vec<String>) -> (c: Command)
        ensures
            c@ == (CommandView { cmd: cmd@, args: args@.map_values(|a: String| a@) }),
    {
        Command { cmd, args }
    }
}

/// Representation of piped commands to be executed.  This parser leaves the
/// redirection paths absent.
#[derive(Debug, Clone, PartialEq, Eq)]
pub struct Job {
    /// List of commands to be executed, in pipe order.
    pub cmds: Vec<Command>,
    /// Path of a file to be used as input instead of stdin; never filled
    /// by this parser.
    pub input: Option<String>,
    /// Path of a file to be used as output instead of stdout; never filled
    /// by this parser.
    pub output: Option<String>,
}

impl View for Job {
    type V = JobView;

    open spec fn view(&self) -> JobView {
        JobView {
            cmds: self.cmds@.map_values(|c: Command| c@),
            input: crate::command::opt_view(self.input),
            output: crate::command::opt_view(self.output),
        }
    }
}

/// A copy of a list of strings.
fn clone_strings(v: &Vec<String>) -> (r: Vec<String>)
    ensures
        r@ == v@,
{
    let mut r: Vec<String> = Vec::new();
    let mut i: usize = 0;
    while i < v.len()
        invariant
            0 <= i <= v@.len(),
            r@.len() == i,
            forall|m: int| 0 <= m < i ==> r@[m] == v@[m],
        decreases v@.len() - i,
    {
        r.push(v[i].clone());
        i = i + 1;
    }
    proof {
        assert(r@ =~= v@);
    }
    r
}

impl Job {
    /// Parse one line of input, splitting on `|` and tokenizing each stage.
    ///
    /// The result is exactly the value of [`job_parse_spec`] on the line: a
    /// blank line gives a job with no commands, and a blank stage between,
    /// before or after pipes gives `EmptyCommandToken`.
    pub fn new(input: &str) -> (r: Result<Job, ParseError>)
        ensures
            (match r {
                Ok(j) => job_parse_spec(input@) == Ok::<JobView, ParseError>(j@),
                Err(e) => job_parse_spec(input@) == Err::<JobView, ParseError>(e),
            }),
    {
        let cs = match build_commands(input) {
            Ok(cs) => cs,
            Err(e) => {
                return Err(e);
            },
        };
        let mut cmds: Vec<Command> = Vec::new();
        let mut k: usize = 0;
        while k < cs.len()
            invariant
                0 <= k <= cs@.len(),
                cmds@.len() == k,
                forall|m: int| 0 <= m < k ==> #[trigger] cmds@[m]@ == cs@[m]@,
            decreases cs@.len() - k,
        {
            let c = Command { cmd: cs[k].cmd.clone(), args: clone_strings(&cs[k].args) };
            proof {
                assert(c@ =~= cs@[k as int]@);
            }
            cmds.push(c);
            k = k + 1;
        }
        let j = Job { cmds, input: None, output: None };
        proof {
            assert(j@.cmds =~= cs@.map_values(|c: crate::command::Command| c@));
            match job_parse_spec(input@) {
                Ok(v) => {
                    assert(j@ =~= v);
                },
                Err(_) => {
                    assert(false);
                },
            }
        }
        Ok(j)
    }
}

} // verus!
