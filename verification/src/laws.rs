//! Laws of the parser: facts that hold of every parse, proved once and for
//! all from the contracts in [`crate::command`].

use vstd::prelude::*;

use crate::ParseError;
use crate::command::command_of;
use crate::command::cut_spec;
use crate::command::parse_spec;
use crate::command::stage_list;
use crate::command::BatchView;
use crate::command::CommandView;
use crate::text::first_pos;
use crate::text::has_char;
use crate::text::is_shell_ws;
use crate::text::lemma_find_at;
use crate::text::lemma_find_from;
use crate::text::lemma_find_none;
use crate::text::lemma_has_char_concat;
use crate::text::lemma_split_step;
use crate::text::lemma_split_wf;
use crate::text::lemma_token_step;
use crate::text::lemma_tokens_nonempty;
use crate::text::lemma_tokens_suffix;
use crate::text::lemma_tokens_trim;
use crate::text::lemma_tokens_wf;
use crate::text::lemma_trim;
use crate::text::lemma_trim_noop;
use crate::text::split_spec;
use crate::text::tokens_spec;
use crate::text::trim_spec;

verus! {

/// A well-formed token: non-empty, with no whitespace and none of the three
/// operator characters in it.
pub open spec fn wf_token(t: Seq<char>) -> bool {
    t.len() > 0 && (forall|x: int|
        0 <= x < t.len() ==> !is_shell_ws(#[trigger] t[x]) && t[x] != '|' && t[x] != '<' && t[x]
            != '>')
}

/// A well-formed command: its name and each of its arguments is a
/// well-formed token.
pub open spec fn wf_command(c: CommandView) -> bool {
    wf_token(c.cmd) && (forall|m: int| 0 <= m < c.args.len() ==> wf_token(#[trigger] c.args[m]))
}

/// The commands substring never holds a redirection operator: everything
/// from the first operator on belongs to the redirection clauses.
pub proof fn lemma_cut_sub(line: Seq<char>)
    ensures
        forall|p: int|
            0 <= p < cut_spec(line).0.len() ==> (#[trigger] cut_spec(line).0[p]) != '<' && cut_spec(
                line,
            ).0[p] != '>',
{
    lemma_find_from(line, '<', 0);
    lemma_find_from(line, '>', 0);
    let sub = cut_spec(line).0;
    assert forall|p: int| 0 <= p < sub.len() implies (#[trigger] sub[p]) != '<' && sub[p]
        != '>' by {
        assert(sub[p] == line[p]);
    }
}

/// Every command of a successful parse is well formed: its name and
/// arguments are non-empty tokens free of whitespace, pipes, and
/// redirection operators.  In particular every command of a non-empty
/// pipeline has a non-empty name.
pub proof fn lemma_parse_wf(line: Seq<char>, b: BatchView)
    requires
        parse_spec(line) == Ok::<BatchView, ParseError>(b),
    ensures
        forall|k: int| 0 <= k < b.cmds.len() ==> wf_command(#[trigger] b.cmds[k]),
{
    let sub = cut_spec(line).0;
    let stages = stage_list(sub);
    let pieces = split_spec(sub, '|');
    lemma_cut_sub(line);
    lemma_split_wf(sub, '|', 0);
    assert forall|k: int| 0 <= k < b.cmds.len() implies wf_command(#[trigger] b.cmds[k]) by {
        assert(b.cmds[k] == command_of(stages[k]));
        assert(trim_spec(sub).len() != 0);
        let piece = pieces[k];
        let stage = stages[k];
        assert(stage == trim_spec(piece));
        assert(stage.len() > 0);
        lemma_trim(piece);
        lemma_tokens_nonempty(stage);
        lemma_tokens_wf(stage, 0);
        let toks = tokens_spec(stage);
        assert forall|m: int, x: int| 0 <= m < toks.len() && 0 <= x < toks[m].len() implies (
        !is_shell_ws(#[trigger] toks[m][x]) && toks[m][x] != '|' && toks[m][x] != '<'
            && toks[m][x] != '>') by {
            assert(toks == crate::text::tokens_from(stage, 0));
            let c = toks[m][x];
            assert(!is_shell_ws(crate::text::tokens_from(stage, 0)[m][x]) && (exists|q: int|
                0 <= q < stage.len() && stage[q] == crate::text::tokens_from(stage, 0)[m][x]));
            let q = choose|q: int| 0 <= q < stage.len() && stage[q] == c;
            let a = crate::text::ws_end(piece, 0);
            assert(trim_spec(piece)[q] == piece[a + q]);
            assert(0 <= a + q < piece.len());
            assert(pieces == crate::text::split_from(sub, '|', 0));
            assert(crate::text::split_from(sub, '|', 0)[k][a + q] != '|' && (exists|r: int|
                0 <= r < sub.len() && sub[r] == crate::text::split_from(sub, '|', 0)[k][a + q]));
            let r = choose|r: int| 0 <= r < sub.len() && sub[r] == c;
            assert(sub[r] != '<' && sub[r] != '>');
        }
        let c = command_of(stage);
        assert(wf_token(c.cmd)) by {
            assert(c.cmd == toks[0]);
            assert(crate::text::tokens_from(stage, 0)[0].len() > 0);
        }
        assert forall|m: int| 0 <= m < c.args.len() implies wf_token(#[trigger] c.args[m]) by {
            assert(c.args[m] == toks[m + 1]);
            assert(crate::text::tokens_from(stage, 0)[m + 1].len() > 0);
        }
    }
}

/// A line with no operator characters and at least one token parses to a
/// single command whose name is the line's first whitespace token and whose
/// arguments are the remaining tokens, with no redirections and the
/// background flag off.
///
/// A line that is non-empty but all whitespace parses to a pipeline with no
/// commands instead, so such lines are excluded here.
pub proof fn lemma_plain_line(line: Seq<char>)
    requires
        line.len() > 0,
        forall|k: int|
            0 <= k < line.len() ==> (#[trigger] line[k]) != '<' && line[k] != '>' && line[k] != '|'
                && line[k] != '&',
        trim_spec(line).len() > 0,
    ensures
        tokens_spec(line).len() > 0,
        parse_spec(line) == Ok::<BatchView, ParseError>(
            BatchView {
                cmds: seq![
                    CommandView { cmd: tokens_spec(line)[0], args: tokens_spec(line).drop_first() },
                ],
                input: None,
                output: None,
                is_async: false,
            },
        ),
{
    lemma_find_none(line, '<', 0);
    lemma_find_none(line, '>', 0);
    lemma_find_none(line, '|', 0);
    lemma_split_step(line, '|', 0);
    assert(line.subrange(0, line.len() as int) =~= line);
    let stages = stage_list(line);
    assert(stages =~= seq![trim_spec(line)]);
    lemma_trim(line);
    lemma_tokens_trim(line);
    lemma_tokens_nonempty(trim_spec(line));
    assert(!has_char(line, '&')) by {
        if has_char(line, '&') {
            let k = choose|k: int| 0 <= k < line.len() && line[k] == '&';
            assert(line[k] != '&');
        }
    }
    assert(cut_spec(line).0 == line);
    match parse_spec(line) {
        Ok(v) => {
            assert(v.cmds =~= seq![command_of(trim_spec(line))]);
            assert(command_of(trim_spec(line)) =~= (CommandView {
                cmd: tokens_spec(line)[0],
                args: tokens_spec(line).drop_first(),
            }));
            assert(v =~= (BatchView {
                cmds: seq![
                    CommandView { cmd: tokens_spec(line)[0], args: tokens_spec(line).drop_first() },
                ],
                input: None,
                output: None,
                is_async: false,
            }));
        },
        Err(_) => {
            assert(false);
        },
    }
}

/// A line holding exactly one pipe, no redirection operators, and a
/// non-blank stage on each side parses to exactly two commands, in
/// left-to-right textual order.
pub proof fn lemma_single_pipe(line: Seq<char>, p: int)
    requires
        0 <= p < line.len(),
        line[p] == '|',
        forall|k: int| 0 <= k < line.len() && k != p ==> (#[trigger] line[k]) != '|',
        forall|k: int| 0 <= k < line.len() ==> (#[trigger] line[k]) != '<' && line[k] != '>',
        trim_spec(line.subrange(0, p)).len() > 0,
        trim_spec(line.subrange(p + 1, line.len() as int)).len() > 0,
    ensures
        (match parse_spec(line) {
            Ok(b) => {
                &&& b.cmds.len() == 2
                &&& b.cmds[0] == command_of(trim_spec(line.subrange(0, p)))
                &&& b.cmds[1] == command_of(trim_spec(line.subrange(p + 1, line.len() as int)))
                &&& b.input is None
                &&& b.output is None
            },
            Err(_) => false,
        }),
{
    let n = line.len() as int;
    let left = line.subrange(0, p);
    let right = line.subrange(p + 1, n);
    lemma_find_none(line, '<', 0);
    lemma_find_none(line, '>', 0);
    assert(cut_spec(line).0 == line);
    lemma_find_at(line, '|', 0, p);
    lemma_split_step(line, '|', 0);
    lemma_find_none(line, '|', p + 1);
    lemma_split_step(line, '|', p + 1);
    let pieces = split_spec(line, '|');
    assert(pieces =~= seq![left, right]);
    lemma_trim(line);
    assert(trim_spec(line).len() > 0) by {
        assert(!is_shell_ws(line[p]));
    }
    let stages = stage_list(line);
    assert(stages =~= seq![trim_spec(left), trim_spec(right)]);
    match parse_spec(line) {
        Ok(b) => {
            assert(b.cmds =~= seq![
                command_of(trim_spec(left)),
                command_of(trim_spec(right)),
            ]);
        },
        Err(_) => {
            assert(false);
        },
    }
}

/// Operator-order independence: writing the input clause before the output
/// clause or after it gives the same parse, whatever the outcome is, as
/// long as neither the commands text nor the paths hold an operator
/// character.
pub proof fn lemma_redirect_order(sub: Seq<char>, inp: Seq<char>, outp: Seq<char>)
    requires
        forall|k: int| 0 <= k < sub.len() ==> (#[trigger] sub[k]) != '<' && sub[k] != '>',
        forall|k: int| 0 <= k < inp.len() ==> (#[trigger] inp[k]) != '<' && inp[k] != '>',
        forall|k: int| 0 <= k < outp.len() ==> (#[trigger] outp[k]) != '<' && outp[k] != '>',
    ensures
        parse_spec(sub + seq!['<'] + inp + seq!['>'] + outp) == parse_spec(
            sub + seq!['>'] + outp + seq!['<'] + inp,
        ),
{
    let line1 = sub + seq!['<'] + inp + seq!['>'] + outp;
    let line2 = sub + seq!['>'] + outp + seq!['<'] + inp;
    let i1 = sub.len() as int;
    let o1: int = sub.len() as int + 1 + inp.len() as int;
    let o2 = sub.len() as int;
    let i2: int = sub.len() as int + 1 + outp.len() as int;
    assert(line1[i1] == '<' && line1[o1] == '>');
    assert(line2[o2] == '>' && line2[i2] == '<');
    lemma_find_at(line1, '<', 0, i1);
    assert forall|k: int| 0 <= k < o1 implies line1[k] != '>' by {
        if k < sub.len() {
            assert(line1[k] == sub[k]);
        } else if k == i1 {
        } else {
            assert(line1[k] == inp[k - sub.len() - 1]);
        }
    }
    lemma_find_at(line1, '>', 0, o1);
    lemma_find_at(line2, '>', 0, o2);
    assert forall|k: int| 0 <= k < i2 implies line2[k] != '<' by {
        if k < sub.len() {
            assert(line2[k] == sub[k]);
        } else if k == o2 {
        } else {
            assert(line2[k] == outp[k - sub.len() - 1]);
        }
    }
    lemma_find_at(line2, '<', 0, i2);
    assert(first_pos(line1, '<') == Some(i1) && first_pos(line1, '>') == Some(o1));
    assert(first_pos(line2, '<') == Some(i2) && first_pos(line2, '>') == Some(o2));
    assert(line1.subrange(0, i1) =~= sub);
    assert(line2.subrange(0, o2) =~= sub);
    assert(line1.subrange(i1 + 1, o1) =~= inp);
    assert(line1.subrange(o1 + 1, line1.len() as int) =~= outp);
    assert(line2.subrange(o2 + 1, i2) =~= outp);
    assert(line2.subrange(i2 + 1, line2.len() as int) =~= inp);
    assert(cut_spec(line1) == cut_spec(line2));
    assert(!has_char(seq!['<'], '&')) by {
        if has_char(seq!['<'], '&') {
            let k = choose|k: int| 0 <= k < 1 && seq!['<'][k] == '&';
            assert(seq!['<'][0] == '<');
        }
    }
    assert(!has_char(seq!['>'], '&')) by {
        if has_char(seq!['>'], '&') {
            let k = choose|k: int| 0 <= k < 1 && seq!['>'][k] == '&';
            assert(seq!['>'][0] == '>');
        }
    }
    lemma_has_char_concat(sub + seq!['<'] + inp + seq!['>'], outp, '&');
    lemma_has_char_concat(sub + seq!['<'] + inp, seq!['>'], '&');
    lemma_has_char_concat(sub + seq!['<'], inp, '&');
    lemma_has_char_concat(sub, seq!['<'], '&');
    lemma_has_char_concat(sub + seq!['>'] + outp + seq!['<'], inp, '&');
    lemma_has_char_concat(sub + seq!['>'] + outp, seq!['<'], '&');
    lemma_has_char_concat(sub + seq!['>'], outp, '&');
    lemma_has_char_concat(sub, seq!['>'], '&');
    assert(has_char(line1, '&') == has_char(line2, '&'));
}

/// The command text a command denotes: its name and arguments joined by
/// single spaces.
pub open spec fn join_tokens(ts: Seq<Seq<char>>) -> Seq<char>
    decreases ts.len(),
{
    if ts.len() == 0 {
        Seq::empty()
    } else if ts.len() == 1 {
        ts[0]
    } else {
        ts[0] + seq![' '] + join_tokens(ts.drop_first())
    }
}

/// The shape of a join of well-formed tokens: it is non-empty, begins and
/// ends with non-whitespace, holds no operator character, and tokenizes
/// back to exactly the joined tokens.
pub proof fn lemma_join_tokens(ts: Seq<Seq<char>>)
    requires
        ts.len() > 0,
        forall|m: int| 0 <= m < ts.len() ==> wf_token(#[trigger] ts[m]),
    ensures
        join_tokens(ts).len() > 0,
        !is_shell_ws(join_tokens(ts)[0]),
        !is_shell_ws(join_tokens(ts)[join_tokens(ts).len() - 1]),
        forall|x: int|
            0 <= x < join_tokens(ts).len() ==> (#[trigger] join_tokens(ts)[x]) != '|'
                && join_tokens(ts)[x] != '<' && join_tokens(ts)[x] != '>',
        tokens_spec(join_tokens(ts)) == ts,
    decreases ts.len(),
{
    let j = join_tokens(ts);
    let t0 = ts[0];
    if ts.len() == 1 {
        lemma_token_step(j, 0, j.len() as int);
        assert(j.subrange(0, j.len() as int) =~= j);
        assert(tokens_spec(j) =~= ts);
    } else {
        lemma_join_tokens(ts.drop_first());
        let rest = join_tokens(ts.drop_first());
        assert(j == t0 + seq![' '] + rest);
        assert(j[t0.len() as int] == ' ');
        assert forall|x: int| 0 <= x < j.len() implies (#[trigger] j[x]) != '|' && j[x] != '<'
            && j[x] != '>' by {
            if x < t0.len() {
                assert(j[x] == t0[x]);
            } else if x == t0.len() {
            } else {
                assert(j[x] == rest[x - t0.len() - 1]);
            }
        }
        assert(j[j.len() - 1] == rest[rest.len() - 1]);
        assert forall|k: int| 0 <= k < t0.len() implies !is_shell_ws(j[k]) by {
            assert(j[k] == t0[k]);
        }
        lemma_token_step(j, 0, t0.len() as int);
        assert(j.subrange(0, t0.len() as int) =~= t0);
        lemma_tokens_suffix(j, t0.len() + 1 as int);
        assert(j.subrange(t0.len() + 1 as int, j.len() as int) =~= rest);
        assert(tokens_spec(j) =~= seq![t0] + ts.drop_first());
        assert(seq![t0] + ts.drop_first() =~= ts);
    }
}

/// Re-parsing the text of a well-formed command — its name and arguments
/// joined by single spaces — yields exactly that command, alone and with
/// both redirections absent.
pub proof fn lemma_reparse_command(c: CommandView)
    requires
        wf_command(c),
    ensures
        (match parse_spec(join_tokens(seq![c.cmd] + c.args)) {
            Ok(v) => v.cmds == seq![c] && v.input is None && v.output is None,
            Err(_) => false,
        }),
{
    let ts = seq![c.cmd] + c.args;
    assert forall|m: int| 0 <= m < ts.len() implies wf_token(#[trigger] ts[m]) by {
        if m == 0 {
            assert(ts[0] == c.cmd);
        } else {
            assert(ts[m] == c.args[m - 1]);
        }
    }
    lemma_join_tokens(ts);
    let j = join_tokens(ts);
    lemma_find_none(j, '<', 0);
    lemma_find_none(j, '>', 0);
    lemma_find_none(j, '|', 0);
    assert(cut_spec(j).0 == j);
    lemma_trim_noop(j);
    lemma_split_step(j, '|', 0);
    assert(j.subrange(0, j.len() as int) =~= j);
    let stages = stage_list(j);
    assert(stages =~= seq![j]);
    match parse_spec(j) {
        Ok(v) => {
            assert(v.cmds =~= seq![command_of(j)]);
            assert(command_of(j) =~= c) by {
                assert(tokens_spec(j) == ts);
                assert(ts[0] == c.cmd);
                assert(ts.drop_first() =~= c.args);
            }
        },
        Err(_) => {
            assert(false);
        },
    }
}

/// Idempotence of parsing command text: re-parsing the textual
/// reconstruction of any command of a successful parse — name and arguments
/// joined by single spaces — yields a pipeline holding exactly that
/// command, with both redirections absent.
pub proof fn lemma_reparse_parsed_command(line: Seq<char>, b: BatchView, k: int)
    requires
        parse_spec(line) == Ok::<BatchView, ParseError>(b),
        0 <= k < b.cmds.len(),
    ensures
        (match parse_spec(join_tokens(seq![b.cmds[k].cmd] + b.cmds[k].args)) {
            Ok(v) => v.cmds == seq![b.cmds[k]] && v.input is None && v.output is None,
            Err(_) => false,
        }),
{
    lemma_parse_wf(line, b);
    lemma_reparse_command(b.cmds[k]);
}

} // verus!
