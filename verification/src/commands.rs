//! The parser: groups a token stream into pipelines of simple commands.
//!
//! A pipeline is a non-empty list of simple commands joined by `|` or
//! `|&`; it ends at a command delimiter (`;`, `&`, newline, `&&`) or at
//! the end of the stream. Within a simple command, redirect operators
//! bind the following word as a file target, and every other word becomes
//! an argument. The whole grammar is written once as recursive
//! specification functions ([`parse_command_rest`], [`parse_pipeline`],
//! [`parse_next`]); the executable parser is proved to produce exactly
//! what they describe.

use vstd::prelude::*;
use crate::builtin_commands::{builtin_of, BuiltinCommand};
use crate::stream_target::{InStream, InStreamV, OutStream, OutStreamV, PipeReader, PipeWriter};
use crate::tokens::{
    is_delimiter_control_spec, token_is_delimiter, ControlOperator, Operator, RedirectOperator,
    Token, TokenV, Word, WordV,
};

verus! {

/// Why a line failed to parse.
#[derive(Debug, Clone, Copy, PartialEq, Eq, Structural)]
pub enum ParseError {
    /// A command name was required but the token there is an operator or
    /// a reserved word.
    NotASimpleWord,
    /// A redirect operator is not followed by a word usable as a path.
    ExpectedRedirectPath,
    /// A control operator whose semantics this shell does not implement
    /// (`(`, `)`, `||`, `;;`, `;&`, `;;&`).
    UnsupportedOperator,
    /// A `|` or `|&` with no command after it.
    MissingCommand,
}

impl ParseError {
    /// The message the shell prints for this error before it skips the
    /// rest of the input line.
    pub fn message(self) -> (r: &'static str)
        ensures
            r@ == match self {
                ParseError::NotASimpleWord => "a simple word is required as the command name"@,
                ParseError::ExpectedRedirectPath => "expected a path after redirect operator"@,
                ParseError::UnsupportedOperator => "operator not supported here"@,
                ParseError::MissingCommand => "expected a command after the pipe"@,
            },
    {
        match self {
            ParseError::NotASimpleWord => "a simple word is required as the command name",
            ParseError::ExpectedRedirectPath => "expected a path after redirect operator",
            ParseError::UnsupportedOperator => "operator not supported here",
            ParseError::MissingCommand => "expected a command after the pipe",
        }
    }
}

/// Where a command is found when it runs: inside the shell, or at a path
/// handed to the operating system.
#[derive(Debug, Clone, PartialEq, Eq)]
pub enum CommandLocation {
    Builtin(BuiltinCommand),
    External(String),
}

/// Mathematical model of a [`CommandLocation`].
pub enum CommandLocationV {
    Builtin(BuiltinCommand),
    External(Seq<char>),
}

impl View for CommandLocation {
    type V = CommandLocationV;

    open spec fn view(&self) -> CommandLocationV {
        match self {
            CommandLocation::Builtin(b) => CommandLocationV::Builtin(*b),
            CommandLocation::External(p) => CommandLocationV::External(p@),
        }
    }
}

/// One command name with its arguments and its three stream targets.
#[derive(Debug)]
pub struct SimpleCommand {
    pub location: CommandLocation,
    pub args: Vec<Token>,
    pub stdin: InStream,
    pub stdout: OutStream,
    pub stderr: OutStream,
}

/// Mathematical model of a [`SimpleCommand`].
pub struct SimpleCommandV {
    pub location: CommandLocationV,
    pub args: Seq<TokenV>,
    pub stdin: InStreamV,
    pub stdout: OutStreamV,
    pub stderr: OutStreamV,
}

impl View for SimpleCommand {
    type V = SimpleCommandV;

    open spec fn view(&self) -> SimpleCommandV {
        SimpleCommandV {
            location: self.location@,
            args: crate::lexer::views_of(self.args@),
            stdin: self.stdin@,
            stdout: self.stdout@,
            stderr: self.stderr@,
        }
    }
}

/// A non-empty list of simple commands joined by `|` or `|&`.
#[derive(Debug)]
pub struct Pipeline {
    pub inner: Vec<SimpleCommand>,
}

impl View for Pipeline {
    type V = Seq<SimpleCommandV>;

    open spec fn view(&self) -> Seq<SimpleCommandV> {
        self.inner@.map_values(|c: SimpleCommand| c@)
    }
}

/// How a simple command's token run ended.
#[derive(Debug, Clone, Copy, PartialEq, Eq, Structural)]
pub enum CmdEnd {
    /// The token stream is exhausted.
    Finished,
    /// A command delimiter was consumed.
    Delimited,
    /// A `|` (or, with `both`, a `|&`) was consumed: another command
    /// follows in the same pipeline.
    Piped { both: bool },
}

// ---------------------------------------------------------------------
// The grammar, as specification functions.
// ---------------------------------------------------------------------

/// The dispatch target a command name denotes: a built-in when the name
/// matches one, otherwise an external program at that (relative or
/// absolute) path.
pub open spec fn location_of(name: Seq<char>) -> CommandLocationV {
    match builtin_of(name) {
        Some(b) => CommandLocationV::Builtin(b),
        None => CommandLocationV::External(name),
    }
}

/// A redirect applied to the current stream targets. The reserved `<`
/// binds stdin to a file, except that it never unwires a pipe the
/// pipeline already connected; `>`-forms bind stdout and `2>`-forms
/// stderr, with the append bit per the operator. The last redirect for a
/// stream wins.
pub open spec fn apply_redirect(
    r: RedirectOperator,
    path: Seq<char>,
    sin: InStreamV,
    sout: OutStreamV,
    serr: OutStreamV,
) -> (InStreamV, OutStreamV, OutStreamV) {
    match r {
        RedirectOperator::RStdin => {
            if sin is Pipe {
                (sin, sout, serr)
            } else {
                (InStreamV::File(path), sout, serr)
            }
        },
        RedirectOperator::RStdout => (sin, OutStreamV::File { path, append: false }, serr),
        RedirectOperator::AppendStdout => (sin, OutStreamV::File { path, append: true }, serr),
        RedirectOperator::RStderr => (sin, sout, OutStreamV::File { path, append: false }),
        RedirectOperator::AppendStderr => (sin, sout, OutStreamV::File { path, append: true }),
    }
}

/// Parses the remainder of one simple command, after its name: arguments
/// accumulate until a control or redirect operator; a redirect consumes
/// the following word as its path; `|`, `|&`, a delimiter or the end of
/// the stream closes the command. Returns the command (or the error) and
/// the position after what was consumed.
pub open spec fn parse_command_rest(
    ts: Seq<TokenV>,
    j: int,
    loc: CommandLocationV,
    args: Seq<TokenV>,
    sin: InStreamV,
    sout: OutStreamV,
    serr: OutStreamV,
) -> (Result<(SimpleCommandV, CmdEnd), ParseError>, int)
    decreases ts.len() - j,
{
    if j >= ts.len() {
        (
            Ok(
                (
                    SimpleCommandV { location: loc, args, stdin: sin, stdout: sout, stderr: serr },
                    CmdEnd::Finished,
                ),
            ),
            j,
        )
    } else {
        match ts[j] {
            TokenV::Operator(Operator::Control(c)) => {
                if is_delimiter_control_spec(c) {
                    (
                        Ok(
                            (
                                SimpleCommandV {
                                    location: loc,
                                    args,
                                    stdin: sin,
                                    stdout: sout,
                                    stderr: serr,
                                },
                                CmdEnd::Delimited,
                            ),
                        ),
                        j + 1,
                    )
                } else if c is Pipe {
                    (
                        Ok(
                            (
                                SimpleCommandV {
                                    location: loc,
                                    args,
                                    stdin: sin,
                                    stdout: sout,
                                    stderr: serr,
                                },
                                CmdEnd::Piped { both: false },
                            ),
                        ),
                        j + 1,
                    )
                } else if c is PipeAmp {
                    (
                        Ok(
                            (
                                SimpleCommandV {
                                    location: loc,
                                    args,
                                    stdin: sin,
                                    stdout: sout,
                                    stderr: serr,
                                },
                                CmdEnd::Piped { both: true },
                            ),
                        ),
                        j + 1,
                    )
                } else {
                    (Err(ParseError::UnsupportedOperator), j + 1)
                }
            },
            TokenV::Operator(Operator::Redirect(r)) => {
                if j + 1 >= ts.len() {
                    (Err(ParseError::ExpectedRedirectPath), j + 1)
                } else {
                    match ts[j + 1] {
                        TokenV::Word(WordV::Simple(path)) => {
                            let wired = apply_redirect(r, path, sin, sout, serr);
                            parse_command_rest(ts, j + 2, loc, args, wired.0, wired.1, wired.2)
                        },
                        _ => (Err(ParseError::ExpectedRedirectPath), j + 2),
                    }
                }
            },
            TokenV::Word(_) => parse_command_rest(ts, j + 1, loc, args.push(ts[j]), sin, sout, serr),
        }
    }
}

/// Parses one simple command starting at `i`, whose stdin starts wired to
/// `sin0`. The first token must be a simple word: it names the command.
pub open spec fn parse_command(ts: Seq<TokenV>, i: int, sin0: InStreamV) -> (
    Result<(SimpleCommandV, CmdEnd), ParseError>,
    int,
) {
    if i >= ts.len() {
        (Err(ParseError::MissingCommand), i)
    } else {
        match ts[i] {
            TokenV::Word(WordV::Simple(name)) => parse_command_rest(
                ts,
                i + 1,
                location_of(name),
                Seq::empty(),
                sin0,
                OutStreamV::Std,
                OutStreamV::Std,
            ),
            _ => (Err(ParseError::NotASimpleWord), i + 1),
        }
    }
}

/// Consuming a command run moves forward, never past the end.
proof fn lemma_parse_command_rest_pos(
    ts: Seq<TokenV>,
    j: int,
    loc: CommandLocationV,
    args: Seq<TokenV>,
    sin: InStreamV,
    sout: OutStreamV,
    serr: OutStreamV,
)
    requires
        j <= ts.len(),
    ensures
        j <= parse_command_rest(ts, j, loc, args, sin, sout, serr).1 <= ts.len(),
    decreases ts.len() - j,
{
    if j < ts.len() {
        match ts[j] {
            TokenV::Operator(Operator::Redirect(r)) => {
                if j + 1 < ts.len() {
                    match ts[j + 1] {
                        TokenV::Word(WordV::Simple(path)) => {
                            let wired = apply_redirect(r, path, sin, sout, serr);
                            lemma_parse_command_rest_pos(
                                ts,
                                j + 2,
                                loc,
                                args,
                                wired.0,
                                wired.1,
                                wired.2,
                            );
                        },
                        _ => {},
                    }
                }
            },
            TokenV::Word(_) => {
                lemma_parse_command_rest_pos(ts, j + 1, loc, args.push(ts[j]), sin, sout, serr);
            },
            _ => {},
        }
    }
}

/// Parsing one command moves forward, never past the end, and strictly
/// forward when it succeeds.
proof fn lemma_parse_command_pos(ts: Seq<TokenV>, i: int, sin0: InStreamV)
    requires
        i <= ts.len(),
    ensures
        i <= parse_command(ts, i, sin0).1 <= ts.len(),
        parse_command(ts, i, sin0).0 is Ok ==> parse_command(ts, i, sin0).1 > i,
{
    if i < ts.len() {
        match ts[i] {
            TokenV::Word(WordV::Simple(name)) => {
                lemma_parse_command_rest_pos(
                    ts,
                    i + 1,
                    location_of(name),
                    Seq::empty(),
                    sin0,
                    OutStreamV::Std,
                    OutStreamV::Std,
                );
            },
            _ => {},
        }
    }
}

/// The stdin a stage of a pipeline starts with: the shell's own stdin for
/// the first stage, and the read end of pipe `k - 1` for stage `k`.
pub open spec fn stage_stdin(k: int) -> InStreamV {
    if k == 0 {
        InStreamV::Std
    } else {
        InStreamV::Pipe(k - 1)
    }
}

/// Parses the rest of a pipeline whose first `k` stages are already in
/// `acc`. Each `|` boundary wires the closed command's stdout (and, for
/// `|&`, stderr) to the write end of a fresh pipe whose read end becomes
/// the next command's stdin.
pub open spec fn parse_pipeline(ts: Seq<TokenV>, i: int, k: int, acc: Seq<SimpleCommandV>) -> (
    Result<Seq<SimpleCommandV>, ParseError>,
    int,
)
    decreases ts.len() - i,
        when 0 <= i <= ts.len() via parse_pipeline_dec
{
    let r = parse_command(ts, i, stage_stdin(k));
    match r.0 {
        Err(e) => (Err(e), r.1),
        Ok((cmd, end)) => match end {
            CmdEnd::Piped { both } => {
                let wired = SimpleCommandV {
                    stdout: OutStreamV::Pipe(k),
                    stderr: if both {
                        OutStreamV::Pipe(k)
                    } else {
                        cmd.stderr
                    },
                    ..cmd
                };
                parse_pipeline(ts, r.1, k + 1, acc.push(wired))
            },
            _ => (Ok(acc.push(cmd)), r.1),
        },
    }
}

#[via_fn]
proof fn parse_pipeline_dec(ts: Seq<TokenV>, i: int, k: int, acc: Seq<SimpleCommandV>) {
    lemma_parse_command_pos(ts, i, stage_stdin(k));
}

/// The position of the first token from `i` on that is not a command
/// delimiter.
pub open spec fn skip_delims(ts: Seq<TokenV>, i: int) -> int
    decreases ts.len() - i,
{
    if i < ts.len() && token_is_delimiter(ts[i]) {
        skip_delims(ts, i + 1)
    } else {
        i
    }
}

proof fn lemma_skip_delims_pos(ts: Seq<TokenV>, i: int)
    requires
        i <= ts.len(),
    ensures
        i <= skip_delims(ts, i) <= ts.len(),
    decreases ts.len() - i,
{
    if i < ts.len() && token_is_delimiter(ts[i]) {
        lemma_skip_delims_pos(ts, i + 1);
    }
}

/// What one step of the pipeline stream yields, reading at `i`: nothing
/// when only delimiters remain, otherwise the next pipeline or the error
/// that stops the line. The second component is the position to resume
/// at.
pub open spec fn parse_next(ts: Seq<TokenV>, i: int) -> (
    Option<Result<Seq<SimpleCommandV>, ParseError>>,
    int,
) {
    let j = skip_delims(ts, i);
    if j >= ts.len() {
        (None, j)
    } else {
        let r = parse_pipeline(ts, j, 0, Seq::empty());
        (Some(r.0), r.1)
    }
}

// ---------------------------------------------------------------------
// Parser framing: what holds of every pipeline the parser yields.
// ---------------------------------------------------------------------

/// Whether every entry of `args` is a word token.
pub open spec fn args_all_words(args: Seq<TokenV>) -> bool {
    forall|t: int| 0 <= t < args.len() ==> args[t] is Word
}

/// What holds of stage `k` of a well-formed pipeline: the first stage's
/// stdin is no pipe, stage `k > 0` reads from pipe `k - 1`, every stage
/// but the last writes to pipe `k`, the last stage's stdout is no pipe,
/// stderr joins at most the stage's own pipe, and the arguments are all
/// words.
pub open spec fn stage_wf(pv: Seq<SimpleCommandV>, k: int) -> bool {
    &&& (k == 0 ==> !(pv[k].stdin is Pipe))
    &&& (k > 0 ==> pv[k].stdin == InStreamV::Pipe(k - 1))
    &&& (k < pv.len() - 1 ==> pv[k].stdout == OutStreamV::Pipe(k))
    &&& (k == pv.len() - 1 ==> !(pv[k].stdout is Pipe))
    &&& (pv[k].stderr is Pipe ==> k < pv.len() - 1 && pv[k].stderr == OutStreamV::Pipe(k))
    &&& args_all_words(pv[k].args)
}

/// Pipeline framing: the pipeline is non-empty, and adjacent stages share
/// exactly one pipe — stage `k` writes pipe `k`, stage `k + 1` reads it —
/// so intermediate stages' stdin and stdout are never inherited.
pub open spec fn pipeline_wf(pv: Seq<SimpleCommandV>) -> bool {
    &&& pv.len() >= 1
    &&& forall|k: int| 0 <= k < pv.len() ==> #[trigger] stage_wf(pv, k)
}

/// What one parsed command looks like: its stdin is the one it was given
/// (when that is a pipe) and never a pipe otherwise, its stdout and
/// stderr are no pipes, and its arguments are all words.
pub open spec fn command_shape(cmd: SimpleCommandV, sin0: InStreamV) -> bool {
    &&& (sin0 is Pipe ==> cmd.stdin == sin0)
    &&& (!(sin0 is Pipe) ==> !(cmd.stdin is Pipe))
    &&& !(cmd.stdout is Pipe)
    &&& !(cmd.stderr is Pipe)
    &&& args_all_words(cmd.args)
}

proof fn lemma_parse_command_rest_shape(
    ts: Seq<TokenV>,
    j: int,
    loc: CommandLocationV,
    args: Seq<TokenV>,
    sin: InStreamV,
    sout: OutStreamV,
    serr: OutStreamV,
)
    requires
        j <= ts.len(),
        !(sout is Pipe),
        !(serr is Pipe),
        args_all_words(args),
    ensures
        parse_command_rest(ts, j, loc, args, sin, sout, serr).0 matches Ok(ce)
            ==> command_shape(ce.0, sin),
    decreases ts.len() - j,
{
    if j < ts.len() {
        match ts[j] {
            TokenV::Operator(Operator::Redirect(r)) => {
                if j + 1 < ts.len() {
                    match ts[j + 1] {
                        TokenV::Word(WordV::Simple(path)) => {
                            let wired = apply_redirect(r, path, sin, sout, serr);
                            lemma_parse_command_rest_shape(
                                ts,
                                j + 2,
                                loc,
                                args,
                                wired.0,
                                wired.1,
                                wired.2,
                            );
                        },
                        _ => {},
                    }
                }
            },
            TokenV::Word(_) => {
                assert(args_all_words(args.push(ts[j])));
                lemma_parse_command_rest_shape(ts, j + 1, loc, args.push(ts[j]), sin, sout, serr);
            },
            _ => {},
        }
    }
}

proof fn lemma_parse_command_shape(ts: Seq<TokenV>, i: int, sin0: InStreamV)
    requires
        i <= ts.len(),
    ensures
        parse_command(ts, i, sin0).0 matches Ok(ce) ==> command_shape(ce.0, sin0),
{
    if i < ts.len() {
        match ts[i] {
            TokenV::Word(WordV::Simple(name)) => {
                assert(args_all_words(Seq::<TokenV>::empty()));
                lemma_parse_command_rest_shape(
                    ts,
                    i + 1,
                    location_of(name),
                    Seq::empty(),
                    sin0,
                    OutStreamV::Std,
                    OutStreamV::Std,
                );
            },
            _ => {},
        }
    }
}

/// What holds of each already-closed stage while a pipeline is still
/// being parsed: every one of them writes its own pipe.
pub open spec fn piped_prefix_wf(acc: Seq<SimpleCommandV>) -> bool {
    forall|k: int|
        0 <= k < acc.len() ==> {
            &&& (k == 0 ==> !((#[trigger] acc[k]).stdin is Pipe))
            &&& (k > 0 ==> acc[k].stdin == InStreamV::Pipe(k - 1))
            &&& acc[k].stdout == OutStreamV::Pipe(k)
            &&& (acc[k].stderr is Pipe ==> acc[k].stderr == OutStreamV::Pipe(k))
            &&& args_all_words(acc[k].args)
        }
}

proof fn lemma_parse_pipeline_wf(ts: Seq<TokenV>, i: int, k: int, acc: Seq<SimpleCommandV>)
    requires
        0 <= i <= ts.len(),
        k == acc.len(),
        piped_prefix_wf(acc),
    ensures
        parse_pipeline(ts, i, k, acc).0 matches Ok(pv) ==> pipeline_wf(pv),
    decreases ts.len() - i,
{
    let r = parse_command(ts, i, stage_stdin(k));
    lemma_parse_command_pos(ts, i, stage_stdin(k));
    lemma_parse_command_shape(ts, i, stage_stdin(k));
    match r.0 {
        Err(e) => {},
        Ok((cmd, end)) => {
            match end {
                CmdEnd::Piped { both } => {
                    let wired = SimpleCommandV {
                        stdout: OutStreamV::Pipe(k),
                        stderr: if both {
                            OutStreamV::Pipe(k)
                        } else {
                            cmd.stderr
                        },
                        ..cmd
                    };
                    assert(piped_prefix_wf(acc.push(wired)));
                    lemma_parse_pipeline_wf(ts, r.1, k + 1, acc.push(wired));
                },
                _ => {
                    let pv = acc.push(cmd);
                    assert forall|kk: int| 0 <= kk < pv.len() implies #[trigger] stage_wf(
                        pv,
                        kk,
                    ) by {
                        if kk < k {
                            assert(pv[kk] == acc[kk]);
                        } else {
                            assert(pv[kk] == cmd);
                        }
                    }
                    assert(pipeline_wf(pv));
                },
            }
        },
    }
}

/// Parser framing: whenever the parser yields a pipeline, that pipeline
/// is non-empty, each command's arguments are all words, and adjacent
/// stages share exactly one pipe — stage `k`'s stdout is the write end of
/// pipe `k`, whose read end is stage `k + 1`'s stdin; no other stream of
/// the pipeline touches that pipe.
pub proof fn lemma_parser_framing(ts: Seq<TokenV>, i: int)
    requires
        0 <= i <= ts.len(),
    ensures
        parse_next(ts, i).0 matches Some(Ok(pv)) ==> pipeline_wf(pv),
{
    lemma_skip_delims_pos(ts, i);
    let j = skip_delims(ts, i);
    if j < ts.len() {
        assert(piped_prefix_wf(Seq::<SimpleCommandV>::empty()));
        lemma_parse_pipeline_wf(ts, j, 0, Seq::empty());
    }
}

// ---------------------------------------------------------------------
// The executable parser.
// ---------------------------------------------------------------------

/// Parses one simple command of `tokens` starting at `pos`, with its
/// stdin initially wired to `sin0`. Returns what [`parse_command`] gives
/// and the position after what was consumed.
pub fn parse_one_command(tokens: &Vec<Token>, pos: usize, sin0: InStream) -> (r: (
    Result<(SimpleCommand, CmdEnd), ParseError>,
    usize,
))
    requires
        pos <= tokens@.len(),
    ensures
        ({
            let s = parse_command(crate::lexer::views_of(tokens@), pos as int, sin0@);
            &&& r.1 as int == s.1
            &&& pos <= r.1 <= tokens@.len()
            &&& match r.0 {
                Ok(ce) => s.0 matches Ok(sv) && ce.0@ == sv.0 && ce.1 == sv.1,
                Err(e) => s.0 matches Err(e2) && e == e2,
            }
            &&& r.0 is Ok ==> r.1 > pos
        }),
{
    let ghost ts = crate::lexer::views_of(tokens@);
    proof {
        lemma_parse_command_pos(ts, pos as int, sin0@);
    }
    let n = tokens.len();
    if pos >= n {
        return (Err(ParseError::MissingCommand), pos);
    }
    let location: CommandLocation = match &tokens[pos] {
        Token::Word(Word::SimpleWord(name)) => {
            match crate::builtin_commands::BuiltinCommand::parse(name.as_str()) {
                Some(b) => CommandLocation::Builtin(b),
                None => CommandLocation::External(name.clone()),
            }
        },
        _ => {
            return (Err(ParseError::NotASimpleWord), pos + 1);
        },
    };
    let ghost target = parse_command(ts, pos as int, sin0@);
    let mut j: usize = pos + 1;
    let mut args: Vec<Token> = Vec::new();
    let mut sin = sin0;
    let mut sout = OutStream::Std;
    let mut serr = OutStream::Std;
    let mut err: Option<ParseError> = None;
    let mut end = CmdEnd::Finished;
    let mut done = false;
    proof {
        assert(target == parse_command_rest(
            ts,
            pos + 1,
            location@,
            Seq::empty(),
            sin0@,
            OutStreamV::Std,
            OutStreamV::Std,
        ));
        assert(crate::lexer::views_of(args@) =~= Seq::<TokenV>::empty());
    }
    while !done
        invariant
            pos + 1 <= j <= tokens@.len(),
            n == tokens@.len(),
            ts == crate::lexer::views_of(tokens@),
            !done ==> end is Finished,
            !done ==> err is None && target == parse_command_rest(
                ts,
                j as int,
                location@,
                crate::lexer::views_of(args@),
                sin@,
                sout@,
                serr@,
            ),
            done ==> target.1 == j as int && match err {
                Some(e) => target.0 == Result::<(SimpleCommandV, CmdEnd), ParseError>::Err(e),
                None => target.0 matches Ok(sv) && sv.0 == (SimpleCommandV {
                    location: location@,
                    args: crate::lexer::views_of(args@),
                    stdin: sin@,
                    stdout: sout@,
                    stderr: serr@,
                }) && sv.1 == end,
            },
        decreases tokens@.len() - j + (if done { 0int } else { 1int }),
    {
        let ghost j0 = j as int;
        let ghost args0 = crate::lexer::views_of(args@);
        let ghost sin_0 = sin@;
        let ghost sout_0 = sout@;
        let ghost serr_0 = serr@;
        if j >= n {
            done = true;
        } else {
            proof {
                assert(ts[j0] == tokens@[j0]@);
            }
            match &tokens[j] {
                Token::Operator(Operator::Control(c)) => {
                    let c = *c;
                    j = j + 1;
                    if crate::tokens::is_delimiter_control(c) {
                        end = CmdEnd::Delimited;
                    } else if matches!(c, ControlOperator::Pipe) {
                        end = CmdEnd::Piped { both: false };
                    } else if matches!(c, ControlOperator::PipeAmp) {
                        end = CmdEnd::Piped { both: true };
                    } else {
                        err = Some(ParseError::UnsupportedOperator);
                    }
                    done = true;
                },
                Token::Operator(Operator::Redirect(rd)) => {
                    let rd = *rd;
                    if j + 1 >= n {
                        j = j + 1;
                        err = Some(ParseError::ExpectedRedirectPath);
                        done = true;
                    } else {
                        proof {
                            assert(ts[j0 + 1] == tokens@[j0 + 1]@);
                        }
                        let mut got_path: Option<String> = None;
                        match &tokens[j + 1] {
                            Token::Word(Word::SimpleWord(p)) => {
                                got_path = Some(p.clone());
                            },
                            _ => {
                            },
                        }
                        match got_path {
                            Some(path) => {
                                let ghost pathv = path@;
                                match rd {
                                    RedirectOperator::RStdin => {
                                        if !matches!(sin, InStream::PipeReader(_)) {
                                            sin = InStream::File(path);
                                        }
                                    },
                                    RedirectOperator::RStdout => {
                                        sout = OutStream::File { path, append: false };
                                    },
                                    RedirectOperator::AppendStdout => {
                                        sout = OutStream::File { path, append: true };
                                    },
                                    RedirectOperator::RStderr => {
                                        serr = OutStream::File { path, append: false };
                                    },
                                    RedirectOperator::AppendStderr => {
                                        serr = OutStream::File { path, append: true };
                                    },
                                }
                                j = j + 2;
                                proof {
                                    assert((sin@, sout@, serr@) == apply_redirect(
                                        rd,
                                        pathv,
                                        sin_0,
                                        sout_0,
                                        serr_0,
                                    ));
                                }
                            },
                            None => {
                                j = j + 2;
                                err = Some(ParseError::ExpectedRedirectPath);
                                done = true;
                            },
                        }
                    }
                },
                Token::Word(_) => {
                    let t = tokens[j].duplicate();
                    args.push(t);
                    j = j + 1;
                    proof {
                        assert(crate::lexer::views_of(args@) =~= args0.push(ts[j0]));
                    }
                },
            }
        }
    }
    match err {
        Some(e) => (Err(e), j),
        None => {
            let cmd = SimpleCommand { location, args, stdin: sin, stdout: sout, stderr: serr };
            (Ok((cmd, end)), j)
        },
    }
}

/// What collecting up to the first redirect operator yields: the tokens
/// before it, and that operator if one is there.
pub open spec fn collect_until_redir_spec(ts: Seq<TokenV>, i: int, acc: Seq<TokenV>) -> (
    Seq<TokenV>,
    Option<RedirectOperator>,
)
    decreases ts.len() - i,
{
    if i >= ts.len() {
        (acc, None)
    } else {
        match ts[i] {
            TokenV::Operator(Operator::Redirect(r)) => (acc, Some(r)),
            _ => collect_until_redir_spec(ts, i + 1, acc.push(ts[i])),
        }
    }
}

/// Collects the tokens from `start` up to (and not counting) the first
/// redirect operator, and returns that operator if one appears.
pub fn collect_until_redir(tokens: &Vec<Token>, start: usize) -> (r: (
    Vec<Token>,
    Option<RedirectOperator>,
))
    requires
        start <= tokens@.len(),
    ensures
        (crate::lexer::views_of(r.0@), r.1) == collect_until_redir_spec(
            crate::lexer::views_of(tokens@),
            start as int,
            Seq::empty(),
        ),
{
    let ghost ts = crate::lexer::views_of(tokens@);
    let ghost target = collect_until_redir_spec(ts, start as int, Seq::empty());
    let n = tokens.len();
    let mut collector: Vec<Token> = Vec::new();
    let mut i: usize = start;
    let mut found: Option<RedirectOperator> = None;
    let mut done = false;
    proof {
        assert(crate::lexer::views_of(collector@) =~= Seq::<TokenV>::empty());
    }
    while !done
        invariant
            start <= i <= tokens@.len(),
            n == tokens@.len(),
            ts == crate::lexer::views_of(tokens@),
            !done ==> found is None && target == collect_until_redir_spec(
                ts,
                i as int,
                crate::lexer::views_of(collector@),
            ),
            done ==> target == (crate::lexer::views_of(collector@), found),
        decreases tokens@.len() - i + (if done { 0int } else { 1int }),
    {
        let ghost acc0 = crate::lexer::views_of(collector@);
        let ghost i0 = i as int;
        if i >= n {
            done = true;
        } else {
            proof {
                assert(ts[i0] == tokens@[i0]@);
            }
            match &tokens[i] {
                Token::Operator(Operator::Redirect(r)) => {
                    found = Some(*r);
                    done = true;
                },
                _ => {
                    let t = tokens[i].duplicate();
                    collector.push(t);
                    i = i + 1;
                    proof {
                        assert(crate::lexer::views_of(collector@) =~= acc0.push(ts[i0]));
                    }
                },
            }
        }
    }
    (collector, found)
}

/// The exit status a stage reports when its external program is not
/// found.
pub const NOT_FOUND_STATUS: i32 = 127;

/// The status of a finished pipeline: the last stage's status, or
/// success for an empty status list.
pub open spec fn last_status_spec(statuses: Seq<i32>) -> i32 {
    if statuses.len() == 0 {
        0
    } else {
        statuses.last()
    }
}

/// The exit status of a whole pipeline, given the statuses of its stages
/// in spawn order: the last stage's status.
pub fn pipeline_status(statuses: &Vec<i32>) -> (r: i32)
    ensures
        r == last_status_spec(statuses@),
{
    if statuses.len() == 0 {
        0
    } else {
        statuses[statuses.len() - 1]
    }
}

/// The message printed when an external command cannot be found; the
/// stage then exits with [`NOT_FOUND_STATUS`].
pub fn not_found_message(name: &str) -> (r: String)
    ensures
        r@ == name@ + ": command not found\n"@,
{
    let s = String::from_str(name);
    s.concat(": command not found\n")
}

/// The lazy stream of pipelines of one input line: the line's tokens and
/// the position the next call will read from.
pub struct CommandStream {
    pub tokens: Vec<Token>,
    pub pos: usize,
}

impl CommandStream {
    /// Lexes a whole input line into a pipeline stream.
    pub fn new(input: &str) -> (s: CommandStream)
        ensures
            crate::lexer::views_of(s.tokens@) == crate::lexer::lex_spec(input@, 0),
            s.pos == 0,
            s.pos <= s.tokens@.len(),
    {
        CommandStream { tokens: crate::lexer::lex(input), pos: 0 }
    }

    /// Yields the next pipeline of the line, the error that stops the
    /// line, or nothing once only delimiters remain: exactly what
    /// [`parse_next`] describes at the current position.
    pub fn next(&mut self) -> (r: Option<Result<Pipeline, ParseError>>)
        requires
            old(self).pos <= old(self).tokens@.len(),
        ensures
            final(self).tokens == old(self).tokens,
            final(self).pos <= final(self).tokens@.len(),
            ({
                let s = parse_next(
                    crate::lexer::views_of(old(self).tokens@),
                    old(self).pos as int,
                );
                &&& final(self).pos as int == s.1
                &&& match r {
                    None => s.0 is None,
                    Some(Ok(p)) => s.0 matches Some(Ok(pv)) && p@ == pv,
                    Some(Err(e)) => s.0 matches Some(Err(e2)) && e == e2,
                }
            }),
    {
        let ghost ts = crate::lexer::views_of(self.tokens@);
        let ghost p00 = self.pos as int;
        let n = self.tokens.len();
        while self.pos < n && self.tokens[self.pos].is_command_delimiter()
            invariant
                self.tokens == old(self).tokens,
                n == self.tokens@.len(),
                ts == crate::lexer::views_of(self.tokens@),
                p00 <= self.pos as int <= self.tokens@.len(),
                skip_delims(ts, p00) == skip_delims(ts, self.pos as int),
            decreases self.tokens@.len() - self.pos,
        {
            self.pos = self.pos + 1;
        }
        proof {
            assert(skip_delims(ts, self.pos as int) == self.pos as int);
        }
        if self.pos >= n {
            return None;
        }
        let ghost j0 = self.pos as int;
        let ghost target = parse_pipeline(ts, j0, 0, Seq::empty());
        let mut cmds: Vec<SimpleCommand> = Vec::new();
        let mut k: usize = 0;
        let mut failed: Option<ParseError> = None;
        let mut done = false;
        proof {
            assert(Seq::<SimpleCommandV>::empty() =~= cmds@.map_values(|c: SimpleCommand| c@));
        }
        while !done
            invariant
                self.tokens == old(self).tokens,
                n == self.tokens@.len(),
                ts == crate::lexer::views_of(self.tokens@),
                !done ==> k == cmds@.len(),
                k as int <= self.pos as int <= self.tokens@.len(),
                !done ==> failed is None && target == parse_pipeline(
                    ts,
                    self.pos as int,
                    k as int,
                    cmds@.map_values(|c: SimpleCommand| c@),
                ),
                done ==> target.1 == self.pos as int && match failed {
                    Some(e) => target.0 == Result::<Seq<SimpleCommandV>, ParseError>::Err(e),
                    None => target.0 == Result::<Seq<SimpleCommandV>, ParseError>::Ok(
                        cmds@.map_values(|c: SimpleCommand| c@),
                    ),
                },
            decreases self.tokens@.len() - self.pos + (if done { 0int } else { 1int }),
        {
            let ghost p0 = self.pos as int;
            let ghost cmds0 = cmds@.map_values(|c: SimpleCommand| c@);
            let sin0 = if k == 0 {
                InStream::Std
            } else {
                InStream::PipeReader(PipeReader { pipe: k - 1 })
            };
            proof {
                assert(sin0@ == stage_stdin(k as int));
            }
            let (res, j2) = parse_one_command(&self.tokens, self.pos, sin0);
            self.pos = j2;
            match res {
                Err(e) => {
                    failed = Some(e);
                    done = true;
                },
                Ok((cmd, endk)) => {
                    match endk {
                        CmdEnd::Piped { both } => {
                            let mut cmd = cmd;
                            cmd.stdout = OutStream::PipeWriter(PipeWriter { pipe: k });
                            if both {
                                cmd.stderr = OutStream::PipeWriter(PipeWriter { pipe: k });
                            }
                            let ghost wired = cmd@;
                            cmds.push(cmd);
                            k = k + 1;
                            proof {
                                assert(cmds@.map_values(|c: SimpleCommand| c@) =~= cmds0.push(
                                    wired,
                                ));
                            }
                        },
                        _ => {
                            let ghost cv = cmd@;
                            cmds.push(cmd);
                            done = true;
                            proof {
                                assert(cmds@.map_values(|c: SimpleCommand| c@) =~= cmds0.push(cv));
                            }
                        },
                    }
                },
            }
        }
        match failed {
            Some(e) => Some(Err(e)),
            None => Some(Ok(Pipeline { inner: cmds })),
        }
    }
}

} // verus!
