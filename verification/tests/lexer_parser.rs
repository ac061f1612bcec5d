use seashell::commands::{CmdEnd, CommandLocation, CommandStream, ParseError};
use seashell::lexer::lex;
use seashell::stream_target::{InStream, OutStream, PipeReader, PipeWriter};
use seashell::tokens::{ControlOperator, Operator, RedirectOperator, ReservedWord, Token, Word};

fn word(s: &str) -> Token {
    Token::Word(Word::SimpleWord(s.to_string()))
}

fn control(c: ControlOperator) -> Token {
    Token::Operator(Operator::Control(c))
}

fn redirect(r: RedirectOperator) -> Token {
    Token::Operator(Operator::Redirect(r))
}

#[test]
fn lex_plain_words() {
    assert_eq!(lex("echo hello world"), vec![word("echo"), word("hello"), word("world")]);
}

#[test]
fn lex_collapses_blanks_and_tabs() {
    assert_eq!(lex("  a \t b  "), vec![word("a"), word("b")]);
}

#[test]
fn lex_empty_line_is_empty() {
    assert_eq!(lex(""), Vec::<Token>::new());
    assert_eq!(lex("   \t "), Vec::<Token>::new());
}

#[test]
fn lex_single_quotes_keep_blanks() {
    assert_eq!(lex("echo 'a  b'"), vec![word("echo"), word("a  b")]);
}

#[test]
fn lex_concatenated_quoted_runs_form_one_token() {
    // Quoted runs and a backslash-escaped blank form a single word.
    assert_eq!(lex("echo 'a  b'\"  c\"\\ d"), vec![word("echo"), word("a  b  c d")]);
}

#[test]
fn lex_double_quote_escapes() {
    // Inside double quotes: \$ \\ \" reduce, any other \x stays as two
    // characters.
    assert_eq!(lex("\"a\\$b\\\\c\\\"d\\xe\""), vec![word("a$b\\c\"d\\xe")]);
}

#[test]
fn lex_backslash_outside_quotes_escapes_anything() {
    assert_eq!(lex("a\\'b"), vec![word("a'b")]);
    assert_eq!(lex("\\\\"), vec![word("\\")]);
}

#[test]
fn lex_trailing_backslash_is_dropped() {
    assert_eq!(lex("ab\\"), vec![word("ab")]);
}

#[test]
fn lex_unterminated_single_quote_is_emitted_as_is() {
    assert_eq!(lex("'abc"), vec![word("'abc")]);
    assert_eq!(lex("x'abc"), vec![word("x'abc")]);
}

#[test]
fn lex_operator_ends_word() {
    assert_eq!(lex("a&&b"), vec![word("a"), control(ControlOperator::And), word("b")]);
}

#[test]
fn lex_greedy_operator_scan() {
    assert_eq!(lex(";;&"), vec![control(ControlOperator::DoubleSemiAmp)]);
    assert_eq!(
        lex(";;; "),
        vec![control(ControlOperator::DoubleSemi), control(ControlOperator::Semicolon)]
    );
    assert_eq!(lex("|&"), vec![control(ControlOperator::PipeAmp)]);
}

#[test]
fn lex_fd_redirects() {
    assert_eq!(lex("1> f"), vec![redirect(RedirectOperator::RStdout), word("f")]);
    assert_eq!(lex("2>> f"), vec![redirect(RedirectOperator::AppendStderr), word("f")]);
    // A digit that does not form a redirect is an ordinary word character.
    assert_eq!(lex("1x"), vec![word("1x")]);
}

#[test]
fn lex_redirect_without_blanks() {
    assert_eq!(
        lex("pwd>/tmp/out"),
        vec![word("pwd"), redirect(RedirectOperator::RStdout), word("/tmp/out")]
    );
}

#[test]
fn lex_newline_is_a_token() {
    assert_eq!(lex("a\nb"), vec![word("a"), control(ControlOperator::Newline), word("b")]);
}

#[test]
fn lex_reserved_words() {
    assert_eq!(lex("if"), vec![Token::Word(Word::ReservedWord(ReservedWord::If))]);
    assert_eq!(lex("then"), vec![Token::Word(Word::ReservedWord(ReservedWord::Then))]);
    assert_eq!(lex("time"), vec![Token::Word(Word::ReservedWord(ReservedWord::Time))]);
    // Only the exact spelling is reserved.
    assert_eq!(lex("iff"), vec![word("iff")]);
}

#[test]
fn token_classification() {
    assert!(control(ControlOperator::Semicolon).is_command_delimiter());
    assert!(control(ControlOperator::Ampersand).is_command_delimiter());
    assert!(control(ControlOperator::Newline).is_command_delimiter());
    assert!(control(ControlOperator::And).is_command_delimiter());
    assert!(!control(ControlOperator::Pipe).is_command_delimiter());
    assert!(control(ControlOperator::Pipe).is_control_operator());
    assert!(!redirect(RedirectOperator::RStdout).is_control_operator());
    assert!(redirect(RedirectOperator::RStdout).is_redirect_operator());
    assert!(!word("x").is_redirect_operator());
}

#[test]
fn operator_may_start_with_prefixes() {
    assert!(Operator::may_start_with(">"));
    assert!(Operator::may_start_with("1"));
    assert!(Operator::may_start_with(";;"));
    assert!(Operator::may_start_with(";;&"));
    assert!(Operator::may_start_with(""));
    assert!(!Operator::may_start_with("12"));
    assert!(!Operator::may_start_with("a"));
    assert!(!Operator::may_start_with(">>>"));
}

#[test]
fn redirect_appends() {
    assert!(RedirectOperator::AppendStdout.appends());
    assert!(RedirectOperator::AppendStderr.appends());
    assert!(!RedirectOperator::RStdout.appends());
    assert!(!RedirectOperator::RStderr.appends());
    assert!(!RedirectOperator::RStdin.appends());
}

#[test]
fn token_text_round_trips() {
    assert_eq!(word("abc").as_str(), "abc");
    assert_eq!(Token::Word(Word::ReservedWord(ReservedWord::Time)).as_str(), "time");
    assert_eq!(control(ControlOperator::And).as_str(), "&&");
    assert_eq!(control(ControlOperator::DoubleSemiAmp).as_str(), ";;&");
    assert_eq!(redirect(RedirectOperator::AppendStderr).as_str(), "2>>");
    assert_eq!(redirect(RedirectOperator::RStdout).as_str(), ">");
}

#[test]
fn token_from_string_reparses() {
    assert_eq!(Token::from_string(">".to_string()), redirect(RedirectOperator::RStdout));
    assert_eq!(Token::from_string("if".to_string()), lex("if")[0]);
    assert_eq!(Token::from_string("xyz".to_string()), word("xyz"));
}

#[test]
fn parse_single_builtin_command() {
    // `echo hello world` is one pipeline of one stage.
    let mut stream = CommandStream::new("echo hello world");
    let pipeline = stream.next().unwrap().unwrap();
    assert_eq!(pipeline.inner.len(), 1);
    let cmd = &pipeline.inner[0];
    assert_eq!(
        cmd.location,
        CommandLocation::Builtin(seashell::builtin_commands::BuiltinCommand::Echo)
    );
    assert_eq!(cmd.args, vec![word("hello"), word("world")]);
    assert_eq!(cmd.stdin, InStream::Std);
    assert_eq!(cmd.stdout, OutStream::Std);
    assert_eq!(cmd.stderr, OutStream::Std);
    assert!(stream.next().is_none());
}

#[test]
fn parse_external_command() {
    let mut stream = CommandStream::new("ls -l /tmp");
    let pipeline = stream.next().unwrap().unwrap();
    let cmd = &pipeline.inner[0];
    assert_eq!(cmd.location, CommandLocation::External("ls".to_string()));
    assert_eq!(cmd.args, vec![word("-l"), word("/tmp")]);
}

#[test]
fn parse_stdout_redirect() {
    // `pwd > /tmp/out` wires stdout to the file.
    let mut stream = CommandStream::new("pwd > /tmp/out");
    let pipeline = stream.next().unwrap().unwrap();
    assert_eq!(pipeline.inner.len(), 1);
    let cmd = &pipeline.inner[0];
    assert_eq!(
        cmd.location,
        CommandLocation::Builtin(seashell::builtin_commands::BuiltinCommand::PrintWorkingDir)
    );
    assert!(cmd.args.is_empty());
    assert_eq!(cmd.stdout, OutStream::File { path: "/tmp/out".to_string(), append: false });
    assert_eq!(cmd.stderr, OutStream::Std);
}

#[test]
fn parse_append_and_stderr_redirects() {
    let mut stream = CommandStream::new("x >> o 2> e");
    let pipeline = stream.next().unwrap().unwrap();
    let cmd = &pipeline.inner[0];
    assert_eq!(cmd.stdout, OutStream::File { path: "o".to_string(), append: true });
    assert_eq!(cmd.stderr, OutStream::File { path: "e".to_string(), append: false });
}

#[test]
fn parse_last_redirect_wins() {
    let mut stream = CommandStream::new("x > a > b");
    let pipeline = stream.next().unwrap().unwrap();
    assert_eq!(
        pipeline.inner[0].stdout,
        OutStream::File { path: "b".to_string(), append: false }
    );
}

#[test]
fn parse_pipeline_wires_adjacent_stages() {
    // `echo hi | wc -c` shares exactly one pipe.
    let mut stream = CommandStream::new("echo hi | wc -c");
    let pipeline = stream.next().unwrap().unwrap();
    assert_eq!(pipeline.inner.len(), 2);
    let first = &pipeline.inner[0];
    let second = &pipeline.inner[1];
    assert_eq!(first.args, vec![word("hi")]);
    assert_eq!(first.stdout, OutStream::PipeWriter(PipeWriter { pipe: 0 }));
    assert_eq!(first.stdin, InStream::Std);
    assert_eq!(second.location, CommandLocation::External("wc".to_string()));
    assert_eq!(second.args, vec![word("-c")]);
    assert_eq!(second.stdin, InStream::PipeReader(PipeReader { pipe: 0 }));
    assert_eq!(second.stdout, OutStream::Std);
}

#[test]
fn parse_three_stage_pipeline() {
    let mut stream = CommandStream::new("a | b | c");
    let pipeline = stream.next().unwrap().unwrap();
    assert_eq!(pipeline.inner.len(), 3);
    assert_eq!(pipeline.inner[0].stdout, OutStream::PipeWriter(PipeWriter { pipe: 0 }));
    assert_eq!(pipeline.inner[1].stdin, InStream::PipeReader(PipeReader { pipe: 0 }));
    assert_eq!(pipeline.inner[1].stdout, OutStream::PipeWriter(PipeWriter { pipe: 1 }));
    assert_eq!(pipeline.inner[2].stdin, InStream::PipeReader(PipeReader { pipe: 1 }));
}

#[test]
fn parse_pipe_amp_joins_stderr() {
    let mut stream = CommandStream::new("a |& b");
    let pipeline = stream.next().unwrap().unwrap();
    assert_eq!(pipeline.inner[0].stdout, OutStream::PipeWriter(PipeWriter { pipe: 0 }));
    assert_eq!(pipeline.inner[0].stderr, OutStream::PipeWriter(PipeWriter { pipe: 0 }));
    assert_eq!(pipeline.inner[1].stdin, InStream::PipeReader(PipeReader { pipe: 0 }));
}

#[test]
fn parse_semicolon_separates_pipelines() {
    let mut stream = CommandStream::new("echo a; echo b");
    let first = stream.next().unwrap().unwrap();
    assert_eq!(first.inner[0].args, vec![word("a")]);
    let second = stream.next().unwrap().unwrap();
    assert_eq!(second.inner[0].args, vec![word("b")]);
    assert!(stream.next().is_none());
}

#[test]
fn parse_skips_empty_pipelines() {
    // Leading delimiters are skipped silently; trailing ones end the
    // stream without an empty pipeline.
    let mut stream = CommandStream::new("; ; echo a ;");
    let first = stream.next().unwrap().unwrap();
    assert_eq!(first.inner[0].args, vec![word("a")]);
    assert!(stream.next().is_none());
}

#[test]
fn parse_double_semi_inside_command_is_rejected() {
    // `;;` is one operator, not a delimiter: the command it interrupts
    // fails rather than silently mis-executing.
    let mut stream = CommandStream::new("echo a ;;");
    assert_eq!(stream.next().unwrap().unwrap_err(), ParseError::UnsupportedOperator);
}

#[test]
fn parse_only_delimiters_yields_nothing() {
    let mut stream = CommandStream::new(" ; ; ");
    assert!(stream.next().is_none());
    let mut empty = CommandStream::new("");
    assert!(empty.next().is_none());
}

#[test]
fn parse_reserved_word_is_not_a_command() {
    let mut stream = CommandStream::new("if foo");
    assert_eq!(stream.next().unwrap().unwrap_err(), ParseError::NotASimpleWord);
}

#[test]
fn parse_operator_is_not_a_command() {
    let mut stream = CommandStream::new("| a");
    assert_eq!(stream.next().unwrap().unwrap_err(), ParseError::NotASimpleWord);
}

#[test]
fn parse_redirect_needs_a_path() {
    let mut stream = CommandStream::new("echo >");
    assert_eq!(stream.next().unwrap().unwrap_err(), ParseError::ExpectedRedirectPath);
    let mut reserved = CommandStream::new("echo > if");
    assert_eq!(reserved.next().unwrap().unwrap_err(), ParseError::ExpectedRedirectPath);
}

#[test]
fn parse_rejects_compound_operators() {
    let mut stream = CommandStream::new("echo a || echo b");
    assert_eq!(stream.next().unwrap().unwrap_err(), ParseError::UnsupportedOperator);
    let mut brackets = CommandStream::new("echo (x)");
    assert_eq!(brackets.next().unwrap().unwrap_err(), ParseError::UnsupportedOperator);
}

#[test]
fn parse_dangling_pipe_is_an_error() {
    let mut stream = CommandStream::new("echo a |");
    assert_eq!(stream.next().unwrap().unwrap_err(), ParseError::MissingCommand);
}

#[test]
fn parse_reserved_word_as_argument_is_kept() {
    let mut stream = CommandStream::new("echo if");
    let pipeline = stream.next().unwrap().unwrap();
    assert_eq!(
        pipeline.inner[0].args,
        vec![Token::Word(Word::ReservedWord(ReservedWord::If))]
    );
}

#[test]
fn collect_until_redir_splits_at_first_redirect() {
    let tokens = lex("a b > f");
    let (collected, redir) = seashell::commands::collect_until_redir(&tokens, 0);
    assert_eq!(collected, vec![word("a"), word("b")]);
    assert_eq!(redir, Some(RedirectOperator::RStdout));
    let tokens2 = lex("a b c");
    let (collected2, redir2) = seashell::commands::collect_until_redir(&tokens2, 0);
    assert_eq!(collected2, vec![word("a"), word("b"), word("c")]);
    assert_eq!(redir2, None);
}

#[test]
fn pipeline_status_is_last_stage() {
    assert_eq!(seashell::commands::pipeline_status(&vec![0, 1, 3]), 3);
    assert_eq!(seashell::commands::pipeline_status(&vec![7]), 7);
    assert_eq!(seashell::commands::pipeline_status(&Vec::new()), 0);
}

#[test]
fn not_found_message_and_status() {
    assert_eq!(seashell::commands::not_found_message("nope"), "nope: command not found\n");
    assert_eq!(seashell::commands::NOT_FOUND_STATUS, 127);
}

#[test]
fn command_end_and_pipe_helpers() {
    assert_eq!(CmdEnd::Piped { both: false }, CmdEnd::Piped { both: false });
    let (r, w) = seashell::stream_target::pipe(4);
    assert_eq!(r.pipe, 4);
    assert_eq!(w.pipe, 4);
}
