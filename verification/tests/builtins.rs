use seashell::builtin_commands::{
    cd_error_message, cd_target, echo_output, expected_argument_message, history_default_path,
    history_listing, numeric_required_message, parse_count, parse_history_invocation, pwd_output,
    strip_history_marker, type_line, BuiltinCommand, HistoryAction, HistoryCount,
    CD_FAILURE_STATUS,
};

fn strings(items: &[&str]) -> Vec<String> {
    items.iter().map(|s| s.to_string()).collect()
}

#[test]
fn builtin_names_parse_exactly() {
    assert_eq!(BuiltinCommand::parse("echo"), Some(BuiltinCommand::Echo));
    assert_eq!(BuiltinCommand::parse("type"), Some(BuiltinCommand::Type));
    assert_eq!(BuiltinCommand::parse("exit"), Some(BuiltinCommand::Exit));
    assert_eq!(BuiltinCommand::parse("pwd"), Some(BuiltinCommand::PrintWorkingDir));
    assert_eq!(BuiltinCommand::parse("cd"), Some(BuiltinCommand::ChangeDir));
    assert_eq!(BuiltinCommand::parse("history"), Some(BuiltinCommand::History));
    assert_eq!(BuiltinCommand::parse("echos"), None);
    assert_eq!(BuiltinCommand::parse(""), None);
    assert_eq!(BuiltinCommand::Echo.as_str(), "echo");
    assert_eq!(BuiltinCommand::PrintWorkingDir.as_str(), "pwd");
}

#[test]
fn echo_joins_with_single_spaces() {
    // `echo hello world` writes `hello world\n`.
    assert_eq!(echo_output(&strings(&["hello", "world"])), "hello world\n");
}

#[test]
fn echo_quoted_blanks_survive() {
    // The lexed word keeps its inner blanks.
    assert_eq!(echo_output(&strings(&["a  b  c d"])), "a  b  c d\n");
}

#[test]
fn echo_round_trip_exact_join() {
    assert_eq!(echo_output(&strings(&["a", "b", "c"])), "a b c\n");
    assert_eq!(echo_output(&strings(&["lone"])), "lone\n");
    assert_eq!(echo_output(&Vec::new()), "\n");
}

#[test]
fn type_reports_builtins_paths_and_missing() {
    // Built-in first, then the resolved path, then not found.
    assert_eq!(type_line("echo", &None), "echo is a shell builtin\n");
    assert_eq!(
        type_line("ls", &Some("/usr/bin/ls".to_string())),
        "ls is /usr/bin/ls\n"
    );
    assert_eq!(type_line("nope", &None), "nope: not found\n");
    // A built-in name wins even when the search found something.
    assert_eq!(
        type_line("pwd", &Some("/bin/pwd".to_string())),
        "pwd is a shell builtin\n"
    );
}

#[test]
fn pwd_appends_newline() {
    assert_eq!(pwd_output("/home/someone"), "/home/someone\n");
}

#[test]
fn cd_expands_leading_tilde_component() {
    // Boundary: `cd ~` with HOME=/tmp moves exactly to /tmp.
    assert_eq!(cd_target(&Some("~".to_string()), "/tmp"), "/tmp");
    assert_eq!(cd_target(&Some("~/x/y".to_string()), "/home/me"), "/home/me/x/y");
    // `~abc` is not the component `~`.
    assert_eq!(cd_target(&Some("~abc".to_string()), "/home/me"), "~abc");
    assert_eq!(cd_target(&Some("/nope".to_string()), "/home/me"), "/nope");
    assert_eq!(cd_target(&None, "/home/me"), "");
}

#[test]
fn cd_failure_message_and_status() {
    // `cd /nope` writes the message and reports status 2.
    assert_eq!(cd_error_message("/nope"), "cd: /nope: No such file or directory\n");
    assert_eq!(CD_FAILURE_STATUS, 2);
}

#[test]
fn history_listing_numbers_end_at_len() {
    // Numbers are contiguous and end at the history length.
    let entries = strings(&["first", "second", "third"]);
    let all = history_listing(&entries, 3);
    assert_eq!(all, strings(&["    1 first\n", "    2 second\n", "    3 third\n"]));
    let tail = history_listing(&entries, 2);
    assert_eq!(tail, strings(&["    2 second\n", "    3 third\n"]));
}

#[test]
fn history_zero_prints_nothing() {
    let entries = strings(&["a", "b"]);
    assert!(history_listing(&entries, 0).is_empty());
}

#[test]
fn history_count_beyond_len_prints_all() {
    let entries = strings(&["a", "b"]);
    assert_eq!(history_listing(&entries, 99), strings(&["    1 a\n", "    2 b\n"]));
}

#[test]
fn history_numbers_wider_than_field() {
    let entries: Vec<String> = (0..100000).map(|i| format!("e{}", i)).collect();
    let lines = history_listing(&entries, 1);
    assert_eq!(lines, strings(&["100000 e99999\n"]));
}

#[test]
fn count_parsing() {
    assert_eq!(parse_count("0"), Some(HistoryCount::Last(0)));
    assert_eq!(parse_count("5"), Some(HistoryCount::Last(5)));
    assert_eq!(parse_count("+7"), Some(HistoryCount::Last(7)));
    assert_eq!(parse_count("-5"), Some(HistoryCount::All));
    assert_eq!(parse_count("abc"), None);
    assert_eq!(parse_count("5x"), None);
    assert_eq!(parse_count(""), None);
    assert_eq!(parse_count("-"), None);
    assert_eq!(parse_count("+"), None);
    assert_eq!(parse_count("99999999999999999999999999999"), None);
}

#[test]
fn history_invocation_modes() {
    assert_eq!(
        parse_history_invocation(&Vec::new()),
        HistoryAction::Show(HistoryCount::All)
    );
    assert_eq!(
        parse_history_invocation(&strings(&["4"])),
        HistoryAction::Show(HistoryCount::Last(4))
    );
    assert_eq!(
        parse_history_invocation(&strings(&["-w"])),
        HistoryAction::Save(None)
    );
    assert_eq!(
        parse_history_invocation(&strings(&["-w", "f"])),
        HistoryAction::Save(Some("f".to_string()))
    );
    assert_eq!(
        parse_history_invocation(&strings(&["-a", "g"])),
        HistoryAction::Append(Some("g".to_string()))
    );
    assert_eq!(
        parse_history_invocation(&strings(&["-r"])),
        HistoryAction::LoadMissingArg
    );
    assert_eq!(
        parse_history_invocation(&strings(&["-r", "f1", "f2"])),
        HistoryAction::Load(strings(&["f1", "f2"]))
    );
    assert_eq!(
        parse_history_invocation(&strings(&["x9"])),
        HistoryAction::NotNumeric("x9".to_string())
    );
}

#[test]
fn history_error_messages() {
    assert_eq!(
        numeric_required_message("x9"),
        "history: x9: numeric argument required\n"
    );
    assert_eq!(expected_argument_message(), "expected argument\n");
}

#[test]
fn history_default_file() {
    assert_eq!(history_default_path(Some("/tmp/h".to_string())), "/tmp/h");
    assert_eq!(history_default_path(None), "~/.bash_history");
}

#[test]
fn history_file_round_trips() {
    let entries = strings(&["echo one", "pwd", "cd /tmp"]);
    let written = seashell::builtin_commands::serialize_history(&entries);
    assert_eq!(written, "echo one\npwd\ncd /tmp\n");
    assert_eq!(seashell::builtin_commands::parse_history_file(&written), entries);
}

#[test]
fn history_file_reader_skips_empty_lines_and_marker() {
    assert_eq!(
        seashell::builtin_commands::parse_history_file("#V2\na\n\nb\n"),
        strings(&["a", "b"])
    );
    assert_eq!(
        seashell::builtin_commands::parse_history_file("last has no newline"),
        strings(&["last has no newline"])
    );
    assert!(seashell::builtin_commands::parse_history_file("").is_empty());
}

#[test]
fn marker_line_is_stripped() {
    assert_eq!(strip_history_marker("#V2\nfoo\nbar\n"), "foo\nbar\n");
    assert_eq!(strip_history_marker("#V2"), "");
    assert_eq!(strip_history_marker("#V2\n"), "");
    assert_eq!(strip_history_marker("plain\n"), "plain\n");
    assert_eq!(strip_history_marker("#V3\nx\n"), "#V3\nx\n");
}
