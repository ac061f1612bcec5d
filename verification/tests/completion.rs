use seashell::completion::MyCompleter;

#[test]
fn default_knows_builtins_sorted() {
    let completer = MyCompleter::default();
    let (start, all) = completer.complete("", 0);
    assert_eq!(start, 0);
    assert_eq!(all, vec!["cd", "echo", "exit", "history", "pwd", "type"]);
}

#[test]
fn shared_prefix_lists_all_matches() {
    let completer = MyCompleter::default();
    let (_, candidates) = completer.complete("e", 0);
    assert_eq!(candidates, vec!["echo", "exit"]);
}

#[test]
fn unique_match_gets_a_trailing_space() {
    let completer = MyCompleter::default();
    let (_, candidates) = completer.complete("ech", 0);
    assert_eq!(candidates, vec!["echo "]);
}

#[test]
fn no_match_offers_nothing() {
    let completer = MyCompleter::default();
    let (_, candidates) = completer.complete("zz", 0);
    assert!(candidates.is_empty());
}

#[test]
fn added_commands_keep_sorted_order() {
    let mut completer = MyCompleter::new();
    completer.add_command("zeta".to_string());
    completer.add_command("alpha".to_string());
    completer.add_command("mid".to_string());
    let (_, all) = completer.complete("", 0);
    assert_eq!(all, vec!["alpha", "mid", "zeta"]);
}

#[test]
fn added_command_completes_alongside_builtins() {
    let mut completer = MyCompleter::default();
    completer.add_command("cargo".to_string());
    let (_, candidates) = completer.complete("c", 0);
    assert_eq!(candidates, vec!["cargo", "cd"]);
}
