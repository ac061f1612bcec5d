use seashell::executable_path::{first_executable_match, join_path, path_candidates, split_path};

fn strings(items: &[&str]) -> Vec<String> {
    items.iter().map(|s| s.to_string()).collect()
}

#[test]
fn path_splits_on_colons() {
    assert_eq!(split_path("/usr/bin:/bin"), strings(&["/usr/bin", "/bin"]));
    assert_eq!(split_path("one"), strings(&["one"]));
    assert_eq!(split_path(""), strings(&[""]));
    assert_eq!(split_path("a::b:"), strings(&["a", "", "b", ""]));
}

#[test]
fn join_inserts_separator_only_when_needed() {
    assert_eq!(join_path("/usr/bin", "ls"), "/usr/bin/ls");
    assert_eq!(join_path("/usr/bin/", "ls"), "/usr/bin/ls");
    assert_eq!(join_path("", "ls"), "ls");
    // An absolute name stands alone.
    assert_eq!(join_path("/usr/bin", "/bin/ls"), "/bin/ls");
}

#[test]
fn candidates_follow_path_order() {
    assert_eq!(
        path_candidates("/usr/bin:/bin", "ls"),
        strings(&["/usr/bin/ls", "/bin/ls"])
    );
}

#[test]
fn first_executable_wins() {
    // With /usr/bin first in PATH and executable there, the
    // resolved path is /usr/bin/ls — the same path `type ls` reports.
    let cands = path_candidates("/usr/bin:/bin", "ls");
    let resolved = first_executable_match(&cands, &vec![true, true]);
    assert_eq!(resolved, Some("/usr/bin/ls".to_string()));
    assert_eq!(
        seashell::builtin_commands::type_line("ls", &resolved),
        "ls is /usr/bin/ls\n"
    );
}

#[test]
fn later_entry_wins_when_first_is_not_executable() {
    let cands = path_candidates("/usr/bin:/bin", "sh");
    assert_eq!(
        first_executable_match(&cands, &vec![false, true]),
        Some("/bin/sh".to_string())
    );
}

#[test]
fn no_match_resolves_to_nothing() {
    let cands = path_candidates("/usr/bin:/bin", "nope");
    let resolved = first_executable_match(&cands, &vec![false, false]);
    assert_eq!(resolved, None);
    assert_eq!(
        seashell::builtin_commands::type_line("nope", &resolved),
        "nope: not found\n"
    );
}
