use pet::history::{history_file, is_pet_invocation, last_command, parse_history, shell_name, HistoryFile};

#[test]
fn plain_bash_history_returns_lines_in_order() {
    let contents = "echo one\necho two\n";
    assert_eq!(parse_history(contents, "bash"), vec!["echo one", "echo two"]);
}

#[test]
fn zsh_extended_history_strips_timestamp_prefix() {
    let contents = ": 1700000000:0;echo one\n: 1700000001:0;echo two\n";
    assert_eq!(parse_history(contents, "zsh"), vec!["echo one", "echo two"]);
}

#[test]
fn zsh_plain_history_passes_through() {
    let contents = "echo one\necho two\n";
    assert_eq!(parse_history(contents, "zsh"), vec!["echo one", "echo two"]);
}

#[test]
fn fish_history_extracts_cmd_lines_only() {
    let contents = "- cmd: echo one\n  when: 1700000000\n- cmd: echo two\n  when: 1700000001\n";
    assert_eq!(parse_history(contents, "fish"), vec!["echo one", "echo two"]);
}

#[test]
fn blank_lines_are_dropped() {
    let contents = "echo one\n\n\necho two\n";
    assert_eq!(parse_history(contents, "bash"), vec!["echo one", "echo two"]);
}

#[test]
fn pet_invocation_is_detected_by_first_word() {
    assert!(is_pet_invocation("pet new --last"));
    assert!(is_pet_invocation("/usr/local/bin/pet search"));
    assert!(!is_pet_invocation("echo pet new --last"));
    assert!(!is_pet_invocation("petstore list"));
}

#[test]
fn last_command_skips_trailing_pet_invocations() {
    let contents = "ls -la\ngit status\npet new --last\n";
    assert_eq!(last_command(contents, "bash"), Some("git status".to_string()));
    assert_eq!(last_command("pet list\n", "bash"), None);
}

#[test]
fn shell_name_is_the_last_path_component() {
    assert_eq!(shell_name(Some("/usr/bin/zsh".to_string())), "zsh");
    assert_eq!(shell_name(None), "");
}

#[test]
fn history_file_prefers_histfile_then_shell_default() {
    match history_file(Some("/tmp/h".to_string()), Some("/home/u".to_string()), "zsh") {
        HistoryFile::Given(p) => assert_eq!(p, "/tmp/h"),
        _ => panic!("expected the given file"),
    }
    match history_file(Some(String::new()), Some("/home/u".to_string()), "fish") {
        HistoryFile::Default(p) => assert_eq!(p, "/home/u/.local/share/fish/fish_history"),
        _ => panic!("expected the default file"),
    }
    match history_file(None, Some("/home/u".to_string()), "bash") {
        HistoryFile::Default(p) => assert_eq!(p, "/home/u/.bash_history"),
        _ => panic!("expected the default file"),
    }
    assert!(matches!(history_file(None, None, "zsh"), HistoryFile::NoHome));
}
