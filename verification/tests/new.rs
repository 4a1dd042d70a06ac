use pet::cmd::new::{editor_line, multiline_step, new_snippet, split_tags, MultilineState, MultilineStep};
use pet::snippet::SnippetInfo;

fn run_lines(lines: &[&str]) -> Option<String> {
    let mut state = MultilineState::Start;
    let mut buf = String::new();
    for line in lines {
        match multiline_step(state, &mut buf, line) {
            MultilineStep::Done => return Some(buf),
            MultilineStep::Continue(next) => state = next,
        }
    }
    None
}

#[test]
fn leading_blank_lines_are_ignored() {
    let mut state = MultilineState::Start;
    let mut buf = String::new();
    let MultilineStep::Continue(next) = multiline_step(state, &mut buf, "") else {
        panic!("expected Continue");
    };
    assert_eq!(next, MultilineState::Start);
    assert!(buf.is_empty());
    state = next;

    let MultilineStep::Continue(next) = multiline_step(state, &mut buf, "echo hi") else {
        panic!("expected Continue");
    };
    assert_eq!(next, MultilineState::LastLineNotEmpty);
    assert_eq!(buf, "echo hi");
}

#[test]
fn single_blank_line_does_not_finish_the_snippet() {
    let result = run_lines(&["echo one", "echo two", ""]);
    assert_eq!(result, None);
}

#[test]
fn two_consecutive_blank_lines_finish_the_snippet() {
    let result = run_lines(&["echo one", "echo two", "", ""]);
    assert_eq!(result, Some("echo one\necho two".to_string()));
}

#[test]
fn a_blank_line_followed_by_more_input_keeps_going() {
    let result = run_lines(&["echo one", "", "echo two", "", ""]);
    assert_eq!(result, Some("echo one\necho two".to_string()));
}

#[test]
fn single_line_command_needs_only_one_double_blank() {
    let result = run_lines(&["echo hi", "", ""]);
    assert_eq!(result, Some("echo hi".to_string()));
}

#[test]
fn blank_lines_before_any_command_never_finish() {
    assert_eq!(run_lines(&["", "", "", ""]), None);
}

#[test]
fn tags_are_the_whitespace_separated_words() {
    assert_eq!(split_tags("  net  fs\tdisk "), vec!["net", "fs", "disk"]);
    assert!(split_tags("").is_empty());
    assert!(split_tags("   ").is_empty());
}

#[test]
fn new_snippet_rejects_a_duplicate_description() {
    let existing = vec![SnippetInfo {
        filename: String::new(),
        description: "greet".to_string(),
        command: "echo hi".to_string(),
        tag: vec![],
        output: String::new(),
    }];
    assert!(new_snippet(&existing, "echo other".to_string(), "greet".to_string(), "").is_none());
    let s = new_snippet(&existing, "ls".to_string(), "list".to_string(), "fs files").unwrap();
    assert_eq!(s.description, "list");
    assert_eq!(s.command, "ls");
    assert_eq!(s.tag, vec!["fs".to_string(), "files".to_string()]);
    assert_eq!(s.filename, "");
    assert_eq!(s.output, "");
}

#[test]
fn editor_line_is_three_past_the_last_line_break() {
    assert_eq!(editor_line(""), 3);
    assert_eq!(editor_line("a\nb\n"), 5);
}
