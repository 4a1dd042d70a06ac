use pet::format::{render_template, truncate_pad};
use pet::snippet::{SnippetInfo, Snippets};
use pet::usage::UsageStats;

#[test]
fn renders_default_template() {
    let out = render_template(
        "[$description]: $command $tags",
        "greet",
        "echo hi",
        &["demo".to_string(), "sample".to_string()],
        false,
    );
    assert_eq!(out, "[greet]: echo hi #demo #sample ");
}

#[test]
fn renders_template_with_no_tags() {
    let out = render_template("[$description]: $command $tags", "greet", "echo hi", &[], false);
    assert_eq!(out, "[greet]: echo hi ");
}

#[test]
fn flattens_multiline_commands_to_literal_backslash_n() {
    let out = render_template("[$description]: $command $tags", "multi", "echo one\necho two", &[], false);
    assert_eq!(out, "[multi]: echo one\\necho two ");
}

#[test]
fn truncate_pad_leaves_short_strings_padded() {
    assert_eq!(truncate_pad("hi", 5), "hi   ");
}

#[test]
fn truncate_pad_truncates_long_strings_with_ellipsis() {
    let result = truncate_pad("this is a long description", 10);
    assert_eq!(result.chars().count(), 10);
    assert_eq!(result, "this is...");
}

#[test]
fn truncate_pad_exact_width_is_unchanged() {
    assert_eq!(truncate_pad("exact", 5), "exact");
}

fn make(desc: &str, cmd: &str, out: &str) -> SnippetInfo {
    SnippetInfo {
        filename: String::new(),
        description: desc.to_string(),
        command: cmd.to_string(),
        tag: vec![],
        output: out.to_string(),
    }
}

fn descs(s: &Snippets) -> Vec<String> {
    s.snippets.iter().map(|x| x.description.clone()).collect()
}

fn cmds(s: &Snippets) -> Vec<String> {
    s.snippets.iter().map(|x| x.command.clone()).collect()
}

fn outs(s: &Snippets) -> Vec<String> {
    s.snippets.iter().map(|x| x.output.clone()).collect()
}

fn tagged(desc: &str, tags: Vec<&str>) -> SnippetInfo {
    SnippetInfo {
        filename: String::new(),
        description: desc.to_string(),
        command: "echo".to_string(),
        tag: tags.into_iter().map(String::from).collect(),
        output: String::new(),
    }
}

#[test]
fn order_sorts_by_each_sortby_value() {
    let stats = UsageStats::new();
    let mut snippets = Snippets {
        snippets: vec![
            make("b desc", "b cmd", "b out"),
            make("a desc", "a cmd", "a out"),
            make("c desc", "c cmd", "c out"),
        ],
    };

    snippets.order("description", &stats);
    assert_eq!(descs(&snippets), vec!["c desc", "b desc", "a desc"]);

    snippets.order("-description", &stats);
    assert_eq!(descs(&snippets), vec!["a desc", "b desc", "c desc"]);

    let mut by_command = snippets.clone();
    by_command.order("command", &stats);
    assert_eq!(cmds(&by_command), vec!["c cmd", "b cmd", "a cmd"]);

    let mut by_output = snippets.clone();
    by_output.order("output", &stats);
    assert_eq!(outs(&by_output), vec!["c out", "b out", "a out"]);

    let original_order = descs(&snippets);
    let mut reversed = snippets.clone();
    reversed.order("-recency", &stats);
    assert_eq!(descs(&reversed), original_order.into_iter().rev().collect::<Vec<_>>());

    let mut untouched = snippets.clone();
    untouched.order("", &stats);
    assert_eq!(descs(&untouched), descs(&snippets));
}

#[test]
fn filter_by_tags_requires_at_least_one_matching_tag() {
    let snippets = Snippets {
        snippets: vec![
            tagged("has-a", vec!["a"]),
            tagged("has-b-c", vec!["b", "c"]),
            tagged("no-tags", vec![]),
            tagged("has-z", vec!["z"]),
        ],
    };
    let filtered = snippets.filter_by_tags(&["a".to_string(), "c".to_string()]);
    let descs: Vec<&str> = filtered.iter().map(|s| s.description.as_str()).collect();
    assert_eq!(descs, vec!["has-a", "has-b-c"]);
}

#[test]
fn order_keeps_ties_in_their_stored_order() {
    let stats = UsageStats::new();
    let mut snippets = Snippets {
        snippets: vec![
            make("first", "same", "x"),
            make("other", "zzz", "x"),
            make("second", "same", "x"),
            make("third", "same", "x"),
        ],
    };
    snippets.order("command", &stats);
    assert_eq!(descs(&snippets), vec!["other", "first", "second", "third"]);
    snippets.order("-command", &stats);
    assert_eq!(descs(&snippets), vec!["first", "second", "third", "other"]);
}
