use pet::snippet::{SnippetInfo, Snippets};
use pet::usage::UsageStats;

fn snippet(description: &str) -> SnippetInfo {
    SnippetInfo {
        filename: String::new(),
        description: description.to_string(),
        command: String::new(),
        tag: vec![],
        output: String::new(),
    }
}

#[test]
fn order_on_empty_snippets_does_not_panic() {
    let mut snippets = Snippets::default();
    snippets.order("description", &UsageStats::default());
    assert!(snippets.snippets.is_empty());
}

#[test]
fn order_unknown_sortby_leaves_original_order_unchanged() {
    let mut snippets = Snippets {
        snippets: vec![snippet("b"), snippet("a"), snippet("c")],
    };
    snippets.order("not-a-real-sortby", &UsageStats::default());
    let descs: Vec<_> = snippets.snippets.iter().map(|s| &s.description).collect();
    assert_eq!(descs, vec!["b", "a", "c"]);
}

#[test]
fn order_empty_sortby_is_recency_noop() {
    let mut snippets = Snippets {
        snippets: vec![snippet("first"), snippet("second")],
    };
    snippets.order("", &UsageStats::default());
    let descs: Vec<_> = snippets.snippets.iter().map(|s| &s.description).collect();
    assert_eq!(descs, vec!["first", "second"]);
}

#[test]
fn order_usage_sorts_most_used_first() {
    let mut usage_stats = UsageStats::default();
    usage_stats.record("a");
    usage_stats.record("c");
    usage_stats.record("c");

    let mut snippets = Snippets {
        snippets: vec![snippet("a"), snippet("c"), snippet("unused")],
    };
    snippets.order("usage", &usage_stats);
    let descs: Vec<_> = snippets.snippets.iter().map(|s| &s.description).collect();
    assert_eq!(descs, vec!["c", "a", "unused"]);

    snippets.order("-usage", &usage_stats);
    let descs: Vec<_> = snippets.snippets.iter().map(|s| &s.description).collect();
    assert_eq!(descs, vec!["unused", "a", "c"]);
}

#[test]
fn order_description_sorts_descending_and_minus_ascending() {
    let mut snippets = Snippets {
        snippets: vec![snippet("b"), snippet("c"), snippet("a")],
    };
    snippets.order("description", &UsageStats::default());
    let descs: Vec<_> = snippets.snippets.iter().map(|s| &s.description).collect();
    assert_eq!(descs, vec!["c", "b", "a"]);
    snippets.order("-description", &UsageStats::default());
    let descs: Vec<_> = snippets.snippets.iter().map(|s| &s.description).collect();
    assert_eq!(descs, vec!["a", "b", "c"]);
    snippets.order("-recency", &UsageStats::default());
    let descs: Vec<_> = snippets.snippets.iter().map(|s| &s.description).collect();
    assert_eq!(descs, vec!["c", "b", "a"]);
}

#[test]
fn filter_by_tags_on_empty_snippets_returns_empty() {
    let snippets = Snippets::default();
    assert!(snippets.filter_by_tags(&["x".to_string()]).is_empty());
}

#[test]
fn filter_by_tags_keeps_snippets_with_any_listed_tag() {
    let mut a = snippet("a");
    a.tag = vec!["net".to_string()];
    let mut b = snippet("b");
    b.tag = vec!["fs".to_string(), "disk".to_string()];
    let c = snippet("c");
    let snippets = Snippets {
        snippets: vec![a, b, c],
    };
    let result = snippets.filter_by_tags(&["disk".to_string(), "net".to_string()]);
    let descs: Vec<_> = result.iter().map(|s| s.description.as_str()).collect();
    assert_eq!(descs, vec!["a", "b"]);
}

#[test]
fn filter_by_single_tag_requires_exact_match() {
    let mut a = snippet("a");
    a.tag = vec!["net".to_string()];
    let mut b = snippet("b");
    b.tag = vec!["network".to_string()];
    let c = snippet("c");
    let snippets = Snippets {
        snippets: vec![a, b, c],
    };

    let result = snippets.filter_by_single_tag("net");
    let descs: Vec<_> = result.iter().map(|s| s.description.as_str()).collect();
    assert_eq!(descs, vec!["a"]);
}

#[test]
fn filter_by_text_matches_description_or_command_case_insensitively() {
    let mut by_description = snippet("Compress a Docker context");
    by_description.command = "tar -czf out.tar.gz .".to_string();
    let mut by_command = snippet("archive a directory");
    by_command.command = "docker save -o out.tar my-image".to_string();
    let no_match = snippet("ping a host");
    let snippets = Snippets {
        snippets: vec![by_description, by_command, no_match],
    };

    let result = snippets.filter_by_text("DOCKER");
    let descs: Vec<_> = result.iter().map(|s| s.description.as_str()).collect();
    assert_eq!(descs, vec!["Compress a Docker context", "archive a directory"]);
}

#[test]
fn filter_by_text_on_empty_snippets_returns_empty() {
    let snippets = Snippets::default();
    assert!(snippets.filter_by_text("anything").is_empty());
}

#[test]
fn grouped_by_file_sends_new_snippets_to_the_main_file() {
    let mut a = snippet("a");
    a.filename = "/s/other.toml".to_string();
    let b = snippet("b");
    let mut c = snippet("c");
    c.filename = "/s/other.toml".to_string();
    let d = snippet("d");
    let snippets = Snippets {
        snippets: vec![a, b, c, d],
    };
    let groups = snippets.grouped_by_file("/s/main.toml");
    assert_eq!(groups.len(), 2);
    assert_eq!(groups[0].0, "/s/other.toml");
    let first: Vec<_> = groups[0].1.iter().map(|s| s.description.as_str()).collect();
    assert_eq!(first, vec!["a", "c"]);
    assert_eq!(groups[1].0, "/s/main.toml");
    let second: Vec<_> = groups[1].1.iter().map(|s| s.description.as_str()).collect();
    assert_eq!(second, vec!["b", "d"]);
}

#[test]
fn filter_by_empty_text_keeps_every_snippet() {
    let snippets = Snippets { snippets: vec![snippet("b"), snippet(""), snippet("A")] };
    let kept: Vec<String> = snippets.filter_by_text("").into_iter().map(|s| s.description).collect();
    assert_eq!(kept, vec!["b".to_string(), String::new(), "A".to_string()]);
}
