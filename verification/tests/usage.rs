use pet::config::GeneralConfig;
use pet::usage::{file_path, record_uses, remove_uses, UsageEntry, UsageStats};

#[test]
fn record_increments_count_and_updates_last_used() {
    let mut stats = UsageStats::default();
    stats.record("greet");
    assert_eq!(stats.score("greet").count, 1);
    assert!(stats.score("greet").last_used > 0);

    stats.record("greet");
    assert_eq!(stats.score("greet").count, 2);
}

#[test]
fn score_of_unused_snippet_is_zero() {
    let stats = UsageStats::default();
    assert_eq!(stats.score("never-used"), UsageEntry::default());
}

#[test]
fn file_path_sits_next_to_the_snippet_file() {
    let general = GeneralConfig {
        snippetfile: "/home/user/.config/pet/snippet.toml".to_string(),
        ..GeneralConfig::default()
    };
    let path = file_path(&general).unwrap();
    assert_eq!(path, "/home/user/.config/pet/usage.toml");
}

#[test]
fn record_at_sets_the_time_given() {
    let mut stats = UsageStats::new();
    stats.record_at("greet", 42);
    stats.record_at("greet", 50);
    assert_eq!(stats.score("greet"), UsageEntry { count: 2, last_used: 50 });
}

#[test]
fn record_uses_counts_each_occurrence() {
    let mut stats = UsageStats::new();
    stats.record_at("a", 1);
    record_uses(&mut stats, &vec!["a".to_string(), "b".to_string(), "a".to_string()]);
    assert_eq!(stats.score("a").count, 3);
    assert_eq!(stats.score("b").count, 1);
    assert_eq!(stats.score("c").count, 0);
}

#[test]
fn remove_uses_forgets_only_the_given_descriptions() {
    let mut stats = UsageStats::new();
    stats.record_at("a", 1);
    stats.record_at("b", 2);
    remove_uses(&mut stats, &vec!["a".to_string(), "zzz".to_string()]);
    assert_eq!(stats.score("a"), UsageEntry::default());
    assert_eq!(stats.score("b"), UsageEntry { count: 1, last_used: 2 });
}

#[test]
fn entries_round_trip_through_from_entries() {
    let mut stats = UsageStats::new();
    stats.record_at("a", 1);
    stats.record_at("b", 2);
    let again = UsageStats::from_entries(stats.to_entries());
    assert_eq!(again.score("a"), UsageEntry { count: 1, last_used: 1 });
    assert_eq!(again.score("b"), UsageEntry { count: 1, last_used: 2 });
}

#[test]
fn record_uses_at_stamps_every_recorded_description() {
    let mut stats = UsageStats::new();
    stats.record_at("a", 1);
    stats.record_at("z", 3);
    pet::usage::record_uses_at(&mut stats, &vec!["a".to_string(), "b".to_string(), "a".to_string()], 42);
    assert_eq!(stats.score("a"), UsageEntry { count: 3, last_used: 42 });
    assert_eq!(stats.score("b"), UsageEntry { count: 1, last_used: 42 });
    assert_eq!(stats.score("z"), UsageEntry { count: 1, last_used: 3 });
}

#[test]
fn file_path_of_an_absolute_snippet_file_is_exact() {
    let general = GeneralConfig {
        snippetfile: "/srv/pet/main.toml".to_string(),
        ..GeneralConfig::default()
    };
    assert_eq!(file_path(&general).unwrap(), "/srv/pet/usage.toml");
}

fn picked(description: &str) -> pet::snippet::SnippetInfo {
    pet::snippet::SnippetInfo {
        filename: String::new(),
        description: description.to_string(),
        command: format!("echo {description}"),
        tag: vec![],
        output: String::new(),
    }
}

#[test]
fn picks_are_counted_for_the_chosen_snippets_only() {
    let mut stats = UsageStats::default();
    stats.record("second");
    let before = stats.score("second");
    pet::cmd::record_picks_at(&mut stats, &vec![picked("first"), picked("third"), picked("first")], 77);
    assert_eq!(stats.score("first"), UsageEntry { count: 2, last_used: 77 });
    assert_eq!(stats.score("third"), UsageEntry { count: 1, last_used: 77 });
    assert_eq!(stats.score("second"), before);

    let mut fresh = UsageStats::default();
    pet::cmd::record_picks(&mut fresh, &vec![picked("first")]);
    assert_eq!(fresh.score("first").count, 1);
    assert_eq!(fresh.score("second").count, 0);
}
