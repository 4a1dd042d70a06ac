use pet::cmd::clip::{announces, ClipOptions};
use pet::cmd::delete;
use pet::cmd::exec::ExecOptions;
use pet::cmd::list::{column_width, tag_list};
use pet::cmd::search::SearchOptions;
use pet::cmd::{candidates, finish, join, resolve, Resolution};
use pet::cmd::edit::{picked_file, NoFileSelected};
use pet::cmd::sync::{pull_step, PullStep};
use pet::config::GeneralConfig;
use pet::dialog::ParamValues;
use pet::editor::open;
use pet::snippet::SnippetInfo;

fn snippet(file: &str, description: &str, command: &str, tags: &[&str]) -> SnippetInfo {
    SnippetInfo {
        filename: file.to_string(),
        description: description.to_string(),
        command: command.to_string(),
        tag: tags.iter().map(|t| t.to_string()).collect(),
        output: String::new(),
    }
}

fn done(r: Resolution) -> String {
    match r {
        Resolution::Done(t) => t,
        _ => panic!("expected Done"),
    }
}

#[test]
fn multi_select_is_joined_by_the_delimiter() {
    let commands = vec!["echo a".to_string(), "echo <b>".to_string()];
    let opts = SearchOptions {
        delimiter: " && ".to_string(),
        ..SearchOptions::default()
    };
    assert_eq!(done(pet::cmd::search::run(&opts, &commands)), "echo a && echo <b>");
    assert_eq!(done(pet::cmd::exec::run(&ExecOptions::default(), &commands)), "echo a; echo <b>");
}

#[test]
fn a_single_command_with_params_asks_unless_raw() {
    let commands = vec!["echo <name=world>".to_string()];
    match resolve(&commands, true, "; ") {
        Resolution::Ask { command, params } => {
            assert_eq!(command, "echo <name=world>");
            assert_eq!(params.len(), 1);
            assert_eq!(params[0].name, "name");
            assert_eq!(params[0].default, "world");
        }
        _ => panic!("expected the form"),
    }
    let raw = ClipOptions {
        raw: true,
        delimiter: "; ".to_string(),
        ..ClipOptions::default()
    };
    assert_eq!(done(pet::cmd::clip::run(&raw, &commands)), "echo <name=world>");
    assert!(matches!(resolve(&vec![], true, "; "), Resolution::Nothing));
    assert_eq!(done(resolve(&vec!["ls".to_string()], true, "; ")), "ls");
}

#[test]
fn finishing_the_form_substitutes_or_cancels() {
    let mut values = ParamValues::new();
    values.insert("name".to_string(), "you".to_string());
    assert_eq!(finish("echo <name=world>", Some(&values)), Some("echo you".to_string()));
    assert_eq!(finish("echo <name=world>", None), None);
}

#[test]
fn clip_announces_only_non_empty_commands_when_asked() {
    let opts = ClipOptions {
        show_command: true,
        ..ClipOptions::default()
    };
    assert!(announces(&opts, "ls"));
    assert!(!announces(&opts, ""));
    assert!(!announces(&ClipOptions::default(), "ls"));
}

#[test]
fn join_puts_the_separator_between_items_only() {
    assert_eq!(join(&vec![], ", "), "");
    assert_eq!(join(&vec!["a".to_string()], ", "), "a");
    assert_eq!(join(&vec!["a".to_string(), "b".to_string(), "c".to_string()], ", "), "a, b, c");
}

#[test]
fn candidates_apply_tag_and_filter_together() {
    let all = vec![
        snippet("", "big files", "find . -size +10M", &["fs"]),
        snippet("", "ssl", "echo | openssl s_client", &["net"]),
    ];
    let by_filter = candidates(all.clone(), &None, &Some("openssl".to_string()));
    assert_eq!(by_filter.len(), 1);
    assert_eq!(by_filter[0].description, "ssl");
    let both = candidates(all.clone(), &Some("demo".to_string()), &Some("big".to_string()));
    assert!(both.is_empty());
    let by_tag = candidates(all, &Some("fs".to_string()), &None);
    assert_eq!(by_tag[0].description, "big files");
}

#[test]
fn delete_keeps_the_rest_and_empties_files_left_without_snippets() {
    let a = snippet("/s/one.toml", "a", "echo a", &[]);
    let b = snippet("/s/one.toml", "b", "echo b", &[]);
    let c = snippet("/s/two.toml", "c", "echo c", &[]);
    let all = vec![a.clone(), b.clone(), c.clone()];
    let plan = delete::run(&all, &vec![c.clone(), a.clone()]);
    assert_eq!(plan.remaining, vec![b]);
    assert_eq!(plan.emptied_files, vec!["/s/two.toml".to_string()]);
    assert_eq!(plan.descriptions, vec!["c".to_string(), "a".to_string()]);
}

#[test]
fn list_tags_and_column_width() {
    assert_eq!(tag_list("net, fs ,disk"), vec!["net", "fs", "disk"]);
    assert_eq!(tag_list(""), vec![""]);
    let mut general = GeneralConfig::default();
    general.column = 0;
    assert_eq!(column_width(&general), 40);
    general.column = 25;
    assert_eq!(column_width(&general), 25);
}

#[test]
fn editor_command_puts_the_line_before_the_path() {
    let mut general = GeneralConfig::default();
    general.editor = "vim".to_string();
    assert_eq!(open(&general, "/tmp/snippet.toml", 0), "vim +0 /tmp/snippet.toml");
    assert_eq!(open(&general, "/tmp/snippet.toml", 127), "vim +127 /tmp/snippet.toml");
}

#[test]
fn small_steps_of_edit_pull_and_usage() {
    assert_eq!(picked_file(Some("/a.toml".to_string())), Ok("/a.toml".to_string()));
    assert_eq!(picked_file(None), Err(NoFileSelected));
    assert_eq!(pull_step(false, true, None), PullStep::Refuse);
    assert_eq!(pull_step(true, true, None), PullStep::Write);
    assert_eq!(pull_step(true, false, None), PullStep::Ask);
    assert_eq!(pull_step(true, false, Some(true)), PullStep::Write);
    assert_eq!(pull_step(true, false, Some(false)), PullStep::Keep);
    let chosen = vec![snippet("", "a", "echo a", &[]), snippet("", "b", "echo b", &[])];
    assert_eq!(pet::cmd::recorded_uses(&chosen), vec!["a".to_string(), "b".to_string()]);
}
