use pet::config::GeneralConfig;
use pet::selector::{
    file_request, select_commands, select_file, select_request, select_snippets, shell_quote, SelectAnswer,
    SelectOptions, SelectRequest,
};
use pet::snippet::SnippetInfo;

/// What `cat` as the selector answers: everything it was given.
fn cat_answer(request: &SelectRequest) -> SelectAnswer {
    match request {
        SelectRequest::External { input, .. } => SelectAnswer::Printed(input.clone()),
        _ => SelectAnswer::Cancelled,
    }
}

fn greet(filename: &str, tags: &[&str]) -> SnippetInfo {
    SnippetInfo {
        filename: filename.to_string(),
        description: "greet".to_string(),
        command: "echo hi".to_string(),
        tag: tags.iter().map(|t| t.to_string()).collect(),
        output: String::new(),
    }
}

fn with_selectcmd(cmd: &str) -> GeneralConfig {
    GeneralConfig {
        selectcmd: cmd.to_string(),
        ..GeneralConfig::default()
    }
}

#[test]
fn shell_quote_wraps_plain_values() {
    assert_eq!(shell_quote("hello"), "'hello'");
}

#[test]
fn shell_quote_escapes_embedded_single_quotes() {
    assert_eq!(shell_quote("it's"), r"'it'\''s'");
}

#[test]
fn select_commands_maps_display_text_back_to_stored_command() {
    let general = with_selectcmd("cat");
    let snippets = vec![greet("", &[])];
    let opts = SelectOptions::default();
    let answer = cat_answer(&select_request(&general, &snippets, &opts));
    let result = select_commands(&general, &snippets, &opts, &answer);
    assert_eq!(result, vec!["echo hi".to_string()]);
}

#[test]
fn select_snippets_returns_the_whole_matched_snippet_not_just_its_command() {
    let general = with_selectcmd("cat");
    let snippet = greet("/snippets/a.toml", &["demo"]);
    let snippets = vec![snippet.clone()];
    let opts = SelectOptions::default();
    let answer = cat_answer(&select_request(&general, &snippets, &opts));
    let result = select_snippets(&general, &snippets, &opts, &answer);
    assert_eq!(result, vec![snippet]);
}

#[test]
fn select_commands_with_color_still_maps_back_correctly() {
    let mut general = with_selectcmd("cat");
    general.color = true;
    let snippets = vec![greet("", &["demo"])];
    let opts = SelectOptions::default();
    let request = select_request(&general, &snippets, &opts);
    match &request {
        SelectRequest::External { input, .. } => assert!(input.contains('\u{1b}')),
        _ => panic!("expected an external selector"),
    }
    let answer = cat_answer(&request);
    let result = select_commands(&general, &snippets, &opts, &answer);
    assert_eq!(result, vec!["echo hi".to_string()]);
}

#[test]
fn select_commands_per_command_color_flag_ors_with_general_color() {
    let mut general = with_selectcmd("cat");
    general.color = false;
    let snippets = vec![greet("", &[])];
    let opts = SelectOptions {
        color: true,
        ..SelectOptions::default()
    };
    let answer = cat_answer(&select_request(&general, &snippets, &opts));
    let result = select_commands(&general, &snippets, &opts, &answer);
    assert_eq!(result, vec!["echo hi".to_string()]);
}

#[test]
fn select_commands_on_no_snippets_returns_empty_without_spawning() {
    let general = with_selectcmd("this-binary-does-not-exist-anywhere");
    let opts = SelectOptions::default();
    let request = select_request(&general, &vec![], &opts);
    assert!(matches!(request, SelectRequest::Empty));
    let result = select_commands(&general, &vec![], &opts, &cat_answer(&request));
    assert!(result.is_empty());
}

#[test]
fn builtin_selectcmd_on_no_snippets_returns_empty_without_opening_a_terminal() {
    let general = with_selectcmd("builtin");
    let opts = SelectOptions::default();
    let request = select_request(&general, &vec![], &opts);
    assert!(matches!(request, SelectRequest::Empty));
    let result = select_commands(&general, &vec![], &opts, &SelectAnswer::Cancelled);
    assert!(result.is_empty());
}

#[test]
fn builtin_selectcmd_is_attempted_for_non_empty_snippets() {
    let general = with_selectcmd("builtin");
    let snippets = vec![greet("", &[])];
    let opts = SelectOptions {
        query: Some("gr".to_string()),
        ..SelectOptions::default()
    };
    match select_request(&general, &snippets, &opts) {
        SelectRequest::Builtin { items, query } => {
            assert_eq!(items.len(), 1);
            assert_eq!(items[0].text, "[greet]: echo hi ");
            assert_eq!(query, Some("gr".to_string()));
        }
        _ => panic!("expected the built-in picker"),
    }
    let result = select_commands(&general, &snippets, &opts, &SelectAnswer::Picked(vec![0]));
    assert_eq!(result, vec!["echo hi".to_string()]);
}

#[test]
fn select_file_uses_hardcoded_display_format_and_returns_origin_path() {
    let general = with_selectcmd("cat");
    let snippets = vec![greet("/snippets/a.toml", &["demo"])];
    let opts = SelectOptions::default();
    let request = file_request(&general, &snippets, &opts);
    match &request {
        SelectRequest::External { input, .. } => assert_eq!(input, "[greet]: echo hi #demo\n"),
        _ => panic!("expected an external selector"),
    }
    let result = select_file(&general, &snippets, &opts, &cat_answer(&request));
    assert_eq!(result, Some("/snippets/a.toml".to_string()));
}

#[test]
fn select_file_on_no_selection_returns_none() {
    let general = with_selectcmd("false");
    let snippets = vec![greet("/snippets/a.toml", &[])];
    let result = select_file(&general, &snippets, &SelectOptions::default(), &SelectAnswer::Cancelled);
    assert_eq!(result, None);
}

#[test]
fn external_request_runs_selectcmd_with_quoted_query_through_the_shell() {
    let general = with_selectcmd("fzf");
    let snippets = vec![greet("", &[])];
    let opts = SelectOptions {
        query: Some("it's".to_string()),
        color: false,
    };
    match select_request(&general, &snippets, &opts) {
        SelectRequest::External { argv, .. } => {
            assert_eq!(argv, vec!["sh".to_string(), "-c".to_string(), r"fzf --query 'it'\''s'".to_string()]);
        }
        _ => panic!("expected an external selector"),
    }
}

#[test]
fn printed_lines_that_match_no_snippet_are_skipped() {
    let mut general = with_selectcmd("cat");
    general.color = false;
    let snippets = vec![greet("", &[])];
    let opts = SelectOptions::default();
    let answer = SelectAnswer::Printed("something else\n\n[greet]: echo hi \n".to_string());
    let result = select_commands(&general, &snippets, &opts, &answer);
    assert_eq!(result, vec!["echo hi".to_string()]);
}
