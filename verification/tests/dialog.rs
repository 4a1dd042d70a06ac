use pet::dialog::{
    extract_params, fits_key, handle_key, parse_options, substitute, DialogState, DialogStep, FieldKind, Param,
    ParamValues,
};
use pet::keys::{KeyCode, KeyModifiers};

fn params(pairs: &[(&str, &str)]) -> Vec<Param> {
    pairs
        .iter()
        .map(|(name, default)| Param {
            name: name.to_string(),
            default: default.to_string(),
        })
        .collect()
}

fn values(pairs: &[(&str, &str)]) -> ParamValues {
    let mut v = ParamValues::new();
    for (k, x) in pairs {
        v.insert(k.to_string(), x.to_string());
    }
    v
}

#[test]
fn basic_params() {
    assert_eq!(extract_params("<a=1> <b> hello"), params(&[("a", "1"), ("b", "")]));
}

#[test]
fn no_params() {
    assert!(extract_params("no params").is_empty());
}

#[test]
fn multiple_params() {
    assert_eq!(
        extract_params("<a=1> <b> <c=3>"),
        params(&[("a", "1"), ("b", ""), ("c", "3")])
    );
}

#[test]
fn empty_command() {
    assert!(extract_params("").is_empty());
}

#[test]
fn with_newline() {
    assert_eq!(
        extract_params("<a=1> <b> hello\n<c=3>"),
        params(&[("a", "1"), ("b", ""), ("c", "3")])
    );
}

#[test]
fn value_with_spaces() {
    assert_eq!(
        extract_params("example_function --flag=<param=Lots of Bananas>"),
        params(&[("param", "Lots of Bananas")])
    );
}

#[test]
fn invalid_param_format() {
    assert_eq!(extract_params("<a=1 <b> hello"), params(&[("b", "")]));
}

#[test]
fn invalid_param_format_without_spaces() {
    assert_eq!(extract_params("<a=1<b>hello"), params(&[("b", "")]));
}

#[test]
fn confusing_brackets() {
    assert_eq!(
        extract_params("cat <<EOF > <file=path/to/file>\nEOF"),
        params(&[("file", "path/to/file")])
    );
}

#[test]
fn multiple_params_same_key() {
    assert_eq!(extract_params("<a=1> <a=2> <a=3>"), params(&[("a", "3")]));
}

#[test]
fn multiple_params_same_key_multiple_lines() {
    assert_eq!(
        extract_params("<a=1> <a=2> <a=3>\n<b=4>"),
        params(&[("a", "3"), ("b", "4")])
    );
}

#[test]
fn multiple_params_same_key_invalid_format() {
    assert_eq!(extract_params("<a=1> <a=2 <a=3>"), params(&[("a", "3")]));
}

#[test]
fn multiple_params_same_key_invalid_format_multiple_lines() {
    assert_eq!(
        extract_params("<a=1> <a=2> <a=3 \n<b=4>"),
        params(&[("a", "2"), ("b", "4")])
    );
}

#[test]
fn multiple_params_same_key_invalid_format_multiple_lines2() {
    assert_eq!(extract_params("<a=1> <a=2> <a=3>\n<b=4"), params(&[("a", "3")]));
}

#[test]
fn equals_in_default_value_ignored() {
    assert_eq!(
        extract_params("echo \"<param=Hello == World!===>\""),
        params(&[("param", "Hello == World!===")])
    );
}

#[test]
fn multiple_default_values_do_not_break_extraction() {
    assert_eq!(
        extract_params("echo \"<param=|_Hello_||_Hello world_||_How are you?_|> <second=Hello>, <third>\""),
        params(&[
            ("param", "|_Hello_||_Hello world_||_How are you?_|"),
            ("second", "Hello"),
            ("third", ""),
        ])
    );
}

#[test]
fn substitute_repeated_and_distinct_names() {
    let v = values(&[("a", "test"), ("b", "case")]);
    assert_eq!(substitute("<a=1> <a> <b> hello", &v), "test test case hello");
}

#[test]
fn substitute_unique_parameters() {
    let v = values(&[("host", "localhost:9200"), ("index", "test")]);
    assert_eq!(
        substitute(
            "curl -X POST \"<host=http://localhost:9200>/<index>\" -H 'Content-Type: application/json'",
            &v
        ),
        "curl -X POST \"localhost:9200/test\" -H 'Content-Type: application/json'"
    );
}

#[test]
fn substitute_complex_repeated_name() {
    let v = values(&[("host", "localhost:9200"), ("test", "case")]);
    assert_eq!(
        substitute("something <host=http://localhost:9200>/<test>/_delete_by_query/<host>", &v),
        "something localhost:9200/case/_delete_by_query/localhost:9200"
    );
}

#[test]
fn substitute_equals_in_default_value_ignored() {
    let v = values(&[("param", "something == something")]);
    assert_eq!(
        substitute("echo \"<param=Hello == World!===>\"", &v),
        "echo \"something == something\""
    );
}

#[test]
fn substitute_missing_value_becomes_empty() {
    let v = ParamValues::new();
    assert_eq!(substitute("echo <missing>", &v), "echo ");
}

#[test]
fn parse_options_none_for_plain_default() {
    assert_eq!(parse_options("world"), None);
    assert_eq!(parse_options(""), None);
}

#[test]
fn parse_options_splits_pipe_delimited_segments() {
    assert_eq!(
        parse_options("|_John_||_Sam_||_Jane Doe = special #chars_|"),
        Some(vec![
            "John".to_string(),
            "Sam".to_string(),
            "Jane Doe = special #chars".to_string(),
        ])
    );
}

fn done_values(step: DialogStep) -> ParamValues {
    match step {
        DialogStep::Done(values) => values,
        _ => panic!("expected Done"),
    }
}

fn continuing(step: DialogStep) -> DialogState {
    match step {
        DialogStep::Continue(state) => state,
        _ => panic!("expected Continue"),
    }
}

#[test]
fn new_dialog_state_seeds_text_fields_with_defaults_cursor_at_end() {
    let state = DialogState::new(&params(&[("name", "world")]));
    assert_eq!(
        state.fields[0].kind,
        FieldKind::Text {
            buffer: "world".to_string(),
            cursor: 5,
        }
    );
}

#[test]
fn new_dialog_state_detects_multi_default_fields() {
    let state = DialogState::new(&params(&[("color", "|_red_||_blue_|")]));
    assert_eq!(
        state.fields[0].kind,
        FieldKind::Options {
            options: vec!["red".to_string(), "blue".to_string()],
            selected: 0,
        }
    );
}

#[test]
fn enter_confirms_from_any_focused_field_with_current_values() {
    let state = DialogState::new(&params(&[("a", "1"), ("b", "2")]));
    let values = done_values(handle_key(state, KeyCode::Enter, KeyModifiers::none()));
    assert_eq!(values.get("a").map(String::as_str), Some("1"));
    assert_eq!(values.get("b").map(String::as_str), Some("2"));
}

#[test]
fn dialog_esc_cancels() {
    let state = DialogState::new(&params(&[("a", "1")]));
    assert!(matches!(
        handle_key(state, KeyCode::Esc, KeyModifiers::none()),
        DialogStep::Cancelled
    ));
}

#[test]
fn dialog_ctrl_c_cancels() {
    let state = DialogState::new(&params(&[("a", "1")]));
    assert!(matches!(
        handle_key(state, KeyCode::Char('c'), KeyModifiers::ctrl()),
        DialogStep::Cancelled
    ));
}

#[test]
fn dialog_plain_c_does_not_cancel() {
    let state = DialogState::new(&params(&[("a", "")]));
    let state = continuing(handle_key(state, KeyCode::Char('c'), KeyModifiers::none()));
    assert_eq!(
        state.fields[0].kind,
        FieldKind::Text {
            buffer: "c".to_string(),
            cursor: 1,
        }
    );
}

#[test]
fn tab_wraps_focus_forward() {
    let state = DialogState::new(&params(&[("a", ""), ("b", "")]));
    let state = continuing(handle_key(state, KeyCode::Tab, KeyModifiers::none()));
    assert_eq!(state.focus, 1);
    let state = continuing(handle_key(state, KeyCode::Tab, KeyModifiers::none()));
    assert_eq!(state.focus, 0);
}

#[test]
fn shift_tab_wraps_focus_backward() {
    let state = DialogState::new(&params(&[("a", ""), ("b", "")]));
    assert_eq!(state.focus, 0);
    let state = continuing(handle_key(state, KeyCode::BackTab, KeyModifiers::none()));
    assert_eq!(state.focus, 1);
}

#[test]
fn typing_inserts_at_cursor() {
    let state = DialogState::new(&params(&[("name", "")]));
    let state = continuing(handle_key(state, KeyCode::Char('h'), KeyModifiers::none()));
    let state = continuing(handle_key(state, KeyCode::Char('i'), KeyModifiers::none()));
    assert_eq!(
        state.fields[0].kind,
        FieldKind::Text {
            buffer: "hi".to_string(),
            cursor: 2,
        }
    );
}

#[test]
fn dialog_left_arrow_moves_cursor_and_insert_happens_there() {
    let state = DialogState::new(&params(&[("name", "ac")]));
    let state = continuing(handle_key(state, KeyCode::Left, KeyModifiers::none()));
    let state = continuing(handle_key(state, KeyCode::Char('b'), KeyModifiers::none()));
    assert_eq!(
        state.fields[0].kind,
        FieldKind::Text {
            buffer: "abc".to_string(),
            cursor: 2,
        }
    );
}

#[test]
fn backspace_deletes_before_cursor() {
    let state = DialogState::new(&params(&[("name", "abc")]));
    let state = continuing(handle_key(state, KeyCode::Backspace, KeyModifiers::none()));
    assert_eq!(
        state.fields[0].kind,
        FieldKind::Text {
            buffer: "ab".to_string(),
            cursor: 2,
        }
    );
}

#[test]
fn backspace_at_start_of_buffer_is_a_noop() {
    let state = DialogState::new(&params(&[("name", "abc")]));
    let state = continuing(handle_key(state, KeyCode::Left, KeyModifiers::none()));
    let state = continuing(handle_key(state, KeyCode::Left, KeyModifiers::none()));
    let state = continuing(handle_key(state, KeyCode::Left, KeyModifiers::none()));
    let state = continuing(handle_key(state, KeyCode::Backspace, KeyModifiers::none()));
    assert_eq!(
        state.fields[0].kind,
        FieldKind::Text {
            buffer: "abc".to_string(),
            cursor: 0,
        }
    );
}

#[test]
fn delete_removes_char_at_cursor() {
    let state = DialogState::new(&params(&[("name", "abc")]));
    let state = continuing(handle_key(state, KeyCode::Left, KeyModifiers::none()));
    let state = continuing(handle_key(state, KeyCode::Left, KeyModifiers::none()));
    let state = continuing(handle_key(state, KeyCode::Delete, KeyModifiers::none()));
    assert_eq!(
        state.fields[0].kind,
        FieldKind::Text {
            buffer: "ac".to_string(),
            cursor: 1,
        }
    );
}

#[test]
fn options_field_up_down_cycles_with_wraparound() {
    let state = DialogState::new(&params(&[("color", "|_red_||_green_||_blue_|")]));
    let state = continuing(handle_key(state, KeyCode::Down, KeyModifiers::none()));
    assert_eq!(state.fields[0].current_value(), "green");
    let state = continuing(handle_key(state, KeyCode::Down, KeyModifiers::none()));
    assert_eq!(state.fields[0].current_value(), "blue");
    let state = continuing(handle_key(state, KeyCode::Down, KeyModifiers::none()));
    assert_eq!(state.fields[0].current_value(), "red");
    let state = continuing(handle_key(state, KeyCode::Up, KeyModifiers::none()));
    assert_eq!(state.fields[0].current_value(), "blue");
}

#[test]
fn options_field_ignores_typed_characters() {
    let state = DialogState::new(&params(&[("color", "|_red_||_blue_|")]));
    let state = continuing(handle_key(state, KeyCode::Char('x'), KeyModifiers::none()));
    assert_eq!(state.fields[0].current_value(), "red");
}

#[test]
fn values_snapshot_uses_current_field_state_not_original_defaults() {
    let state = DialogState::new(&params(&[("greeting", "hi"), ("color", "|_red_||_blue_|")]));
    let state = continuing(handle_key(state, KeyCode::Char('!'), KeyModifiers::none()));
    let state = continuing(handle_key(state, KeyCode::Tab, KeyModifiers::none()));
    let state = continuing(handle_key(state, KeyCode::Down, KeyModifiers::none()));
    let values = done_values(handle_key(state, KeyCode::Enter, KeyModifiers::none()));
    assert_eq!(values.get("greeting").map(String::as_str), Some("hi!"));
    assert_eq!(values.get("color").map(String::as_str), Some("blue"));
}

#[test]
fn typing_then_backspace_restores_the_text() {
    let state = DialogState::new(&params(&[("name", "ab")]));
    let state = continuing(handle_key(state, KeyCode::Left, KeyModifiers::none()));
    let state = continuing(handle_key(state, KeyCode::Char('x'), KeyModifiers::none()));
    let state = continuing(handle_key(state, KeyCode::Backspace, KeyModifiers::none()));
    assert_eq!(
        state.fields[0].kind,
        FieldKind::Text {
            buffer: "ab".to_string(),
            cursor: 1,
        }
    );
}

#[test]
fn tab_then_backtab_returns_focus() {
    let state = DialogState::new(&params(&[("a", ""), ("b", ""), ("c", "")]));
    let state = continuing(handle_key(state, KeyCode::Tab, KeyModifiers::none()));
    let state = continuing(handle_key(state, KeyCode::BackTab, KeyModifiers::none()));
    assert_eq!(state.focus, 0);
}

#[test]
fn confirming_the_form_gives_every_placeholder_a_value() {
    let command = "cp <src=a.txt> <dst> && ls <dst>";
    let state = DialogState::new(&extract_params(command));
    let state = continuing(handle_key(state, KeyCode::Tab, KeyModifiers::none()));
    let state = continuing(handle_key(state, KeyCode::Char('b'), KeyModifiers::none()));
    let values = done_values(handle_key(state, KeyCode::Enter, KeyModifiers::none()));
    assert_eq!(values.get("src").map(String::as_str), Some("a.txt"));
    assert_eq!(values.get("dst").map(String::as_str), Some("b"));
    assert_eq!(substitute(command, &values), "cp a.txt b && ls b");
}

#[test]
fn keys_work_with_focus_and_cursor_out_of_range() {
    let mut state = DialogState::new(&params(&[("a", "x"), ("b", "")]));
    state.focus = 5;
    let after = continuing(handle_key(state.clone(), KeyCode::Char('z'), KeyModifiers::none()));
    assert_eq!(after.fields, state.fields);
    let after = continuing(handle_key(state.clone(), KeyCode::Tab, KeyModifiers::none()));
    assert_eq!(after.focus, 0);
    let after = continuing(handle_key(state.clone(), KeyCode::BackTab, KeyModifiers::none()));
    assert_eq!(after.focus, 0);
    let values = done_values(handle_key(state.clone(), KeyCode::Enter, KeyModifiers::none()));
    assert_eq!(values.get("a").map(String::as_str), Some("x"));
    assert!(matches!(handle_key(state, KeyCode::Esc, KeyModifiers::none()), DialogStep::Cancelled));

    let mut state = DialogState::new(&params(&[("a", "ab")]));
    state.fields[0].kind = FieldKind::Text { buffer: "ab".to_string(), cursor: 7 };
    let typed = continuing(handle_key(state.clone(), KeyCode::Char('c'), KeyModifiers::none()));
    assert_eq!(typed.fields[0].kind, FieldKind::Text { buffer: "abc".to_string(), cursor: 8 });
    let back = continuing(handle_key(state, KeyCode::Backspace, KeyModifiers::none()));
    assert_eq!(back.fields[0].kind, FieldKind::Text { buffer: "ab".to_string(), cursor: 6 });
}

#[test]
fn keys_that_never_read_the_options_work_on_any_selection() {
    let mut state = DialogState::new(&params(&[("a", "|_x_||_y_|"), ("b", "t")]));
    state.fields[0].kind = FieldKind::Options { options: vec!["x".to_string(), "y".to_string()], selected: 9 };
    let none = KeyModifiers::none();
    assert!(!fits_key(&state, KeyCode::Enter, none));
    assert!(fits_key(&state, KeyCode::Esc, none));
    assert!(matches!(handle_key(state.clone(), KeyCode::Esc, none), DialogStep::Cancelled));
    assert!(fits_key(&state, KeyCode::Tab, none));
    assert_eq!(continuing(handle_key(state.clone(), KeyCode::Tab, none)).focus, 1);
    assert!(fits_key(&state, KeyCode::Down, none));
    let down = continuing(handle_key(state.clone(), KeyCode::Down, none));
    assert_eq!(down.fields[0].kind, FieldKind::Options { options: vec!["x".to_string(), "y".to_string()], selected: 0 });
    let up = continuing(handle_key(state.clone(), KeyCode::Up, none));
    assert_eq!(up.fields[0].kind, FieldKind::Options { options: vec!["x".to_string(), "y".to_string()], selected: 8 });

    state.focus = usize::MAX;
    assert!(!fits_key(&state, KeyCode::Tab, none));
    assert!(!fits_key(&state, KeyCode::BackTab, none));
    assert!(fits_key(&state, KeyCode::Char('c'), KeyModifiers::ctrl()));
    assert!(fits_key(&state, KeyCode::Char('z'), none));
}

#[test]
fn placeholders_are_the_longest_leftmost_pattern_matches() {
    let names = |command: &str| extract_params(command).into_iter().map(|p| p.name).collect::<Vec<_>>();
    assert_eq!(names("echo <a<b>>"), vec!["b>".to_string()]);
    assert!(names("echo <x >").is_empty());
    assert_eq!(names("<a><b> <c=1>"), vec!["a".to_string(), "b".to_string(), "c".to_string()]);
    assert_eq!(names("<<a>"), vec!["a".to_string()]);
}

#[test]
fn other_keys_edit_only_the_focused_field() {
    let mut state = DialogState::new(&params(&[("a", "x"), ("b", "y"), ("c", "z")]));
    state.focus = 1;
    let after = continuing(handle_key(state.clone(), KeyCode::Char('q'), KeyModifiers::none()));
    assert_eq!(after.focus, 1);
    assert_eq!(after.fields[0], state.fields[0]);
    assert_eq!(after.fields[2], state.fields[2]);
    assert_eq!(after.fields[1].name, "b");
    assert_eq!(after.fields[1].kind, FieldKind::Text { buffer: "yq".to_string(), cursor: 2 });
    assert!(matches!(handle_key(state.clone(), KeyCode::Char('c'), KeyModifiers::ctrl()), DialogStep::Cancelled));
    let typed_c = continuing(handle_key(state, KeyCode::Char('c'), KeyModifiers::none()));
    assert_eq!(typed_c.fields[1].kind, FieldKind::Text { buffer: "yc".to_string(), cursor: 2 });
}
