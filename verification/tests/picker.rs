use pet::keys::{KeyCode, KeyModifiers};
use pet::picker::{compute_matches, handle_key, PickStep, PickerState};

fn items(values: &[&str]) -> Vec<String> {
    values.iter().map(|s| s.to_string()).collect()
}

fn continuing(step: PickStep) -> PickerState {
    match step {
        PickStep::Continue(state) => state,
        _ => panic!("expected Continue"),
    }
}

fn done(step: PickStep) -> Vec<usize> {
    match step {
        PickStep::Done(indices) => indices,
        _ => panic!("expected Done"),
    }
}

#[test]
fn empty_query_returns_every_item_in_original_order() {
    let matches = compute_matches(&items(&["b", "a", "c"]), "");
    let indices: Vec<_> = matches.iter().map(|m| m.index).collect();
    assert_eq!(indices, vec![0, 1, 2]);
    assert!(matches.iter().all(|m| m.positions.is_empty()));
}

#[test]
fn query_filters_out_non_matching_items() {
    let matches = compute_matches(&items(&["docker ps", "ping host", "list files"]), "dkr");
    let indices: Vec<_> = matches.iter().map(|m| m.index).collect();
    assert_eq!(indices, vec![0]);
}

#[test]
fn query_ranks_stronger_matches_first() {
    let matches = compute_matches(&items(&["run docker container", "detect on cellar keeper"]), "docker");
    let indices: Vec<_> = matches.iter().map(|m| m.index).collect();
    assert_eq!(indices, vec![0, 1]);
}

#[test]
fn query_matching_nothing_returns_empty() {
    let matches = compute_matches(&items(&["a", "b"]), "zzz-no-match-zzz");
    assert!(matches.is_empty());
}

#[test]
fn new_seeds_query_and_cursor_from_initial_query() {
    let state = PickerState::new(items(&["a", "b"]), "hi");
    assert_eq!(state.query, "hi");
    assert_eq!(state.cursor, 2);
}

#[test]
fn down_then_up_returns_focus_to_start() {
    let state = PickerState::new(items(&["a", "b", "c"]), "");
    let state = continuing(handle_key(state, KeyCode::Down, KeyModifiers::none()));
    assert_eq!(state.focus, 1);
    let state = continuing(handle_key(state, KeyCode::Up, KeyModifiers::none()));
    assert_eq!(state.focus, 0);
}

#[test]
fn focus_wraps_around_in_both_directions() {
    let state = PickerState::new(items(&["a", "b", "c"]), "");
    let state = continuing(handle_key(state, KeyCode::Up, KeyModifiers::none()));
    assert_eq!(state.focus, 2, "up from the first item should wrap to the last");
    let state = continuing(handle_key(state, KeyCode::Down, KeyModifiers::none()));
    let state = continuing(handle_key(state, KeyCode::Down, KeyModifiers::none()));
    assert_eq!(state.focus, 1);
    let state = continuing(handle_key(state, KeyCode::Down, KeyModifiers::none()));
    assert_eq!(state.focus, 2);
    let state = continuing(handle_key(state, KeyCode::Down, KeyModifiers::none()));
    assert_eq!(state.focus, 0, "down from the last item should wrap to the first");
}

#[test]
fn navigation_on_empty_matches_does_not_panic() {
    let state = PickerState::new(items(&["a"]), "no-such-match");
    assert!(state.matches.is_empty());
    let state = continuing(handle_key(state, KeyCode::Down, KeyModifiers::none()));
    assert_eq!(state.focus, 0);
}

#[test]
fn typing_appends_to_query_and_refilters() {
    let state = PickerState::new(items(&["docker ps", "ping host"]), "");
    let state = continuing(handle_key(state, KeyCode::Char('d'), KeyModifiers::none()));
    let state = continuing(handle_key(state, KeyCode::Char('k'), KeyModifiers::none()));
    assert_eq!(state.query, "dk");
    let matched: Vec<_> = state.matches.iter().map(|m| m.index).collect();
    assert_eq!(matched, vec![0]);
}

#[test]
fn backspace_removes_before_cursor_and_refilters() {
    let state = PickerState::new(items(&["docker ps", "ping host"]), "dkr");
    assert!(state.matches.len() == 1);
    let state = continuing(handle_key(state, KeyCode::Backspace, KeyModifiers::none()));
    assert_eq!(state.query, "dk");
    assert_eq!(state.cursor, 2);
}

#[test]
fn backspace_at_start_of_query_is_a_noop() {
    let state = PickerState::new(items(&["a"]), "");
    let state = continuing(handle_key(state, KeyCode::Backspace, KeyModifiers::none()));
    assert_eq!(state.query, "");
}

#[test]
fn picker_left_arrow_moves_cursor_and_insert_happens_there() {
    let state = PickerState::new(items(&["a"]), "ac");
    let state = continuing(handle_key(state, KeyCode::Left, KeyModifiers::none()));
    let state = continuing(handle_key(state, KeyCode::Char('b'), KeyModifiers::none()));
    assert_eq!(state.query, "abc");
    assert_eq!(state.cursor, 2);
}

#[test]
fn editing_the_query_resets_focus_to_the_top_match() {
    let state = PickerState::new(items(&["a", "b", "c"]), "");
    let state = continuing(handle_key(state, KeyCode::Down, KeyModifiers::none()));
    assert_eq!(state.focus, 1);
    let state = continuing(handle_key(state, KeyCode::Char('a'), KeyModifiers::none()));
    assert_eq!(state.focus, 0);
}

#[test]
fn enter_with_nothing_toggled_picks_the_focused_item() {
    let state = PickerState::new(items(&["a", "b", "c"]), "");
    let state = continuing(handle_key(state, KeyCode::Down, KeyModifiers::none()));
    let indices = done(handle_key(state, KeyCode::Enter, KeyModifiers::none()));
    assert_eq!(indices, vec![1]);
}

#[test]
fn enter_on_empty_matches_confirms_nothing() {
    let state = PickerState::new(items(&["a"]), "no-such-match");
    let indices = done(handle_key(state, KeyCode::Enter, KeyModifiers::none()));
    assert!(indices.is_empty());
}

#[test]
fn tab_toggles_selection_and_advances_focus() {
    let state = PickerState::new(items(&["a", "b", "c"]), "");
    let state = continuing(handle_key(state, KeyCode::Tab, KeyModifiers::none()));
    assert!(state.selected.contains(&0));
    assert_eq!(state.focus, 1, "Tab should advance focus after toggling");
}

#[test]
fn tab_twice_on_the_same_item_untoggles_it() {
    let state = PickerState::new(items(&["a", "b"]), "");
    let state = continuing(handle_key(state, KeyCode::Tab, KeyModifiers::none()));
    let state = continuing(handle_key(state, KeyCode::Up, KeyModifiers::none()));
    let state = continuing(handle_key(state, KeyCode::Tab, KeyModifiers::none()));
    assert!(state.selected.is_empty());
}

#[test]
fn enter_with_toggled_items_returns_all_of_them_sorted() {
    let state = PickerState::new(items(&["a", "b", "c"]), "");
    let state = continuing(handle_key(state, KeyCode::Tab, KeyModifiers::none()));
    let state = continuing(handle_key(state, KeyCode::Tab, KeyModifiers::none()));
    let indices = done(handle_key(state, KeyCode::Enter, KeyModifiers::none()));
    assert_eq!(indices, vec![0, 1]);
}

#[test]
fn picker_esc_cancels() {
    let state = PickerState::new(items(&["a"]), "");
    assert!(matches!(handle_key(state, KeyCode::Esc, KeyModifiers::none()), PickStep::Cancelled));
}

#[test]
fn picker_ctrl_c_cancels() {
    let state = PickerState::new(items(&["a"]), "");
    assert!(matches!(
        handle_key(state, KeyCode::Char('c'), KeyModifiers::ctrl()),
        PickStep::Cancelled
    ));
}

#[test]
fn picker_plain_c_does_not_cancel() {
    let state = PickerState::new(items(&["a"]), "");
    let state = continuing(handle_key(state, KeyCode::Char('c'), KeyModifiers::none()));
    assert_eq!(state.query, "c");
}
