use pet::tui::{char_byte_index, visible_window};

#[test]
fn visible_window_shows_everything_when_it_all_fits() {
    assert_eq!(visible_window(3, 0, 5), (0, 3));
    assert_eq!(visible_window(3, 2, 3), (0, 3));
}

#[test]
fn visible_window_stays_at_top_while_focus_is_within_the_first_page() {
    assert_eq!(visible_window(10, 0, 3), (0, 3));
    assert_eq!(visible_window(10, 2, 3), (0, 3));
}

#[test]
fn visible_window_scrolls_forward_to_keep_focus_in_view() {
    assert_eq!(visible_window(10, 3, 3), (1, 4));
    assert_eq!(visible_window(10, 9, 3), (7, 10));
}

#[test]
fn visible_window_never_scrolls_past_the_last_page() {
    assert_eq!(visible_window(5, 4, 3), (2, 5));
}

#[test]
fn char_byte_index_handles_multibyte_characters() {
    let s = "héllo";
    assert_eq!(char_byte_index(s, 0), 0);
    assert_eq!(char_byte_index(s, 1), 1);
    assert_eq!(char_byte_index(s, 2), 3);
    assert_eq!(char_byte_index(s, 5), s.len());
}
