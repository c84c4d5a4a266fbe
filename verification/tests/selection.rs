use fivemenu::selection::{Selection, Wheel};

fn at(selected_index: usize, display_start_index: usize) -> Selection {
    Selection { selected_index, display_start_index }
}

#[test]
fn reset_selects_the_first_candidate() {
    assert_eq!(Selection::reset(), at(0, 0));
}

#[test]
fn move_forward_wraps_to_the_first() {
    let mut s = at(4, 0);
    s.move_by(1, 5, 5);
    assert_eq!(s.selected_index, 0);
}

#[test]
fn move_back_wraps_to_the_last() {
    let mut s = at(0, 0);
    s.move_by(-1, 5, 5);
    assert_eq!(s.selected_index, 4);
}

#[test]
fn move_inside_the_list() {
    let mut s = at(2, 0);
    s.move_by(1, 5, 5);
    assert_eq!(s, at(3, 0));
    s.move_by(-1, 5, 5);
    assert_eq!(s, at(2, 0));
    s.move_by(0, 5, 5);
    assert_eq!(s, at(2, 0));
}

#[test]
fn move_in_an_empty_list_does_nothing() {
    let mut s = at(0, 0);
    s.move_by(1, 0, 3);
    assert_eq!(s, at(0, 0));
    s.move_by(-1, 0, 3);
    assert_eq!(s, at(0, 0));
}

#[test]
fn move_below_the_window_pulls_it_down() {
    let mut s = at(2, 0);
    s.move_by(1, 10, 3);
    assert_eq!(s, at(3, 1));
    s.move_by(1, 10, 3);
    assert_eq!(s, at(4, 2));
}

#[test]
fn move_above_the_window_pulls_it_up() {
    let mut s = at(4, 4);
    s.move_by(-1, 10, 3);
    assert_eq!(s, at(3, 3));
}

#[test]
fn wrapping_takes_the_window_along() {
    let mut s = at(0, 0);
    s.move_by(-1, 10, 3);
    assert_eq!(s, at(9, 7));
    s.move_by(1, 10, 3);
    assert_eq!(s, at(0, 0));
}

#[test]
fn move_brings_a_scrolled_window_back() {
    let mut s = at(1, 0);
    s.scroll(Wheel::Down, 10, 3);
    s.scroll(Wheel::Down, 10, 3);
    s.scroll(Wheel::Down, 10, 3);
    assert_eq!(s, at(1, 3));
    s.move_by(1, 10, 3);
    assert_eq!(s, at(2, 2));
}

#[test]
fn large_steps_wrap_once() {
    let mut s = at(2, 0);
    s.move_by(3, 5, 5);
    assert_eq!(s.selected_index, 0);
    let mut s = at(2, 0);
    s.move_by(2, 5, 5);
    assert_eq!(s.selected_index, 4);
    let mut s = at(2, 0);
    s.move_by(-2, 5, 5);
    assert_eq!(s.selected_index, 0);
    let mut s = at(2, 0);
    s.move_by(-3, 5, 5);
    assert_eq!(s.selected_index, 4);
    let mut s = at(2, 0);
    s.move_by(isize::MIN, 5, 5);
    assert_eq!(s.selected_index, 4);
    let mut s = at(2, 0);
    s.move_by(isize::MAX, 5, 5);
    assert_eq!(s.selected_index, 0);
}

#[test]
fn scroll_moves_only_the_window() {
    let mut s = at(0, 0);
    s.scroll(Wheel::Down, 10, 3);
    assert_eq!(s, at(0, 1));
    s.scroll(Wheel::Up, 10, 3);
    assert_eq!(s, at(0, 0));
}

#[test]
fn scroll_stops_at_both_ends() {
    let mut s = at(0, 0);
    s.scroll(Wheel::Up, 10, 3);
    assert_eq!(s, at(0, 0));
    let mut s = at(0, 7);
    s.scroll(Wheel::Down, 10, 3);
    assert_eq!(s, at(0, 7));
}

#[test]
fn scroll_has_no_room_in_a_short_list() {
    let mut s = at(1, 0);
    s.scroll(Wheel::Down, 3, 5);
    assert_eq!(s, at(1, 0));
    s.scroll(Wheel::Down, 5, 5);
    assert_eq!(s, at(1, 0));
    s.scroll(Wheel::Down, 0, 5);
    assert_eq!(s, at(1, 0));
}
