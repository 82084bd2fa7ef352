use oxistart::menu::{launch_mode, selection_above, selection_below, LaunchMode};

#[test]
fn the_down_key_selects_the_first_row_or_the_next() {
    assert_eq!(selection_below(None, 3), Some(0));
    assert_eq!(selection_below(Some(0), 3), Some(1));
    assert_eq!(selection_below(Some(1), 3), Some(2));
    assert_eq!(selection_below(None, 1), Some(0));
}

#[test]
fn the_down_key_stops_at_the_last_row() {
    assert_eq!(selection_below(Some(2), 3), None);
    assert_eq!(selection_below(Some(0), 1), None);
    assert_eq!(selection_below(None, 0), None);
    // a selection past the list stays where it is
    assert_eq!(selection_below(Some(7), 3), None);
    assert_eq!(selection_below(Some(usize::MAX), usize::MAX), None);
    assert_eq!(selection_below(Some(usize::MAX - 1), usize::MAX), None);
    assert_eq!(selection_below(Some(usize::MAX - 2), usize::MAX), Some(usize::MAX - 1));
}

#[test]
fn the_up_key_selects_the_row_before() {
    assert_eq!(selection_above(Some(2)), Some(1));
    assert_eq!(selection_above(Some(1)), Some(0));
    assert_eq!(selection_above(Some(0)), None);
    assert_eq!(selection_above(None), None);
    assert_eq!(selection_above(Some(usize::MAX)), Some(usize::MAX - 1));
}

#[test]
fn the_alt_key_goes_before_the_shift_key() {
    assert_eq!(launch_mode(false, false), LaunchMode::Normal);
    assert_eq!(launch_mode(true, false), LaunchMode::AsAdmin);
    assert_eq!(launch_mode(false, true), LaunchMode::OpenLocation);
    assert_eq!(launch_mode(true, true), LaunchMode::AsAdmin);
}
