use oxistart::placement::{contains_point, fits_screen, menu_rect, Rect};

fn rect(left: i32, top: i32, right: i32, bottom: i32) -> Rect {
    Rect { left, top, right, bottom }
}

#[test]
fn a_point_on_the_edge_is_inside() {
    let r = rect(10, 20, 30, 40);
    assert!(contains_point(r, 10, 20));
    assert!(contains_point(r, 30, 40));
    assert!(contains_point(r, 20, 30));
    assert!(!contains_point(r, 9, 30));
    assert!(!contains_point(r, 31, 30));
    assert!(!contains_point(r, 20, 19));
    assert!(!contains_point(r, 20, 41));
    assert!(!contains_point(r, -1000, -1000));
    assert!(!contains_point(rect(0, 0, -1, -1), 0, 0));
}

#[test]
fn over_a_taskbar_at_the_bottom_the_menu_stands_on_it() {
    let taskbar = rect(0, 1040, 1920, 1080);
    assert!(fits_screen(taskbar, 1080));
    assert_eq!(menu_rect(taskbar, 1080), rect(0, 440, 400, 1040));
    // a taskbar that ends within fifty of the lower edge counts as at the bottom
    let higher = rect(0, 990, 1920, 1030);
    assert_eq!(menu_rect(higher, 1080), rect(0, 390, 400, 990));
    let too_high = rect(0, 989, 1920, 1029);
    assert_eq!(menu_rect(too_high, 1080), rect(0, 1029, 400, 1629));
}

#[test]
fn under_a_taskbar_at_the_top_the_menu_hangs_from_it() {
    let taskbar = rect(0, 0, 1920, 40);
    assert_eq!(menu_rect(taskbar, 1080), rect(0, 40, 400, 640));
    // a taskbar that begins above the screen is not at the bottom
    let above = rect(0, -2, 1920, 1080);
    assert_eq!(menu_rect(above, 1080), rect(0, 1080, 400, 1680));
}

#[test]
fn beside_an_upright_taskbar_the_menu_stands_at_the_top() {
    let at_left = rect(0, 0, 60, 1080);
    assert_eq!(menu_rect(at_left, 1080), rect(60, 0, 460, 600));
    let nearly_left = rect(49, 0, 109, 1080);
    assert_eq!(menu_rect(nearly_left, 1080), rect(109, 0, 509, 600));
    let at_right = rect(1860, 0, 1920, 1080);
    assert_eq!(menu_rect(at_right, 1080), rect(1460, 0, 1860, 600));
    let not_left = rect(50, 0, 110, 1080);
    assert_eq!(menu_rect(not_left, 1080), rect(-350, 0, 50, 600));
    // a square taskbar counts as upright
    let square = rect(100, 100, 200, 200);
    assert_eq!(menu_rect(square, 1080), rect(-300, 0, 100, 600));
}

#[test]
fn a_menu_that_leaves_the_range_of_coordinates_cannot_be_placed() {
    assert!(fits_screen(rect(0, 0, 0, 0), 0));
    assert!(!fits_screen(rect(i32::MIN, 0, i32::MAX, 10), 1080));
    assert!(!fits_screen(rect(0, i32::MIN, 10, i32::MAX), 1080));
    assert!(!fits_screen(rect(0, 0, 1920, 40), i32::MIN));
    // the height of the screen is not looked at beside an upright taskbar,
    // nor under one that begins above the screen
    assert!(fits_screen(rect(0, 0, 60, 1080), i32::MIN));
    assert!(fits_screen(rect(0, -1, 1920, 40), i32::MIN));
    // the menu would end past the largest coordinate
    assert!(!fits_screen(rect(0, i32::MAX - 700, 1920, i32::MAX - 500), i32::MAX));
    assert!(fits_screen(rect(0, i32::MAX - 700, 1920, i32::MAX - 600), i32::MAX));
    assert!(!fits_screen(rect(0, -10, i32::MAX - 399, i32::MAX - 300), 1080));
    assert!(fits_screen(rect(0, -10, i32::MAX - 400, i32::MAX - 300), 1080));
    assert!(fits_screen(rect(i32::MIN, 0, i32::MIN + 10, 1080), 1080));
}
