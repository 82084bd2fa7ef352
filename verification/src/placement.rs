//! Where the menu window goes on the screen, and what a click hits.

use vstd::prelude::*;

verus! {

/// The width of the menu window.
pub const MENU_WIDTH: i32 = 400;

/// The height of the menu window.
pub const MENU_HEIGHT: i32 = 600;

/// How far from the left or the lower edge of the screen a taskbar counts
/// as standing at that edge.
pub const EDGE_MARGIN: i32 = 50;

/// A rectangle on the screen, by its edges.
#[derive(Debug, Clone, Copy, PartialEq, Eq, Structural)]
pub struct Rect {
    pub left: i32,
    pub top: i32,
    pub right: i32,
    pub bottom: i32,
}

/// Whether the point lies in the rectangle, its edges counted in.
pub fn contains_point(rect: Rect, x: i32, y: i32) -> (inside: bool)
    ensures
        inside == (rect.left <= x <= rect.right && rect.top <= y <= rect.bottom),
{
    x >= rect.left && x <= rect.right && y >= rect.top && y <= rect.bottom
}

/// The taskbar is wider than it is high: it lies along the upper or the
/// lower edge of the screen.
pub open spec fn lies_flat(taskbar: Rect) -> bool {
    taskbar.right - taskbar.left > taskbar.bottom - taskbar.top
}

/// The upper left corner of the menu. Over a taskbar at the lower edge of
/// the screen the menu stands on it, and under any other flat taskbar it hangs
/// from it, at the left edge in both cases. Beside an upright taskbar the menu
/// stands at the top: to its right if the taskbar is at the left edge, and else
/// to its left.
pub open spec fn menu_corner(taskbar: Rect, screen_height: i32) -> (int, int) {
    if lies_flat(taskbar) {
        if taskbar.top >= 0 && taskbar.bottom >= screen_height - EDGE_MARGIN {
            (0, taskbar.top - MENU_HEIGHT)
        } else {
            (0, taskbar.bottom as int)
        }
    } else {
        if taskbar.left < EDGE_MARGIN {
            (taskbar.right as int, 0)
        } else {
            (taskbar.left - MENU_WIDTH, 0)
        }
    }
}

/// The sizes of the taskbar, the height that its lower edge is held
/// against, and the edges of the menu are numbers of 32 bits.
pub open spec fn can_place(taskbar: Rect, screen_height: i32) -> bool {
    &&& i32::MIN <= taskbar.right - taskbar.left <= i32::MAX
    &&& i32::MIN <= taskbar.bottom - taskbar.top <= i32::MAX
    &&& lies_flat(taskbar) && taskbar.top >= 0 ==> i32::MIN <= screen_height - EDGE_MARGIN
    &&& i32::MIN <= menu_corner(taskbar, screen_height).0
    &&& menu_corner(taskbar, screen_height).0 + MENU_WIDTH <= i32::MAX
    &&& i32::MIN <= menu_corner(taskbar, screen_height).1
    &&& menu_corner(taskbar, screen_height).1 + MENU_HEIGHT <= i32::MAX
}

/// The rectangle of the menu window for a taskbar at `taskbar` on a screen of
/// the height `screen_height`.
pub fn menu_rect(taskbar: Rect, screen_height: i32) -> (menu: Rect)
    requires
        can_place(taskbar, screen_height),
    ensures
        menu.left == menu_corner(taskbar, screen_height).0,
        menu.top == menu_corner(taskbar, screen_height).1,
        menu.right == menu.left + MENU_WIDTH,
        menu.bottom == menu.top + MENU_HEIGHT,
{
    let mut x: i32 = 0;
    let mut y: i32 = 0;
    let width = taskbar.right - taskbar.left;
    let height = taskbar.bottom - taskbar.top;
    if width > height {
        if taskbar.top >= 0 && taskbar.bottom >= screen_height - EDGE_MARGIN {
            y = taskbar.top - MENU_HEIGHT;
        } else {
            y = taskbar.bottom;
        }
    } else {
        if taskbar.left < EDGE_MARGIN {
            x = taskbar.right;
        } else {
            x = taskbar.left - MENU_WIDTH;
        }
    }
    Rect { left: x, top: y, right: x + MENU_WIDTH, bottom: y + MENU_HEIGHT }
}

/// Decides `can_place`.
pub fn fits_screen(taskbar: Rect, screen_height: i32) -> (fits: bool)
    ensures
        fits == can_place(taskbar, screen_height),
{
    let width = taskbar.right as i64 - taskbar.left as i64;
    let height = taskbar.bottom as i64 - taskbar.top as i64;
    let low = i32::MIN as i64;
    let high = i32::MAX as i64;
    if width < low || width > high || height < low || height > high {
        return false;
    }
    let mut x: i64 = 0;
    let mut y: i64 = 0;
    if width > height {
        if taskbar.top >= 0 {
            let line = screen_height as i64 - EDGE_MARGIN as i64;
            if line < low {
                return false;
            }
            if taskbar.bottom as i64 >= line {
                y = taskbar.top as i64 - MENU_HEIGHT as i64;
            } else {
                y = taskbar.bottom as i64;
            }
        } else {
            y = taskbar.bottom as i64;
        }
    } else {
        if taskbar.left < EDGE_MARGIN {
            x = taskbar.right as i64;
        } else {
            x = taskbar.left as i64 - MENU_WIDTH as i64;
        }
    }
    low <= x && x + MENU_WIDTH as i64 <= high && low <= y && y + MENU_HEIGHT as i64 <= high
}

} // verus!
