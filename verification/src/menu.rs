//! What the keys do in the open menu: how the selection moves through the
//! list, and in which way the selected entry is launched.

use vstd::prelude::*;

verus! {

/// The row that is selected after the down key, where the selection
/// changes: the first row if none was selected, and else the next row if
/// there is one.
pub open spec fn row_below(selected: Option<usize>, count: usize) -> Option<usize> {
    match selected {
        None => if count > 0 {
            Some(0usize)
        } else {
            None
        },
        Some(row) => if row + 1 < count {
            Some((row + 1) as usize)
        } else {
            None
        },
    }
}

/// The row that is selected after the up key, where the selection changes:
/// the row before the selected one, if there is one.
pub open spec fn row_above(selected: Option<usize>) -> Option<usize> {
    match selected {
        Some(row) => if row > 0 {
            Some((row - 1) as usize)
        } else {
            None
        },
        None => None,
    }
}

/// Moves the selection down by one row in a list of `count` rows. Gives the
/// row to select, or nothing where the selection stays.
pub fn selection_below(selected: Option<usize>, count: usize) -> (next: Option<usize>)
    ensures
        next == row_below(selected, count),
{
    match selected {
        None => if count > 0 {
            Some(0)
        } else {
            None
        },
        Some(row) => if row < count && row + 1 < count {
            Some(row + 1)
        } else {
            None
        },
    }
}

/// Moves the selection up by one row. Gives the row to select, or nothing
/// where the selection stays.
pub fn selection_above(selected: Option<usize>) -> (next: Option<usize>)
    ensures
        next == row_above(selected),
{
    match selected {
        Some(row) => if row > 0 {
            Some(row - 1)
        } else {
            None
        },
        None => None,
    }
}

/// The way in which the selected entry is launched.
#[derive(Debug, Clone, Copy, PartialEq, Eq, Structural)]
pub enum LaunchMode {
    /// Opened as it is.
    Normal,
    /// Run with the rights of an administrator.
    AsAdmin,
    /// Shown in its folder.
    OpenLocation,
}

/// The way in which the enter key launches: as administrator with the alt
/// key held, in its folder with the shift key held and alt not, and else as it
/// is.
pub fn launch_mode(alt: bool, shift: bool) -> (mode: LaunchMode)
    ensures
        alt ==> mode == LaunchMode::AsAdmin,
        !alt && shift ==> mode == LaunchMode::OpenLocation,
        !alt && !shift ==> mode == LaunchMode::Normal,
{
    if alt {
        LaunchMode::AsAdmin
    } else if shift {
        LaunchMode::OpenLocation
    } else {
        LaunchMode::Normal
    }
}

} // verus!
