use vstd::prelude::*;

pub mod text;
pub mod menu;
pub mod state;
pub mod laws;
pub mod theme;
pub mod options;
pub mod labels;
pub mod session;
pub mod demo;

verus! {

/// Visible rows of the palette: never fewer than one, never more than nine.
pub const MAX_ROWS: usize = 9;

pub open spec fn clamp_rows(count: int) -> int {
    if count < 1 {
        1
    } else if count > MAX_ROWS {
        MAX_ROWS as int
    } else {
        count
    }
}

/// Window height in logical pixels for `count` result rows.
pub fn height(count: usize) -> (h: u32)
    ensures
        h == 100 + 52 * clamp_rows(count as int),
        152 <= h <= 568,
{
    let rows: u32 = if count < 1 {
        1
    } else if count > MAX_ROWS {
        9
    } else {
        count as u32
    };
    100 + 52 * rows
}

} // verus!
