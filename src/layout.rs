use vstd::prelude::*;

use crate::cell::Cell;
use crate::world::{WORLD_HEIGHT, WORLD_WIDTH};

verus! {

/// Side of one painted cell, in pixels.
pub const CELL_SIZE: u32 = 10;

/// Room left beyond the last grid line, in pixels.
pub const CANVAS_MARGIN: u32 = 10;

/// Pixel position of grid line `i` (counted from 0), which is also where the
/// cell of index `i` starts: each cell takes `CELL_SIZE` pixels plus one for
/// the line before it, and line 0 stands one pixel in.
pub fn cell_offset(i: u32) -> (r: u32)
    requires
        i * (CELL_SIZE + 1) + 1 <= u32::MAX,
    ensures
        r == i * (CELL_SIZE + 1) + 1,
{
    i * (CELL_SIZE + 1) + 1
}

/// Width of the drawing surface: every column of cells with its line, and
/// the margin.
pub fn canvas_width() -> (r: u32)
    ensures
        r == (CELL_SIZE + 1) * WORLD_WIDTH + CANVAS_MARGIN,
{
    (CELL_SIZE + 1) * WORLD_WIDTH + CANVAS_MARGIN
}

/// Height of the drawing surface: every row of cells with its line, and
/// the margin.
pub fn canvas_height() -> (r: u32)
    ensures
        r == (CELL_SIZE + 1) * WORLD_HEIGHT + CANVAS_MARGIN,
{
    (CELL_SIZE + 1) * WORLD_HEIGHT + CANVAS_MARGIN
}

/// The fill colour of a cell: black when Alive, white when Dead.
pub fn cell_colour(c: Cell) -> (r: &'static str)
    ensures
        c == Cell::Alive ==> r@ == "#000000"@,
        c == Cell::Dead ==> r@ == "#FFFFFF"@,
{
    match c {
        Cell::Alive => "#000000",
        Cell::Dead => "#FFFFFF",
    }
}

} // verus!
