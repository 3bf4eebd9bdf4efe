//! Pixel coordinates, the grid, and the overlap test of two boxes.

use vstd::prelude::*;

verus! {

/// Side of one grid cell, in pixels.
pub const GRID_SIZE: usize = 16;

/// The coordinate nearest to `v` that a position can hold.
pub open spec fn to_coord(v: int) -> i32 {
    if v < i32::MIN {
        i32::MIN
    } else if v > i32::MAX {
        i32::MAX
    } else {
        v as i32
    }
}

/// Brings a wide intermediate result back into the range of a coordinate.
pub fn coord(v: i64) -> (c: i32)
    ensures
        c == to_coord(v as int),
{
    if v < -2147483648i64 {
        i32::MIN
    } else if v > 2147483647i64 {
        i32::MAX
    } else {
        v as i32
    }
}

/// Two boxes overlap when their half-open extents meet on both axes.
pub open spec fn overlaps(
    ax: int,
    ay: int,
    aw: int,
    ah: int,
    bx: int,
    by: int,
    bw: int,
    bh: int,
) -> bool {
    ax < bx + bw && ax + aw > bx && ay < by + bh && ay + ah > by
}

/// Tests whether the box at `(x1, y1)` of size `w1 x h1` overlaps the box at
/// `(x2, y2)` of size `w2 x h2`.
pub fn check_collision(
    x1: i32,
    y1: i32,
    w1: u32,
    h1: u32,
    x2: i32,
    y2: i32,
    w2: u32,
    h2: u32,
) -> (hit: bool)
    ensures
        hit == overlaps(
            x1 as int,
            y1 as int,
            w1 as int,
            h1 as int,
            x2 as int,
            y2 as int,
            w2 as int,
            h2 as int,
        ),
{
    let ax: i64 = x1 as i64;
    let ay: i64 = y1 as i64;
    let bx: i64 = x2 as i64;
    let by: i64 = y2 as i64;
    ax < bx + w2 as i64 && ax + w1 as i64 > bx && ay < by + h2 as i64 && ay + h1 as i64 > by
}

/// Overlap does not depend on which box is named first.
pub proof fn lemma_overlaps_symmetric(
    ax: int,
    ay: int,
    aw: int,
    ah: int,
    bx: int,
    by: int,
    bw: int,
    bh: int,
)
    ensures
        overlaps(ax, ay, aw, ah, bx, by, bw, bh) == overlaps(bx, by, bw, bh, ax, ay, aw, ah),
{
}

/// The grid cell that holds a pixel.
pub fn map_to_grid(pixel: (usize, usize)) -> (cell: (usize, usize))
    ensures
        cell.0 == pixel.0 / GRID_SIZE,
        cell.1 == pixel.1 / GRID_SIZE,
{
    (pixel.0 / GRID_SIZE, pixel.1 / GRID_SIZE)
}

/// The pixel at the top-left corner of a grid cell.
pub fn map_to_pixel(grid: (usize, usize)) -> (pixel: (usize, usize))
    requires
        grid.0 * GRID_SIZE <= usize::MAX,
        grid.1 * GRID_SIZE <= usize::MAX,
    ensures
        pixel.0 == grid.0 * GRID_SIZE,
        pixel.1 == grid.1 * GRID_SIZE,
{
    (grid.0 * GRID_SIZE, grid.1 * GRID_SIZE)
}

/// A pixel at a cell's corner lies in that cell.
pub proof fn lemma_grid_round_trip(col: usize, row: usize)
    ensures
        (col * GRID_SIZE) / (GRID_SIZE as int) == col,
        (row * GRID_SIZE) / (GRID_SIZE as int) == row,
{
}

} // verus!
