//! The coordinate mapper: from a continuous 2-D position to a discrete index
//! of the double-resolution grid, under diamond subdivision.
//!
//! Each logical unit cell is cut by its two diagonals into four triangular
//! regions; each region is mapped onto one cell of the unit cell's 2x2
//! sub-grid. A position is carried as an exact fixed-point value — a whole
//! part and a fractional numerator over [`FRAC_UNIT`] — so the classification
//! against the diagonals is exact arithmetic on integers.

use vstd::prelude::*;

verus! {

/// Denominator of the fractional part of a [`Position`]: one unit cell is
/// `FRAC_UNIT` fractional steps wide on each axis.
pub const FRAC_UNIT: u32 = 1_000_000;

/// A discrete 2-D index into the double-resolution cell grid.
///
/// Coordinates are signed so that positions left of or below the grid map to
/// negative indices, which the bounds checks of the volume then reject.
#[derive(Clone, Copy, Debug, PartialEq, Eq, Structural)]
pub struct CellIndex {
    pub x: i64,
    pub y: i64,
}

/// A continuous 2-D position in logical cell units, held exactly:
/// the value on each axis is `whole + frac / FRAC_UNIT`.
#[derive(Clone, Copy, Debug, PartialEq, Eq, Structural)]
pub struct Position {
    pub whole_x: i32,
    pub frac_x: u32,
    pub whole_y: i32,
    pub frac_y: u32,
}

impl Position {
    /// Validity: the fractional numerators lie inside one unit cell.
    pub open spec fn wf(self) -> bool {
        self.frac_x < FRAC_UNIT && self.frac_y < FRAC_UNIT
    }

    /// Builds a position, rejecting fractional parts of a whole cell or more.
    pub fn new(whole_x: i32, frac_x: u32, whole_y: i32, frac_y: u32) -> (r: Option<Position>)
        ensures
            r is Some <==> (frac_x < FRAC_UNIT && frac_y < FRAC_UNIT),
            r matches Some(p) ==> p == (Position { whole_x, frac_x, whole_y, frac_y }) && p.wf(),
    {
        if frac_x < FRAC_UNIT && frac_y < FRAC_UNIT {
            Some(Position { whole_x, frac_x, whole_y, frac_y })
        } else {
            None
        }
    }
}

/// The horizontal sub-cell offset: 1 exactly when the fractional remainder
/// lies in the right half of the unit cell, that is strictly below the main
/// diagonal `y = x`, or on that diagonal but above the cross diagonal
/// `y = 1 - x` (the upper half of the main diagonal belongs to the right
/// triangle).
pub open spec fn spec_dx(p: Position) -> int {
    if p.frac_y < p.frac_x || (p.frac_y == p.frac_x && p.frac_x + p.frac_y > FRAC_UNIT) {
        1
    } else {
        0
    }
}

/// The vertical sub-cell offset: 1 exactly when the fractional remainder lies
/// strictly above the cross diagonal `y = 1 - x`, or on that diagonal and
/// strictly above the main diagonal (the upper-left half of the cross
/// diagonal belongs to the top triangle).
pub open spec fn spec_dy(p: Position) -> int {
    if p.frac_x + p.frac_y > FRAC_UNIT || (p.frac_x + p.frac_y == FRAC_UNIT && p.frac_y > p.frac_x) {
        1
    } else {
        0
    }
}

/// The diamond mapping itself: the origin of the unit cell's 2x2 sub-grid
/// plus the triangle classification of the fractional remainder.
pub open spec fn spec_map_position(p: Position) -> CellIndex {
    CellIndex {
        x: (2 * (p.whole_x as int) + spec_dx(p)) as i64,
        y: (2 * (p.whole_y as int) + spec_dy(p)) as i64,
    }
}

/// Maps a continuous position to its cell of the double-resolution grid.
///
/// The mapping is a pure function of the position: equal positions always
/// yield equal indices.
pub fn map_position(p: Position) -> (c: CellIndex)
    requires
        p.wf(),
    ensures
        c == spec_map_position(p),
{
    let dx: i64 = if p.frac_y < p.frac_x || (p.frac_y == p.frac_x && p.frac_x + p.frac_y > FRAC_UNIT) {
        1
    } else {
        0
    };
    let dy: i64 = if p.frac_x + p.frac_y > FRAC_UNIT || (p.frac_x + p.frac_y == FRAC_UNIT && p.frac_y > p.frac_x) {
        1
    } else {
        0
    };
    CellIndex { x: 2 * (p.whole_x as i64) + dx, y: 2 * (p.whole_y as i64) + dy }
}

} // verus!
