use vstd::prelude::*;

use crate::api_types::Coordinates;

verus! {

/// A grid cell: a pair of small signed coordinates (x, y). A cell may lie
/// transiently outside the grid bounds before out-of-bounds eviction runs.
#[derive(Clone, Copy, Debug, PartialEq, Eq, Structural)]
pub struct Cell(pub i8, pub i8);

impl Cell {
    /// Narrows a wire coordinate pair into a cell. Callers must not supply
    /// coordinates outside the representable range.
    pub fn from_coordinates(value: &Coordinates) -> (r: Cell)
        requires
            -128 <= value.x <= 127,
            -128 <= value.y <= 127,
        ensures
            r == Cell(value.x as i8, value.y as i8),
    {
        Cell(value.x as i8, value.y as i8)
    }
}

} // verus!
