use vstd::prelude::*;

verus! {

/// A cell coordinate. Grid cells have both coordinates in `0..10`; values outside
/// that range arise while computing neighbours and are read as `Empty`.
#[derive(Debug, Clone, Copy, PartialEq, Eq, Hash, Structural)]
pub struct Position {
    pub x: i8,
    pub y: i8,
}

/// The axis along which a ship extends.
#[derive(Debug, Clone, Copy, PartialEq, Eq, Hash, Structural)]
pub enum Direction {
    Horizontal,
    Vertical,
}

impl Position {
    /// Both coordinates lie within 50 of the origin, which keeps every
    /// neighbour and bounding-box computation inside `i8`.
    pub open spec fn wf(self) -> bool {
        -50 <= self.x <= 50 && -50 <= self.y <= 50
    }

    /// The position lies on the 10x10 grid.
    pub open spec fn on_grid(self) -> bool {
        0 <= self.x < 10 && 0 <= self.y < 10
    }
}

} // verus!
