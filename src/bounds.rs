use vstd::prelude::*;

use crate::position::Position;

verus! {

/// Strict overlap of two axis-aligned boxes given by their corners.
pub open spec fn boxes_overlap(a: (Position, Position), b: (Position, Position)) -> bool {
    &&& a.0.x < b.1.x
    &&& a.1.x > b.0.x
    &&& a.0.y < b.1.y
    &&& a.1.y > b.0.y
}

/// A value with an axis-aligned bounding box, used for the no-touching rule.
pub trait WithBounds {
    /// The value is small enough for its box to be computed without overflow.
    spec fn bounds_wf(&self) -> bool;

    /// The corners of the box: the lower one first.
    spec fn bounds(&self) -> (Position, Position);

    fn get_bounds(&self) -> (r: (Position, Position))
        requires
            self.bounds_wf(),
        ensures
            r == self.bounds(),
    ;
}

impl WithBounds for Position {
    open spec fn bounds_wf(&self) -> bool {
        self.wf()
    }

    /// The 3x3 neighbourhood of the cell.
    open spec fn bounds(&self) -> (Position, Position) {
        (
            Position { x: (self.x - 1) as i8, y: (self.y - 1) as i8 },
            Position { x: (self.x + 1) as i8, y: (self.y + 1) as i8 },
        )
    }

    fn get_bounds(&self) -> (r: (Position, Position)) {
        let start = Position { x: self.x - 1, y: self.y - 1 };
        let end = Position { x: self.x + 1, y: self.y + 1 };
        (start, end)
    }
}

} // verus!
