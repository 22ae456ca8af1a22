use vstd::prelude::*;

use crate::bounds::{boxes_overlap, WithBounds};
use crate::position::{Direction, Position};

verus! {

/// A ship: `size` cells from `start` along `direction`.
#[derive(Debug, Clone, Copy, PartialEq, Eq, Hash, Structural)]
pub struct Ship {
    pub start: Position,
    pub size: i8,
    pub direction: Direction,
}

impl Ship {
    /// The start is near the origin and the size small, so that the cells and
    /// the bounding box of the ship are computed without overflow.
    pub open spec fn wf(self) -> bool {
        self.start.wf() && 0 <= self.size <= 10
    }

    /// `x` of the ship's `i`-th cell.
    pub open spec fn cell_x(self, i: int) -> int {
        match self.direction {
            Direction::Horizontal => self.start.x + i,
            Direction::Vertical => self.start.x as int,
        }
    }

    /// `y` of the ship's `i`-th cell.
    pub open spec fn cell_y(self, i: int) -> int {
        match self.direction {
            Direction::Horizontal => self.start.y as int,
            Direction::Vertical => self.start.y + i,
        }
    }

    /// The ship occupies the cell `(x, y)`.
    pub open spec fn occupies(self, x: int, y: int) -> bool {
        match self.direction {
            Direction::Horizontal => y == self.start.y && self.start.x <= x < self.start.x
                + self.size,
            Direction::Vertical => x == self.start.x && self.start.y <= y < self.start.y
                + self.size,
        }
    }

    /// Every cell of the ship lies on the 10x10 grid.
    pub open spec fn in_grid(self) -> bool {
        &&& 0 <= self.start.x <= 9
        &&& 0 <= self.start.y <= 9
        &&& 0 <= self.cell_x(self.size - 1) <= 9
        &&& 0 <= self.cell_y(self.size - 1) <= 9
    }

    /// The bounding boxes of the two ships overlap: they share or touch cells.
    pub open spec fn collides(self, other: Ship) -> bool {
        boxes_overlap(self.bounds(), other.bounds())
    }

    /// The ship occupies the cell `p` or one of its eight neighbours.
    pub open spec fn touches(self, p: Position) -> bool {
        boxes_overlap(self.bounds(), p.bounds())
    }

    /// Whether the bounding boxes of this ship and `other` overlap.
    pub fn collides_with<T: WithBounds>(&self, other: &T) -> (r: bool)
        requires
            self.wf(),
            other.bounds_wf(),
        ensures
            r == boxes_overlap(self.bounds(), other.bounds()),
    {
        let (self_start, self_end) = self.get_bounds();
        let (other_start, other_end) = other.get_bounds();

        self_start.x < other_end.x && self_end.x > other_start.x && self_start.y < other_end.y
            && self_end.y > other_start.y
    }

    /// The cells of the ship, from its start on.
    pub fn get_occupied_cells(&self) -> (r: Vec<Position>)
        requires
            self.wf(),
        ensures
            r@.len() == self.size,
            forall|i: int|
                0 <= i < self.size ==> r@[i].x == self.cell_x(i) && r@[i].y == self.cell_y(i),
    {
        let mut cells: Vec<Position> = Vec::new();
        let mut i: i8 = 0;
        while i < self.size
            invariant
                self.wf(),
                0 <= i <= self.size,
                cells@.len() == i,
                forall|j: int|
                    0 <= j < i ==> cells@[j].x == self.cell_x(j) && cells@[j].y == self.cell_y(j),
            decreases self.size - i,
        {
            let x = match self.direction {
                Direction::Horizontal => self.start.x + i,
                Direction::Vertical => self.start.x,
            };
            let y = match self.direction {
                Direction::Vertical => self.start.y + i,
                Direction::Horizontal => self.start.y,
            };
            cells.push(Position { x, y });
            i = i + 1;
        }
        cells
    }

    /// The last cell of the ship.
    pub fn get_end(&self) -> (r: Position)
        requires
            self.wf(),
        ensures
            r.x == self.cell_x(self.size - 1),
            r.y == self.cell_y(self.size - 1),
    {
        match self.direction {
            Direction::Horizontal => Position { x: self.start.x + self.size - 1, y: self.start.y },
            Direction::Vertical => Position { x: self.start.x, y: self.start.y + self.size - 1 },
        }
    }
}

impl WithBounds for Ship {
    open spec fn bounds_wf(&self) -> bool {
        self.wf()
    }

    /// The 3x3 neighbourhood of the start, stretched by `size - 1` along the
    /// direction: the ship's cells and every cell that touches them.
    open spec fn bounds(&self) -> (Position, Position) {
        (
            Position { x: (self.start.x - 1) as i8, y: (self.start.y - 1) as i8 },
            Position {
                x: (self.cell_x(self.size - 1) + 1) as i8,
                y: (self.cell_y(self.size - 1) + 1) as i8,
            },
        )
    }

    fn get_bounds(&self) -> (r: (Position, Position)) {
        let (start, end) = self.start.get_bounds();
        match self.direction {
            Direction::Horizontal => (
                Position { x: start.x, y: start.y },
                Position { x: end.x + self.size - 1, y: end.y },
            ),
            Direction::Vertical => (
                Position { x: start.x, y: start.y },
                Position { x: end.x, y: end.y + self.size - 1 },
            ),
        }
    }
}

} // verus!
