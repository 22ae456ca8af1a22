use vstd::prelude::*;

use crate::position::{Direction, Position};

verus! {

/// What is known of one cell of a grid.
#[derive(Debug, Clone, Copy, PartialEq, Eq, Hash, Structural)]
pub enum CellState {
    /// Hit, and its ship is not sunk yet.
    Damaged,
    /// Hit, and its ship is sunk.
    Destroyed,
    /// Water, or outside the grid.
    Empty,
    /// Occupied and not hit (own board only).
    Ship,
    /// Not observed yet.
    Unknown,
}

/// A state that belongs to a ship: `Ship`, `Destroyed` or `Damaged`.
pub open spec fn is_ship_state(s: CellState) -> bool {
    s is Ship || s is Destroyed || s is Damaged
}

/// The 10x10 observation grid, indexed `cells[x][y]`.
#[derive(Debug, Clone)]
pub struct Board {
    pub cells: Vec<Vec<CellState>>,
}

/// The `k`-th position in scan order: `x` major, `y` minor.
pub open spec fn scan_pos(k: int) -> Position {
    Position { x: (k / 10) as i8, y: (k % 10) as i8 }
}

/// `x` of the cell `j` steps from `p` along `d` (negative `j` goes back).
pub open spec fn step_x(p: Position, d: Direction, j: int) -> int {
    match d {
        Direction::Horizontal => p.x + j,
        Direction::Vertical => p.x as int,
    }
}

/// `y` of the cell `j` steps from `p` along `d` (negative `j` goes back).
pub open spec fn step_y(p: Position, d: Direction, j: int) -> int {
    match d {
        Direction::Horizontal => p.y as int,
        Direction::Vertical => p.y + j,
    }
}

/// A predicate that holds everywhere.
pub open spec fn anywhere() -> spec_fn(Position) -> bool {
    |p: Position| true
}

impl Board {
    /// The grid has 10 columns of 10 cells.
    pub open spec fn wf(&self) -> bool {
        &&& self.cells@.len() == 10
        &&& forall|x: int| 0 <= x < 10 ==> (#[trigger] self.cells@[x])@.len() == 10
    }

    /// The state of cell `(x, y)`; `Empty` off the grid.
    pub open spec fn cell(self, x: int, y: int) -> CellState {
        if 0 <= x < 10 && 0 <= y < 10 {
            self.cells@[x]@[y]
        } else {
            CellState::Empty
        }
    }

    /// The state at `p`; `Empty` off the grid.
    pub open spec fn at(self, p: Position) -> CellState {
        self.cell(p.x as int, p.y as int)
    }

    /// Cell `(x, y)` belongs to a ship.
    pub open spec fn ship_at(self, x: int, y: int) -> bool {
        is_ship_state(self.cell(x, y))
    }

    /// Cell `(x, y)` is `Unknown`.
    pub open spec fn unknown_at(self, x: int, y: int) -> bool {
        self.cell(x, y) is Unknown
    }

    /// One of the eight cells around `(x, y)` belongs to a ship.
    pub open spec fn next_to_ship(self, x: int, y: int) -> bool {
        ||| self.ship_at(x - 1, y - 1)
        ||| self.ship_at(x, y - 1)
        ||| self.ship_at(x + 1, y - 1)
        ||| self.ship_at(x - 1, y)
        ||| self.ship_at(x + 1, y)
        ||| self.ship_at(x - 1, y + 1)
        ||| self.ship_at(x, y + 1)
        ||| self.ship_at(x + 1, y + 1)
    }

    /// The positions among the first `k` in scan order whose state is in
    /// `states` and that satisfy `pred`, in scan order.
    pub open spec fn scan_upto(
        self,
        states: Seq<CellState>,
        pred: spec_fn(Position) -> bool,
        k: int,
    ) -> Seq<Position>
        decreases k,
    {
        if k <= 0 {
            Seq::empty()
        } else {
            let prev = self.scan_upto(states, pred, k - 1);
            let p = scan_pos(k - 1);
            if states.contains(self.at(p)) && pred(p) {
                prev.push(p)
            } else {
                prev
            }
        }
    }

    /// All positions of the grid whose state is in `states` and that satisfy
    /// `pred`, in scan order.
    pub open spec fn scan(self, states: Seq<CellState>, pred: spec_fn(Position) -> bool) -> Seq<
        Position,
    > {
        self.scan_upto(states, pred, 100)
    }

    /// The first position from the `k`-th on, in scan order, whose state is in
    /// `states` and that satisfies `pred`.
    pub open spec fn first_from(
        self,
        states: Seq<CellState>,
        pred: spec_fn(Position) -> bool,
        k: int,
    ) -> Option<Position>
        decreases 100 - k,
    {
        if k >= 100 || k < 0 {
            None
        } else {
            let p = scan_pos(k);
            if states.contains(self.at(p)) && pred(p) {
                Some(p)
            } else {
                self.first_from(states, pred, k + 1)
            }
        }
    }

    /// The directions a ship through `p` may take: the one of an adjacent ship
    /// cell after `p` (`x + 1` first, then `y + 1`); else each direction with an
    /// `Unknown` neighbour of `p` on that axis.
    pub open spec fn directions_at(self, p: Position) -> Seq<Direction> {
        let x = p.x as int;
        let y = p.y as int;
        if self.ship_at(x + 1, y) {
            seq![Direction::Horizontal]
        } else if self.ship_at(x, y + 1) {
            seq![Direction::Vertical]
        } else {
            (if self.unknown_at(x + 1, y) || self.unknown_at(x - 1, y) {
                seq![Direction::Horizontal]
            } else {
                Seq::empty()
            }) + (if self.unknown_at(x, y + 1) || self.unknown_at(x, y - 1) {
                seq![Direction::Vertical]
            } else {
                Seq::empty()
            })
        }
    }

    /// From step `j` on: the first step along `d` from `p` that is not a ship
    /// cell, or `m` when the steps up to `m` all are.
    pub open spec fn run_from(self, p: Position, d: Direction, j: int, m: int) -> int
        decreases m - j,
    {
        if !self.ship_at(step_x(p, d, j), step_y(p, d, j)) {
            j
        } else if j >= m {
            m
        } else {
            self.run_from(p, d, j + 1, m)
        }
    }

    /// Length of the run of ship cells that starts at `p` and goes along `d`,
    /// counting `p` itself and at most `m` cells; `0` when `m <= 0`.
    pub open spec fn run_size(self, p: Position, d: Direction, m: int) -> int {
        if m <= 0 {
            0
        } else {
            self.run_from(p, d, 1, m)
        }
    }

    /// Number of consecutive `Unknown` cells at steps `j`, `j + s`, `j + 2s`, ...
    /// from `p` along `d`, at most `cap`.
    pub open spec fn unknown_run(self, p: Position, d: Direction, j: int, s: int, cap: int) -> int
        decreases cap,
    {
        if cap <= 0 {
            0
        } else if !self.unknown_at(step_x(p, d, j), step_y(p, d, j)) {
            0
        } else {
            1 + self.unknown_run(p, d, j + s, s, cap - 1)
        }
    }

    /// Whether the board has 10 columns of 10 cells.
    pub fn has_grid_shape(&self) -> (r: bool)
        ensures
            r == self.wf(),
    {
        if self.cells.len() != 10 {
            return false;
        }
        let mut x: usize = 0;
        while x < 10
            invariant
                self.cells@.len() == 10,
                0 <= x <= 10,
                forall|i: int| 0 <= i < x ==> (#[trigger] self.cells@[i])@.len() == 10,
            decreases 10 - x,
        {
            if self.cells[x].len() != 10 {
                return false;
            }
            x = x + 1;
        }
        true
    }

    /// The state at `position`; `Empty` off the grid.
    pub fn get_cell(&self, position: Position) -> (r: CellState)
        requires
            self.wf(),
        ensures
            r == self.at(position),
    {
        if position.x < 0 || position.y < 0 || position.x > 9 || position.y > 9 {
            return CellState::Empty;
        }
        self.cells[position.x as usize][position.y as usize]
    }

    /// Sets the state at `position`; does nothing off the grid.
    pub fn set_cell(&mut self, position: Position, state: CellState)
        requires
            old(self).wf(),
        ensures
            final(self).wf(),
            forall|x: int, y: int|
                #[trigger] final(self).cell(x, y) == if x == position.x && y == position.y
                    && position.on_grid() {
                    state
                } else {
                    old(self).cell(x, y)
                },
    {
        if position.x < 0 || position.y < 0 || position.x > 9 || position.y > 9 {
            return;
        }
        let xi = position.x as usize;
        let yi = position.y as usize;
        let mut col: Vec<CellState> = Vec::new();
        let mut j: usize = 0;
        while j < 10
            invariant
                self.wf(),
                xi < 10,
                0 <= j <= 10,
                col@.len() == j,
                forall|k: int|
                    0 <= k < j ==> #[trigger] col@[k] == if k == yi {
                        state
                    } else {
                        self.cells@[xi as int]@[k]
                    },
            decreases 10 - j,
        {
            if j == yi {
                col.push(state);
            } else {
                col.push(self.cells[xi][j]);
            }
            j = j + 1;
        }
        self.cells.set(xi, col);
    }

    /// Whether the state at `position` is one of `state`.
    pub fn check_cell(&self, position: Position, state: Vec<CellState>) -> (r: bool)
        requires
            self.wf(),
        ensures
            r == state@.contains(self.at(position)),
    {
        contains_state(&state, self.get_cell(position))
    }

    /// The positions in scan order whose state is one of `state` and that
    /// `filter` accepts. `filter` is consulted on every position whose state
    /// is one of `state`.
    pub fn find_cells<CB: Fn(&Position) -> bool>(&self, state: Vec<CellState>, filter: CB) -> (r:
        Vec<Position>)
        requires
            self.wf(),
            forall|p: Position| p.on_grid() ==> #[trigger] filter.requires((&p,)),
            forall|p: Position, a: bool, b: bool|
                #[trigger] filter.ensures((&p,), a) && #[trigger] filter.ensures((&p,), b) ==> a
                    == b,
        ensures
            r@ == self.scan(state@, |p: Position| filter.ensures((&p,), true)),
            forall|k: int|
                0 <= k < 100 && state@.contains(#[trigger] self.at(scan_pos(k))) ==> (
                filter.ensures((&scan_pos(k),), true) || filter.ensures((&scan_pos(k),), false)),
    {
        let ghost pred = |p: Position| filter.ensures((&p,), true);
        let mut positions: Vec<Position> = Vec::new();
        let mut k: usize = 0;
        while k < 100
            invariant
                self.wf(),
                k <= 100,
                forall|p: Position| p.on_grid() ==> #[trigger] filter.requires((&p,)),
                forall|p: Position, a: bool, b: bool|
                    #[trigger] filter.ensures((&p,), a) && #[trigger] filter.ensures((&p,), b)
                        ==> a == b,
                pred == (|p: Position| filter.ensures((&p,), true)),
                positions@ == self.scan_upto(state@, pred, k as int),
                forall|j: int|
                    0 <= j < k && state@.contains(#[trigger] self.at(scan_pos(j))) ==> (
                    filter.ensures((&scan_pos(j),), true) || filter.ensures(
                        (&scan_pos(j),),
                        false,
                    )),
            decreases 100 - k,
        {
            let x = k / 10;
            let y = k % 10;
            let position = Position { x: x as i8, y: y as i8 };
            assert(position == scan_pos(k as int));
            let c = self.cells[x][y];
            assert(c == self.at(position));
            if contains_state(&state, c) {
                if filter(&position) {
                    positions.push(position);
                }
            }
            k = k + 1;
        }
        positions
    }

    /// The first position in scan order whose state is one of `state` and that
    /// `filter` accepts; `filter` is consulted on every position before it whose
    /// state is one of `state`.
    pub fn find_cell<CB: Fn(&Position) -> bool>(&self, state: Vec<CellState>, filter: CB) -> (r:
        Option<Position>)
        requires
            self.wf(),
            forall|p: Position| p.on_grid() ==> #[trigger] filter.requires((&p,)),
        ensures
            match r {
                Some(p) => {
                    &&& p.on_grid()
                    &&& state@.contains(self.at(p))
                    &&& filter.ensures((&p,), true)
                    &&& forall|k: int|
                        0 <= k < 10 * p.x + p.y && state@.contains(#[trigger] self.at(scan_pos(k)))
                            ==> filter.ensures((&scan_pos(k),), false)
                },
                None => forall|k: int|
                    0 <= k < 100 && state@.contains(#[trigger] self.at(scan_pos(k)))
                        ==> filter.ensures((&scan_pos(k),), false),
            },
    {
        let mut k: usize = 0;
        while k < 100
            invariant
                self.wf(),
                k <= 100,
                forall|p: Position| p.on_grid() ==> #[trigger] filter.requires((&p,)),
                forall|j: int|
                    0 <= j < k && state@.contains(#[trigger] self.at(scan_pos(j)))
                        ==> filter.ensures((&scan_pos(j),), false),
            decreases 100 - k,
        {
            let x = k / 10;
            let y = k % 10;
            let position = Position { x: x as i8, y: y as i8 };
            assert(position == scan_pos(k as int));
            let c = self.cells[x][y];
            assert(c == self.at(position));
            if contains_state(&state, c) {
                if filter(&position) {
                    return Some(position);
                }
            }
            k = k + 1;
        }
        None
    }

    /// The directions a ship through `start` may take (see `directions_at`).
    pub fn detect_direction(&self, start: &Position) -> (r: Vec<Direction>)
        requires
            self.wf(),
            start.wf(),
        ensures
            r@ == self.directions_at(*start),
    {
        let x = start.x;
        let y = start.y;
        if self.ship_cell(Position { x: x + 1, y }) {
            return vec![Direction::Horizontal];
        }
        if self.ship_cell(Position { x, y: y + 1 }) {
            return vec![Direction::Vertical];
        }
        let mut possible_directions: Vec<Direction> = Vec::new();
        if self.unknown_cell(Position { x: x + 1, y }) || self.unknown_cell(Position { x: x - 1, y }) {
            possible_directions.push(Direction::Horizontal);
        }
        if self.unknown_cell(Position { x, y: y + 1 }) || self.unknown_cell(Position { x, y: y - 1 }) {
            possible_directions.push(Direction::Vertical);
        }
        proof {
            let x = start.x as int;
            let y = start.y as int;
            let h: Seq<Direction> = if self.unknown_at(x + 1, y) || self.unknown_at(x - 1, y) {
                seq![Direction::Horizontal]
            } else {
                Seq::empty()
            };
            let v: Seq<Direction> = if self.unknown_at(x, y + 1) || self.unknown_at(x, y - 1) {
                seq![Direction::Vertical]
            } else {
                Seq::empty()
            };
            assert(possible_directions@ =~= h + v);
        }
        possible_directions
    }

    /// The position `j` steps from `start` along `direction`.
    pub(crate) fn step(start: &Position, direction: &Direction, j: i8) -> (r: Position)
        requires
            start.wf(),
            -20 <= j <= 20,
        ensures
            r.x == step_x(*start, *direction, j as int),
            r.y == step_y(*start, *direction, j as int),
    {
        match direction {
            Direction::Horizontal => Position { x: start.x + j, y: start.y },
            Direction::Vertical => Position { x: start.x, y: start.y + j },
        }
    }

    /// Length of the run of ship cells from `start` along `direction`, at most
    /// `max_size` (see `run_size`).
    pub fn detect_size(&self, start: &Position, direction: &Direction, max_size: &i8) -> (r: i8)
        requires
            self.wf(),
            start.wf(),
            *max_size <= 10,
        ensures
            r == self.run_size(*start, *direction, *max_size as int),
    {
        let m = *max_size;
        let mut size: i8 = 1;
        let mut done = false;
        while !done && size <= m
            invariant
                self.wf(),
                start.wf(),
                m == *max_size,
                m <= 10,
                1 <= size,
                m >= 1 ==> size <= m + 1,
                m < 1 ==> size == 1 && !done,
                done ==> size - 1 == self.run_size(*start, *direction, m as int),
                !done && size <= m ==> self.run_size(*start, *direction, m as int)
                    == self.run_from(*start, *direction, size as int, m as int),
                !done && size > m && m >= 1 ==> self.run_size(*start, *direction, m as int) == m,
            decreases m + 1 - size + (if done {
                0int
            } else {
                1int
            }),
        {
            size = size + 1;
            let p = Self::step(start, direction, size - 1);
            if !self.ship_cell(p) {
                done = true;
            }
        }
        size - 1
    }

    /// Number of consecutive `Unknown` cells right after the run of `size`
    /// cells from `start` along `direction`, at most `max_size - size`; `-1`
    /// when `size > max_size`.
    pub fn detect_unknown_fields_end(
        &self,
        max_size: &i8,
        size: &i8,
        start: &Position,
        direction: &Direction,
    ) -> (r: i8)
        requires
            self.wf(),
            start.wf(),
            0 <= *size <= 10,
            0 <= *max_size <= 10,
        ensures
            r == if *max_size < *size {
                -1
            } else {
                self.unknown_run(*start, *direction, *size as int, 1, *max_size - *size)
            },
    {
        let l = *max_size - *size;
        let ghost g = self.unknown_run(*start, *direction, *size as int, 1, l as int);
        let mut unknown_end: i8 = 0;
        let mut done = false;
        while !done && unknown_end <= l
            invariant
                self.wf(),
                start.wf(),
                0 <= *size <= 10,
                l == *max_size - *size,
                -10 <= l <= 10,
                g == self.unknown_run(*start, *direction, *size as int, 1, l as int),
                0 <= unknown_end,
                l >= 0 ==> unknown_end <= l + 1,
                l < 0 ==> unknown_end == 0 && !done,
                done ==> unknown_end - 1 == g,
                !done && unknown_end <= l ==> g == unknown_end + self.unknown_run(
                    *start,
                    *direction,
                    *size + unknown_end,
                    1,
                    l - unknown_end,
                ),
                !done && unknown_end > l && l >= 0 ==> g == l,
            decreases l + 1 - unknown_end + (if done {
                0int
            } else {
                1int
            }),
        {
            unknown_end = unknown_end + 1;
            let p = Self::step(start, direction, *size + unknown_end - 1);
            if !self.unknown_cell(p) {
                done = true;
            }
        }
        unknown_end - 1
    }

    /// Number of consecutive `Unknown` cells right before `start` along
    /// `direction`, at most `max_size - size`; `-1` when `size > max_size`.
    pub fn detect_unknown_fields_start(
        &self,
        max_size: &i8,
        size: &i8,
        start: &Position,
        direction: &Direction,
    ) -> (r: i8)
        requires
            self.wf(),
            start.wf(),
            0 <= *size <= 10,
            0 <= *max_size <= 10,
        ensures
            r == if *max_size < *size {
                -1
            } else {
                self.unknown_run(*start, *direction, -1, -1, *max_size - *size)
            },
    {
        let l = *max_size - *size;
        let ghost g = self.unknown_run(*start, *direction, -1, -1, l as int);
        let mut unknown_start: i8 = 0;
        let mut done = false;
        while !done && unknown_start <= l
            invariant
                self.wf(),
                start.wf(),
                l == *max_size - *size,
                -10 <= l <= 10,
                g == self.unknown_run(*start, *direction, -1, -1, l as int),
                0 <= unknown_start,
                l >= 0 ==> unknown_start <= l + 1,
                l < 0 ==> unknown_start == 0 && !done,
                done ==> unknown_start - 1 == g,
                !done && unknown_start <= l ==> g == unknown_start + self.unknown_run(
                    *start,
                    *direction,
                    -unknown_start - 1,
                    -1,
                    l - unknown_start,
                ),
                !done && unknown_start > l && l >= 0 ==> g == l,
            decreases l + 1 - unknown_start + (if done {
                0int
            } else {
                1int
            }),
        {
            unknown_start = unknown_start + 1;
            let p = Self::step(start, direction, -unknown_start);
            if !self.unknown_cell(p) {
                done = true;
            }
        }
        unknown_start - 1
    }

    /// Whether the cell at `p` belongs to a ship.
    fn ship_cell(&self, p: Position) -> (r: bool)
        requires
            self.wf(),
        ensures
            r == self.ship_at(p.x as int, p.y as int),
    {
        let c = self.get_cell(p);
        matches!(c, CellState::Ship | CellState::Destroyed | CellState::Damaged)
    }

    /// Whether the cell at `p` is `Unknown`.
    fn unknown_cell(&self, p: Position) -> (r: bool)
        requires
            self.wf(),
        ensures
            r == self.unknown_at(p.x as int, p.y as int),
    {
        let c = self.get_cell(p);
        matches!(c, CellState::Unknown)
    }

    /// Whether one of the eight cells around `position` belongs to a ship.
    pub fn is_occupied(&self, position: Position) -> (r: bool)
        requires
            self.wf(),
            position.wf(),
        ensures
            r == self.next_to_ship(position.x as int, position.y as int),
    {
        let x = position.x;
        let y = position.y;
        self.ship_cell(Position { x: x - 1, y: y - 1 }) || self.ship_cell(Position { x, y: y - 1 })
            || self.ship_cell(Position { x: x + 1, y: y - 1 }) || self.ship_cell(
            Position { x: x - 1, y },
        ) || self.ship_cell(Position { x: x + 1, y }) || self.ship_cell(
            Position { x: x - 1, y: y + 1 },
        ) || self.ship_cell(Position { x, y: y + 1 }) || self.ship_cell(
            Position { x: x + 1, y: y + 1 },
        )
    }
}

/// The position at scan index `10 * x + y` is `(x, y)`.
pub proof fn lemma_scan_pos(p: Position)
    requires
        p.on_grid(),
    ensures
        scan_pos(10 * p.x + p.y) == p,
        0 <= 10 * p.x + p.y < 100,
{
}

/// No match from scan index `k` on: the search finds nothing.
pub proof fn lemma_first_from_none(
    board: Board,
    states: Seq<CellState>,
    pred: spec_fn(Position) -> bool,
    k: int,
)
    requires
        0 <= k <= 100,
        forall|j: int|
            k <= j < 100 && states.contains(#[trigger] board.at(scan_pos(j))) ==> !pred(
                scan_pos(j),
            ),
    ensures
        board.first_from(states, pred, k) is None,
    decreases 100 - k,
{
    if k < 100 {
        lemma_first_from_none(board, states, pred, k + 1);
    }
}

/// The first match from scan index `k` on is at index `idx`.
pub proof fn lemma_first_from_found(
    board: Board,
    states: Seq<CellState>,
    pred: spec_fn(Position) -> bool,
    k: int,
    idx: int,
)
    requires
        0 <= k <= idx < 100,
        states.contains(board.at(scan_pos(idx))),
        pred(scan_pos(idx)),
        forall|j: int|
            k <= j < idx && states.contains(#[trigger] board.at(scan_pos(j))) ==> !pred(
                scan_pos(j),
            ),
    ensures
        board.first_from(states, pred, k) == Some(scan_pos(idx)),
    decreases idx - k,
{
    if k < idx {
        lemma_first_from_found(board, states, pred, k + 1, idx);
    }
}

/// Two predicates that agree on the matching positions scan alike.
pub proof fn lemma_scan_upto_agree(
    board: Board,
    states: Seq<CellState>,
    pred_a: spec_fn(Position) -> bool,
    pred_b: spec_fn(Position) -> bool,
    k: int,
)
    requires
        k <= 100,
        forall|j: int|
            0 <= j < k && states.contains(#[trigger] board.at(scan_pos(j))) ==> pred_a(scan_pos(j))
                == pred_b(scan_pos(j)),
    ensures
        board.scan_upto(states, pred_a, k) == board.scan_upto(states, pred_b, k),
    decreases k,
{
    if k > 0 {
        lemma_scan_upto_agree(board, states, pred_a, pred_b, k - 1);
    }
}

/// A run measured from step `j` ends between `j` and `m`.
pub proof fn lemma_run_from_bounds(board: Board, p: Position, d: Direction, j: int, m: int)
    requires
        j <= m,
    ensures
        j <= board.run_from(p, d, j, m) <= m,
    decreases m - j,
{
    if j < m {
        lemma_run_from_bounds(board, p, d, j + 1, m);
    }
}

/// A run of ship cells is at least one and at most `m` cells long when `m >= 1`.
pub proof fn lemma_run_size_bounds(board: Board, p: Position, d: Direction, m: int)
    ensures
        m >= 1 ==> 1 <= board.run_size(p, d, m) <= m,
        m < 1 ==> board.run_size(p, d, m) == 0,
{
    if m >= 1 {
        lemma_run_from_bounds(board, p, d, 1, m);
    }
}

/// A run of unknown cells is between `0` and `cap` cells long.
pub proof fn lemma_unknown_run_bounds(
    board: Board,
    p: Position,
    d: Direction,
    j: int,
    s: int,
    cap: int,
)
    ensures
        0 <= board.unknown_run(p, d, j, s, cap),
        cap >= 0 ==> board.unknown_run(p, d, j, s, cap) <= cap,
    decreases cap,
{
    if cap > 0 {
        lemma_unknown_run_bounds(board, p, d, j + s, s, cap - 1);
    }
}

/// Whether `s` is among `states`.
fn contains_state(states: &Vec<CellState>, s: CellState) -> (r: bool)
    ensures
        r == states@.contains(s),
{
    let mut i: usize = 0;
    while i < states.len()
        invariant
            0 <= i <= states@.len(),
            forall|k: int| 0 <= k < i ==> states@[k] != s,
        decreases states@.len() - i,
    {
        if states[i] == s {
            assert(states@[i as int] == s);
            return true;
        }
        i = i + 1;
    }
    false
}

} // verus!
