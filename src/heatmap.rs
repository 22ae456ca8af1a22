use vstd::prelude::*;

use crate::board::{Board, CellState};
use crate::inference::{lemma_placements_len, placements_of, ships_of};
use crate::placement::{add_or_keep, lemma_add_keeps_wf, Placement};
use crate::position::{Direction, Position};
use crate::ship::Ship;

verus! {

/// The `k`-th ship shape in table order: start `x` major, then `y`, then size
/// `2..=5`, then horizontal before vertical.
pub open spec fn table_ship(k: int) -> Ship {
    Ship {
        start: Position { x: (k / 80) as i8, y: ((k / 8) % 10) as i8 },
        size: (2 + (k / 2) % 4) as i8,
        direction: if k % 2 == 0 {
            Direction::Horizontal
        } else {
            Direction::Vertical
        },
    }
}

/// The ship does not run off the far edge of the grid.
pub open spec fn fits(s: Ship) -> bool {
    match s.direction {
        Direction::Horizontal => s.start.x + s.size <= 10,
        Direction::Vertical => s.start.y + s.size <= 10,
    }
}

/// The shapes among the first `k` of the table that fit the grid.
pub open spec fn universe_upto(k: int) -> Seq<Ship>
    decreases k,
{
    if k <= 0 {
        Seq::empty()
    } else {
        let prev = universe_upto(k - 1);
        if fits(table_ship(k - 1)) {
            prev.push(table_ship(k - 1))
        } else {
            prev
        }
    }
}

/// Every ship of sizes `2..=5` that lies on the grid, in table order.
pub open spec fn ship_universe() -> Seq<Ship> {
    universe_upto(800)
}

/// None of the ship's cells is known to be `Empty`.
pub open spec fn compatible(board: Board, s: Ship) -> bool {
    forall|i: int|
        0 <= i < s.size ==> !(board.cell(s.cell_x(i), s.cell_y(i)) is Empty)
}

/// The ships among the first `k` of `u` that are compatible with the board.
pub open spec fn compatible_upto(board: Board, u: Seq<Ship>, k: int) -> Seq<Ship>
    decreases k,
{
    if k <= 0 {
        Seq::empty()
    } else {
        let prev = compatible_upto(board, u, k - 1);
        if compatible(board, u[k - 1]) {
            prev.push(u[k - 1])
        } else {
            prev
        }
    }
}

/// The ships of the universe that are compatible with the board.
pub open spec fn possible_ships(board: Board) -> Seq<Ship> {
    compatible_upto(board, ship_universe(), ship_universe().len() as int)
}

/// The placements whose ships make the heat: with a single consistent
/// placement, it and, for each possible ship, that placement with the ship
/// added where it may be; else the consistent placements themselves.
pub open spec fn heat_candidates(board: Board) -> Seq<Seq<Ship>> {
    let ps = placements_of(board);
    if ps.len() == 1 {
        seq![ps[0]] + possible_ships(board).map_values(|s: Ship| add_or_keep(ps[0], s))
    } else {
        ps
    }
}

/// How many of `ships` occupy the cell `(x, y)`.
pub open spec fn ships_heat(ships: Seq<Ship>, x: int, y: int) -> int
    decreases ships.len(),
{
    if ships.len() == 0 {
        0
    } else {
        ships_heat(ships.drop_last(), x, y) + if ships.last().occupies(x, y) {
            1int
        } else {
            0int
        }
    }
}

/// How many ships, over all placements `c`, occupy the cell `(x, y)`.
pub open spec fn heat_at(c: Seq<Seq<Ship>>, x: int, y: int) -> int
    decreases c.len(),
{
    if c.len() == 0 {
        0
    } else {
        heat_at(c.drop_last(), x, y) + ships_heat(c.last(), x, y)
    }
}

/// The sum of the sizes of `ships`.
pub open spec fn ships_size(ships: Seq<Ship>) -> int
    decreases ships.len(),
{
    if ships.len() == 0 {
        0
    } else {
        ships_size(ships.drop_last()) + ships.last().size
    }
}

/// The sum of the sizes of all ships over all placements `c`.
pub open spec fn total_size(c: Seq<Seq<Ship>>) -> int
    decreases c.len(),
{
    if c.len() == 0 {
        0
    } else {
        total_size(c.drop_last()) + ships_size(c.last())
    }
}

/// The sum of the values of a row.
pub open spec fn row_sum(s: Seq<u32>) -> int
    decreases s.len(),
{
    if s.len() == 0 {
        0
    } else {
        row_sum(s.drop_last()) + s.last()
    }
}

/// The sum of all values of a grid.
pub open spec fn grid_sum(g: Seq<Vec<u32>>) -> int
    decreases g.len(),
{
    if g.len() == 0 {
        0
    } else {
        grid_sum(g.drop_last()) + row_sum(g.last()@)
    }
}

/// The grid is 10 by 10.
pub open spec fn grid_wf(g: Seq<Vec<u32>>) -> bool {
    g.len() == 10 && forall|x: int| 0 <= x < 10 ==> (#[trigger] g[x])@.len() == 10
}

/// Replacing one value changes the row sum by the difference.
pub proof fn lemma_row_sum_update(s: Seq<u32>, i: int, v: u32)
    requires
        0 <= i < s.len(),
    ensures
        row_sum(s.update(i, v)) == row_sum(s) - s[i] + v,
    decreases s.len(),
{
    if i < s.len() - 1 {
        lemma_row_sum_update(s.drop_last(), i, v);
        assert(s.update(i, v).drop_last() =~= s.drop_last().update(i, v));
    } else {
        assert(s.update(i, v).drop_last() =~= s.drop_last());
    }
}

/// Replacing one row changes the grid sum by the difference of row sums.
pub proof fn lemma_grid_sum_update(g: Seq<Vec<u32>>, i: int, v: Vec<u32>)
    requires
        0 <= i < g.len(),
    ensures
        grid_sum(g.update(i, v)) == grid_sum(g) - row_sum(g[i]@) + row_sum(v@),
    decreases g.len(),
{
    if i < g.len() - 1 {
        lemma_grid_sum_update(g.drop_last(), i, v);
        assert(g.update(i, v).drop_last() =~= g.drop_last().update(i, v));
    } else {
        assert(g.update(i, v).drop_last() =~= g.drop_last());
    }
}

/// A row of zeros sums to zero; a grid of such rows too.
pub proof fn lemma_zero_sums(g: Seq<Vec<u32>>)
    requires
        forall|x: int, y: int| 0 <= x < g.len() && 0 <= y < g[x]@.len() ==> g[x]@[y] == 0,
    ensures
        grid_sum(g) == 0,
    decreases g.len(),
{
    if g.len() > 0 {
        lemma_zero_sums(g.drop_last());
        lemma_zero_row(g.last()@);
    }
}

/// A row of zeros sums to zero.
pub proof fn lemma_zero_row(s: Seq<u32>)
    requires
        forall|y: int| 0 <= y < s.len() ==> s[y] == 0,
    ensures
        row_sum(s) == 0,
    decreases s.len(),
{
    if s.len() > 0 {
        lemma_zero_row(s.drop_last());
    }
}

/// Per-cell weights over the 10x10 grid, indexed `fields[x][y]`.
#[derive(Debug)]
pub struct Heatmap {
    pub fields: Vec<Vec<u32>>,
}

impl Heatmap {
    /// The universe of ship shapes: every ship of sizes `2..=5` on the grid.
    fn all_ships() -> (r: Vec<Ship>)
        ensures
            r@ == ship_universe(),
            r@.len() <= 800,
    {
        let mut ships: Vec<Ship> = Vec::new();
        let mut k: usize = 0;
        while k < 800
            invariant
                k <= 800,
                ships@ == universe_upto(k as int),
                ships@.len() <= k,
            decreases 800 - k,
        {
            let x = (k / 80) as i8;
            let y = ((k / 8) % 10) as i8;
            let size = (2 + (k / 2) % 4) as i8;
            let direction = if k % 2 == 0 {
                Direction::Horizontal
            } else {
                Direction::Vertical
            };
            let ship = Ship { start: Position { x, y }, size, direction };
            assert(ship == table_ship(k as int));
            let fits_grid = match direction {
                Direction::Horizontal => x + size <= 10,
                Direction::Vertical => y + size <= 10,
            };
            if fits_grid {
                ships.push(ship);
            }
            k = k + 1;
        }
        ships
    }

    /// The ships of the universe none of whose cells is known to be `Empty`.
    fn get_possible_ships(board: &Board) -> (r: Vec<Ship>)
        requires
            board.wf(),
        ensures
            r@ == possible_ships(*board),
            r@.len() <= 800,
            forall|i: int| 0 <= i < r@.len() ==> (#[trigger] r@[i]).wf() && r@[i].size >= 2
                && r@[i].size <= 5,
    {
        let ships = Self::all_ships();
        proof {
            lemma_universe_shapes(800);
        }
        let mut possible: Vec<Ship> = Vec::new();
        let mut i: usize = 0;
        while i < ships.len()
            invariant
                board.wf(),
                ships@ == ship_universe(),
                ships@.len() <= 800,
                forall|j: int|
                    0 <= j < ships@.len() ==> (#[trigger] ships@[j]).wf() && ships@[j].size >= 2
                        && ships@[j].size <= 5,
                0 <= i <= ships@.len(),
                possible@ == compatible_upto(*board, ships@, i as int),
                possible@.len() <= i,
                forall|j: int|
                    0 <= j < possible@.len() ==> (#[trigger] possible@[j]).wf()
                        && possible@[j].size >= 2 && possible@[j].size <= 5,
            decreases ships@.len() - i,
        {
            let ship = ships[i];
            let cells = ship.get_occupied_cells();
            let mut ok = true;
            let mut j: usize = 0;
            while j < cells.len()
                invariant
                    board.wf(),
                    ship.wf(),
                    cells@.len() == ship.size,
                    forall|t: int|
                        0 <= t < ship.size ==> cells@[t].x == ship.cell_x(t) && cells@[t].y
                            == ship.cell_y(t),
                    0 <= j <= cells@.len(),
                    ok == forall|t: int|
                        0 <= t < j ==> !(board.cell(ship.cell_x(t), ship.cell_y(t)) is Empty),
                decreases cells@.len() - j,
            {
                let state = board.get_cell(cells[j]);
                assert(state == board.cell(ship.cell_x(j as int), ship.cell_y(j as int)));
                if matches!(state, CellState::Empty) {
                    ok = false;
                }
                j = j + 1;
            }
            if ok {
                possible.push(ship);
            }
            i = i + 1;
        }
        possible
    }

    /// The candidate placements whose ships make the heat (see
    /// `heat_candidates`).
    fn candidate_placements(board: &Board) -> (r: Vec<Placement>)
        requires
            board.wf(),
        ensures
            ships_of(r@) == heat_candidates(*board),
            r@.len() <= 801,
            forall|i: int| 0 <= i < r@.len() ==> (#[trigger] r@[i]).wf(),
    {
        let mut placements = board.detect_placements();
        proof {
            lemma_placements_len(*board);
        }
        if placements.len() == 1 {
            let possible = Self::get_possible_ships(board);
            let base = placements[0].copied();
            let ghost b = base.ships@;
            let ghost ext = possible@.map_values(|s: Ship| add_or_keep(b, s));
            assert(ships_of(placements@) =~= seq![b]);
            let mut i: usize = 0;
            while i < possible.len()
                invariant
                    base.wf(),
                    base.ships@ == b,
                    ext == possible@.map_values(|s: Ship| add_or_keep(b, s)),
                    possible@.len() <= 800,
                    forall|j: int| 0 <= j < possible@.len() ==> (#[trigger] possible@[j]).wf(),
                    0 <= i <= possible@.len(),
                    placements@.len() == i + 1,
                    ships_of(placements@) == seq![b] + ext.take(i as int),
                    forall|j: int| 0 <= j < placements@.len() ==> (#[trigger] placements@[j]).wf(),
                decreases possible@.len() - i,
            {
                let ship = possible[i];
                let mut new_placement = base.copied();
                proof {
                    lemma_add_keeps_wf(b, ship);
                }
                let _ = new_placement.add_ship(ship);
                let ghost before = ships_of(placements@);
                placements.push(new_placement);
                assert(ships_of(placements@) =~= before.push(add_or_keep(b, ship)));
                assert(ext.take(i + 1) =~= ext.take(i as int).push(add_or_keep(b, ship)));
                i = i + 1;
            }
            assert(ext.take(possible@.len() as int) =~= ext);
        }
        placements
    }

    /// Adds one to the weight of every cell that `ship` occupies.
    fn add_ship_heat(fields: &mut Vec<Vec<u32>>, ship: &Ship, bound: u32)
        requires
            grid_wf(old(fields)@),
            ship.wf(),
            ship.in_grid(),
            bound < 10000,
            forall|x: int, y: int|
                0 <= x < 10 && 0 <= y < 10 ==> old(fields)@[x]@[y] <= bound,
        ensures
            grid_wf(final(fields)@),
            forall|x: int, y: int|
                0 <= x < 10 && 0 <= y < 10 ==> #[trigger] final(fields)@[x]@[y] == old(
                    fields,
                )@[x]@[y] + if ship.occupies(x, y) {
                    1int
                } else {
                    0int
                },
            forall|x: int, y: int|
                0 <= x < 10 && 0 <= y < 10 ==> final(fields)@[x]@[y] <= bound + 1,
            grid_sum(final(fields)@) == grid_sum(old(fields)@) + ship.size,
    {
        let ghost orig = fields@;
        let cells = ship.get_occupied_cells();
        let mut j: usize = 0;
        while j < cells.len()
            invariant
                grid_wf(fields@),
                grid_wf(orig),
                ship.wf(),
                ship.in_grid(),
                bound < 10000,
                cells@.len() == ship.size,
                forall|t: int|
                    0 <= t < ship.size ==> cells@[t].x == ship.cell_x(t) && cells@[t].y
                        == ship.cell_y(t),
                0 <= j <= cells@.len(),
                forall|x: int, y: int|
                    0 <= x < 10 && 0 <= y < 10 ==> orig[x]@[y] <= bound,
                forall|x: int, y: int|
                    0 <= x < 10 && 0 <= y < 10 ==> #[trigger] fields@[x]@[y] == orig[x]@[y]
                        + if ship_occupies_first(*ship, j as int, x, y) {
                        1int
                    } else {
                        0int
                    },
                grid_sum(fields@) == grid_sum(orig) + j,
            decreases cells@.len() - j,
        {
            let c = cells[j];
            assert(c.x == ship.cell_x(j as int) && c.y == ship.cell_y(j as int));
            let xi = c.x as usize;
            let yi = c.y as usize;
            let ghost g = fields@;
            let mut col: Vec<u32> = Vec::new();
            let mut t: usize = 0;
            while t < 10
                invariant
                    grid_wf(fields@),
                    fields@ == g,
                    xi < 10,
                    yi < 10,
                    fields@[xi as int]@[yi as int] < 10001,
                    0 <= t <= 10,
                    col@.len() == t,
                    forall|k: int|
                        0 <= k < t ==> #[trigger] col@[k] == if k == yi {
                            (fields@[xi as int]@[k] + 1) as u32
                        } else {
                            fields@[xi as int]@[k]
                        },
                decreases 10 - t,
            {
                if t == yi {
                    col.push(fields[xi][t] + 1);
                } else {
                    col.push(fields[xi][t]);
                }
                t = t + 1;
            }
            proof {
                assert(col@ =~= g[xi as int]@.update(yi as int, (g[xi as int]@[yi as int] + 1) as u32));
                lemma_row_sum_update(g[xi as int]@, yi as int, (g[xi as int]@[yi as int] + 1) as u32);
                lemma_grid_sum_update(g, xi as int, col);
            }
            fields.set(xi, col);
            j = j + 1;
        }
    }

    /// The heatmap of the board: each cell's weight is the number of ships,
    /// over all candidate placements, that occupy it; the weights add up to
    /// the sizes of all those ships.
    pub fn from_board(board: &Board) -> (r: Heatmap)
        requires
            board.wf(),
        ensures
            grid_wf(r.fields@),
            forall|x: int, y: int|
                0 <= x < 10 && 0 <= y < 10 ==> #[trigger] r.fields@[x]@[y] == heat_at(
                    heat_candidates(*board),
                    x,
                    y,
                ),
            grid_sum(r.fields@) == total_size(heat_candidates(*board)),
    {
        let placements = Self::candidate_placements(board);
        let ghost cands = ships_of(placements@);
        let mut fields: Vec<Vec<u32>> = Vec::new();
        let mut x: usize = 0;
        while x < 10
            invariant
                0 <= x <= 10,
                fields@.len() == x,
                forall|i: int| 0 <= i < x ==> (#[trigger] fields@[i])@.len() == 10,
                forall|i: int, y: int| 0 <= i < x && 0 <= y < 10 ==> fields@[i]@[y] == 0,
            decreases 10 - x,
        {
            let mut col: Vec<u32> = Vec::new();
            let mut y: usize = 0;
            while y < 10
                invariant
                    0 <= y <= 10,
                    col@.len() == y,
                    forall|k: int| 0 <= k < y ==> col@[k] == 0,
                decreases 10 - y,
            {
                col.push(0);
                y = y + 1;
            }
            fields.push(col);
            x = x + 1;
        }
        proof {
            lemma_zero_sums(fields@);
        }
        let mut pi: usize = 0;
        while pi < placements.len()
            invariant
                placements@.len() <= 801,
                cands == ships_of(placements@),
                forall|i: int| 0 <= i < placements@.len() ==> (#[trigger] placements@[i]).wf(),
                0 <= pi <= placements@.len(),
                grid_wf(fields@),
                forall|x: int, y: int|
                    0 <= x < 10 && 0 <= y < 10 ==> #[trigger] fields@[x]@[y] == heat_at(
                        cands.take(pi as int),
                        x,
                        y,
                    ),
                forall|x: int, y: int|
                    0 <= x < 10 && 0 <= y < 10 ==> fields@[x]@[y] <= 5 * pi,
                grid_sum(fields@) == total_size(cands.take(pi as int)),
            decreases placements@.len() - pi,
        {
            let placement = &placements[pi];
            let ghost ships = placement.ships@;
            let ghost prev = fields@;
            assert(cands[pi as int] == ships);
            let mut si: usize = 0;
            while si < placement.ships.len()
                invariant
                    placement.wf(),
                    placement.ships@ == ships,
                    pi < 801,
                    0 <= si <= ships.len(),
                    grid_wf(fields@),
                    grid_wf(prev),
                    forall|x: int, y: int|
                        0 <= x < 10 && 0 <= y < 10 ==> #[trigger] fields@[x]@[y] == prev[x]@[y]
                            + ships_heat(ships.take(si as int), x, y),
                    forall|x: int, y: int|
                        0 <= x < 10 && 0 <= y < 10 ==> fields@[x]@[y] <= 5 * pi + si,
                    grid_sum(fields@) == grid_sum(prev) + ships_size(ships.take(si as int)),
                decreases ships.len() - si,
            {
                let ship = placement.ships[si];
                assert(ships[si as int].wf());
                assert(ships.take(si + 1).drop_last() =~= ships.take(si as int));
                Self::add_ship_heat(&mut fields, &ship, (5 * pi + si) as u32);
                si = si + 1;
            }
            assert(ships.take(ships.len() as int) =~= ships);
            assert(cands.take(pi + 1).drop_last() =~= cands.take(pi as int));
            pi = pi + 1;
        }
        assert(cands.take(placements@.len() as int) =~= cands);
        Heatmap { fields }
    }
}

/// The ship's first `j` cells include `(x, y)`.
pub open spec fn ship_occupies_first(s: Ship, j: int, x: int, y: int) -> bool {
    match s.direction {
        Direction::Horizontal => y == s.start.y && s.start.x <= x < s.start.x + j,
        Direction::Vertical => x == s.start.x && s.start.y <= y < s.start.y + j,
    }
}

/// The shapes of the table that fit are well formed, of sizes `2..=5`, and on
/// the grid.
pub proof fn lemma_universe_shapes(k: int)
    requires
        k <= 800,
    ensures
        universe_upto(k).len() <= if k > 0 {
            k
        } else {
            0
        },
        forall|j: int|
            0 <= j < universe_upto(k).len() ==> (#[trigger] universe_upto(k)[j]).wf()
                && universe_upto(k)[j].size >= 2 && universe_upto(k)[j].size <= 5
                && universe_upto(k)[j].in_grid(),
    decreases k,
{
    if k > 0 {
        lemma_universe_shapes(k - 1);
    }
}


} // verus!
