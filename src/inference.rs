use vstd::prelude::*;

use crate::board::{
    anywhere, lemma_first_from_found, lemma_first_from_none, lemma_run_size_bounds, lemma_scan_pos,
    lemma_unknown_run_bounds, scan_pos, step_x, step_y, Board, CellState,
};
use crate::placement::{
    add_error, fleet, lemma_add_keeps_wf, lemma_missing_within, missing_sizes, seq_covers,
    ships_wf, Placement,
};
use crate::position::{Direction, Position};
use crate::ship::Ship;

verus! {

/// Positions that no ship of `ships` occupies or touches.
pub open spec fn unclaimed(ships: Seq<Ship>) -> spec_fn(Position) -> bool {
    |p: Position| !seq_covers(ships, p)
}

/// The states that mark the cells of a whole, visible ship.
pub open spec fn whole_ship_states() -> Seq<CellState> {
    seq![CellState::Ship, CellState::Destroyed]
}

/// Phase A from `ships` on: claim the first unclaimed `Ship` or `Destroyed`
/// cell in scan order as the start of a ship, take its first possible direction
/// and the length of its run, at most the largest missing size, add that ship,
/// and go on until no such cell is left. `None` when a step cannot be taken or
/// the ship cannot be added: the board breaks the fleet rules.
pub open spec fn complete_ships(board: Board, ships: Seq<Ship>) -> Option<Seq<Ship>>
    decreases 5 - ships.len(),
{
    match board.first_from(whole_ship_states(), unclaimed(ships), 0) {
        None => Some(ships),
        Some(start) => {
            let dirs = board.directions_at(start);
            let missing = missing_sizes(ships);
            if dirs.len() == 0 || missing.len() == 0 {
                None
            } else {
                let ship = Ship {
                    start,
                    size: board.run_size(start, dirs[0], missing[0] as int) as i8,
                    direction: dirs[0],
                };
                if add_error(ships, ship) is Some {
                    None
                } else {
                    complete_ships(board, ships.push(ship))
                }
            }
        },
    }
}

/// `s` with each run of equal neighbours kept once.
pub open spec fn dedup(s: Seq<i8>) -> Seq<i8>
    decreases s.len(),
{
    if s.len() == 0 {
        s
    } else if s.len() >= 2 && s[s.len() - 1] == s[s.len() - 2] {
        dedup(s.drop_last())
    } else {
        dedup(s.drop_last()).push(s.last())
    }
}

/// The ship of `size` along `d` that starts `offset` cells before `start`.
pub open spec fn shifted_ship(start: Position, d: Direction, size: i8, offset: int) -> Ship {
    Ship {
        start: Position {
            x: step_x(start, d, -offset) as i8,
            y: step_y(start, d, -offset) as i8,
        },
        size,
        direction: d,
    }
}

/// For each offset in `lo..=hi`, in order: `ships` plus the ship of `size` that
/// starts `offset` cells before `start`, where that ship may be added.
pub open spec fn offset_candidates(
    ships: Seq<Ship>,
    start: Position,
    d: Direction,
    size: i8,
    lo: int,
    hi: int,
) -> Seq<Seq<Ship>>
    decreases hi - lo + 1,
{
    if hi < lo {
        Seq::empty()
    } else {
        let prev = offset_candidates(ships, start, d, size, lo, hi - 1);
        let ship = shifted_ship(start, d, size, hi);
        if add_error(ships, ship) is None {
            prev.push(ships.push(ship))
        } else {
            prev
        }
    }
}

/// The candidates for the size `size` along `d`: the ship must cover the whole
/// run of hits from `start` and fit in the unknown cells around it.
pub open spec fn size_candidates(
    board: Board,
    ships: Seq<Ship>,
    start: Position,
    d: Direction,
    max: int,
    size: i8,
) -> Seq<Seq<Ship>> {
    let detected = board.run_size(start, d, max);
    if size < detected + 1 {
        Seq::empty()
    } else {
        let missing = size - detected;
        let unknown_end = board.unknown_run(start, d, detected, 1, max - detected);
        let unknown_start = board.unknown_run(start, d, -1, -1, max - detected);
        let lo = if missing - unknown_end > 0 {
            missing - unknown_end
        } else {
            0
        };
        let hi = if missing < unknown_start {
            missing
        } else {
            unknown_start
        };
        offset_candidates(ships, start, d, size, lo, hi)
    }
}

/// The candidates for the first `n` of `sizes` along `d`, in order.
pub open spec fn sizes_candidates(
    board: Board,
    ships: Seq<Ship>,
    start: Position,
    d: Direction,
    max: int,
    sizes: Seq<i8>,
    n: int,
) -> Seq<Seq<Ship>>
    decreases n,
{
    if n <= 0 {
        Seq::empty()
    } else {
        sizes_candidates(board, ships, start, d, max, sizes, n - 1) + size_candidates(
            board,
            ships,
            start,
            d,
            max,
            sizes[n - 1],
        )
    }
}

/// The candidates for the first `n` of `dirs`, in order.
pub open spec fn dirs_candidates(
    board: Board,
    ships: Seq<Ship>,
    start: Position,
    dirs: Seq<Direction>,
    max: int,
    sizes: Seq<i8>,
    n: int,
) -> Seq<Seq<Ship>>
    decreases n,
{
    if n <= 0 {
        Seq::empty()
    } else {
        dirs_candidates(board, ships, start, dirs, max, sizes, n - 1) + sizes_candidates(
            board,
            ships,
            start,
            dirs[n - 1],
            max,
            sizes,
            sizes.len() as int,
        )
    }
}

/// Phase B: every way to complete `ships` with the ship through the first
/// `Damaged` cell; `None` when no size is missing, no cell is damaged, or no
/// candidate may be added.
pub open spec fn damaged_candidates(board: Board, ships: Seq<Ship>) -> Option<Seq<Seq<Ship>>> {
    let sizes = dedup(missing_sizes(ships));
    if sizes.len() == 0 {
        None
    } else {
        match board.first_from(seq![CellState::Damaged], anywhere(), 0) {
            None => None,
            Some(start) => {
                let dirs = board.directions_at(start);
                let c = dirs_candidates(
                    board,
                    ships,
                    start,
                    dirs,
                    sizes[0] as int,
                    sizes,
                    dirs.len() as int,
                );
                if c.len() == 0 {
                    None
                } else {
                    Some(c)
                }
            },
        }
    }
}

/// The placements consistent with the board: Phase A, then Phase B when it
/// finds candidates, else the Phase A placement alone; empty when Phase A
/// fails.
pub open spec fn placements_of(board: Board) -> Seq<Seq<Ship>> {
    match complete_ships(board, Seq::empty()) {
        None => Seq::empty(),
        Some(base) => match damaged_candidates(board, base) {
            Some(c) => c,
            None => seq![base],
        },
    }
}

/// The ships of each placement.
pub open spec fn ships_of(v: Seq<Placement>) -> Seq<Seq<Ship>> {
    v.map_values(|p: Placement| p.ships@)
}

/// Removing duplicates keeps values within their bounds and never lengthens.
pub proof fn lemma_dedup_within(s: Seq<i8>, lo: int, hi: int)
    requires
        forall|i: int| 0 <= i < s.len() ==> lo <= #[trigger] s[i] <= hi,
    ensures
        forall|i: int|
            0 <= i < dedup(s).len() ==> lo <= #[trigger] dedup(s)[i] <= hi,
        dedup(s).len() <= s.len(),
        s.len() > 0 ==> dedup(s).len() > 0 && dedup(s)[0] == s[0],
    decreases s.len(),
{
    if s.len() > 0 {
        lemma_dedup_within(s.drop_last(), lo, hi);
    }
}

/// Phase A builds placements that keep the fleet invariants.
pub proof fn lemma_complete_ships_wf(board: Board, ships: Seq<Ship>)
    requires
        board.wf(),
        ships_wf(ships),
    ensures
        complete_ships(board, ships) matches Some(r) ==> ships_wf(r),
    decreases 5 - ships.len(),
{
    match board.first_from(whole_ship_states(), unclaimed(ships), 0) {
        None => {},
        Some(start) => {
            let dirs = board.directions_at(start);
            let missing = missing_sizes(ships);
            if dirs.len() != 0 && missing.len() != 0 {
                let ship = Ship {
                    start,
                    size: board.run_size(start, dirs[0], missing[0] as int) as i8,
                    direction: dirs[0],
                };
                if add_error(ships, ship) is None {
                    lemma_missing_within(ships);
                    lemma_run_size_bounds(board, start, dirs[0], missing[0] as int);
                    lemma_first_from_some_on_grid(board, whole_ship_states(), unclaimed(ships), 0);
                    lemma_add_keeps_wf(ships, ship);
                    lemma_complete_ships_wf(board, ships.push(ship));
                }
            }
        },
    }
}

/// What the scan finds lies on the grid.
pub proof fn lemma_first_from_some_on_grid(
    board: Board,
    states: Seq<CellState>,
    pred: spec_fn(Position) -> bool,
    k: int,
)
    ensures
        board.first_from(states, pred, k) matches Some(p) ==> p.on_grid(),
    decreases 100 - k,
{
    if 0 <= k < 100 {
        lemma_first_from_some_on_grid(board, states, pred, k + 1);
    }
}

/// Offsets `lo..=hi` give at most one candidate each.
pub proof fn lemma_offset_len(
    ships: Seq<Ship>,
    start: Position,
    d: Direction,
    size: i8,
    lo: int,
    hi: int,
)
    ensures
        offset_candidates(ships, start, d, size, lo, hi).len() <= if hi >= lo {
            hi - lo + 1
        } else {
            0
        },
    decreases hi - lo + 1,
{
    if hi >= lo {
        lemma_offset_len(ships, start, d, size, lo, hi - 1);
    }
}

/// One size gives at most six candidates.
pub proof fn lemma_size_len(
    board: Board,
    ships: Seq<Ship>,
    start: Position,
    d: Direction,
    max: int,
    size: i8,
)
    requires
        2 <= size <= 5,
    ensures
        size_candidates(board, ships, start, d, max, size).len() <= 6,
{
    let detected = board.run_size(start, d, max);
    lemma_run_size_bounds(board, start, d, max);
    if size >= detected + 1 {
        let missing = size - detected;
        let unknown_end = board.unknown_run(start, d, detected, 1, max - detected);
        let unknown_start = board.unknown_run(start, d, -1, -1, max - detected);
        lemma_unknown_run_bounds(board, start, d, detected, 1, max - detected);
        lemma_unknown_run_bounds(board, start, d, -1, -1, max - detected);
        let lo = if missing - unknown_end > 0 {
            missing - unknown_end
        } else {
            0
        };
        let hi = if missing < unknown_start {
            missing
        } else {
            unknown_start
        };
        lemma_offset_len(ships, start, d, size, lo, hi);
    }
}

/// The first `n` sizes give at most six candidates each.
pub proof fn lemma_sizes_len(
    board: Board,
    ships: Seq<Ship>,
    start: Position,
    d: Direction,
    max: int,
    sizes: Seq<i8>,
    n: int,
)
    requires
        0 <= n <= sizes.len(),
        forall|i: int| 0 <= i < sizes.len() ==> 2 <= #[trigger] sizes[i] <= 5,
    ensures
        sizes_candidates(board, ships, start, d, max, sizes, n).len() <= 6 * n,
    decreases n,
{
    if n > 0 {
        lemma_sizes_len(board, ships, start, d, max, sizes, n - 1);
        lemma_size_len(board, ships, start, d, max, sizes[n - 1]);
    }
}

/// The first `n` directions give at most thirty candidates each.
pub proof fn lemma_dirs_len(
    board: Board,
    ships: Seq<Ship>,
    start: Position,
    dirs: Seq<Direction>,
    max: int,
    sizes: Seq<i8>,
    n: int,
)
    requires
        0 <= n <= dirs.len(),
        sizes.len() <= 5,
        forall|i: int| 0 <= i < sizes.len() ==> 2 <= #[trigger] sizes[i] <= 5,
    ensures
        dirs_candidates(board, ships, start, dirs, max, sizes, n).len() <= 30 * n,
    decreases n,
{
    if n > 0 {
        lemma_dirs_len(board, ships, start, dirs, max, sizes, n - 1);
        lemma_sizes_len(board, ships, start, dirs[n - 1], max, sizes, sizes.len() as int);
    }
}

/// There are at most 60 consistent placements.
pub proof fn lemma_placements_len(board: Board)
    ensures
        placements_of(board).len() <= 60,
{
    if let Some(base) = complete_ships(board, Seq::empty()) {
        let sizes = dedup(missing_sizes(base));
        lemma_missing_within(base);
        lemma_dedup_within(missing_sizes(base), 2, 5);
        if sizes.len() > 0 {
            if let Some(start) = board.first_from(seq![CellState::Damaged], anywhere(), 0) {
                let dirs = board.directions_at(start);
                lemma_dirs_len(
                    board,
                    base,
                    start,
                    dirs,
                    sizes[0] as int,
                    sizes,
                    dirs.len() as int,
                );
            }
        }
    }
}

/// Every placement of `c` is `base` with one more ship, which occupies `p`.
pub open spec fn adds_ship_through(c: Seq<Seq<Ship>>, base: Seq<Ship>, p: Position) -> bool {
    forall|i: int|
        0 <= i < c.len() ==> {
            &&& (#[trigger] c[i]).len() == base.len() + 1
            &&& c[i].drop_last() == base
            &&& c[i].last().occupies(p.x as int, p.y as int)
        }
}

/// The candidates for one size each add to `ships` one ship through `start`.
pub proof fn lemma_offset_through(
    ships: Seq<Ship>,
    start: Position,
    d: Direction,
    size: i8,
    lo: int,
    hi: int,
)
    requires
        start.on_grid(),
        size <= 5,
        0 <= lo,
        hi < size,
    ensures
        adds_ship_through(offset_candidates(ships, start, d, size, lo, hi), ships, start),
    decreases hi - lo + 1,
{
    if hi >= lo {
        lemma_offset_through(ships, start, d, size, lo, hi - 1);
        let ship = shifted_ship(start, d, size, hi);
        assert(ships.push(ship).drop_last() =~= ships);
        assert(ship.occupies(start.x as int, start.y as int));
    }
}

/// Concatenation keeps the property.
pub proof fn lemma_through_concat(
    a: Seq<Seq<Ship>>,
    b: Seq<Seq<Ship>>,
    base: Seq<Ship>,
    p: Position,
)
    requires
        adds_ship_through(a, base, p),
        adds_ship_through(b, base, p),
    ensures
        adds_ship_through(a + b, base, p),
{
    assert forall|i: int| 0 <= i < (a + b).len() implies {
        &&& (#[trigger] (a + b)[i]).len() == base.len() + 1
        &&& (a + b)[i].drop_last() == base
        &&& (a + b)[i].last().occupies(p.x as int, p.y as int)
    } by {
        if i >= a.len() {
            assert((a + b)[i] == b[i - a.len()]);
        } else {
            assert((a + b)[i] == a[i]);
        }
    }
}

/// The candidates for several sizes each add to `ships` one ship through
/// `start`.
pub proof fn lemma_sizes_through(
    board: Board,
    ships: Seq<Ship>,
    start: Position,
    d: Direction,
    max: int,
    sizes: Seq<i8>,
    n: int,
)
    requires
        start.on_grid(),
        max >= 1,
        n <= sizes.len(),
        forall|i: int| 0 <= i < sizes.len() ==> 2 <= #[trigger] sizes[i] <= 5,
    ensures
        adds_ship_through(sizes_candidates(board, ships, start, d, max, sizes, n), ships, start),
    decreases n,
{
    if n > 0 {
        lemma_sizes_through(board, ships, start, d, max, sizes, n - 1);
        let detected = board.run_size(start, d, max);
        lemma_run_size_bounds(board, start, d, max);
        let size = sizes[n - 1];
        if size >= detected + 1 {
            let missing = size - detected;
            let unknown_end = board.unknown_run(start, d, detected, 1, max - detected);
            let unknown_start = board.unknown_run(start, d, -1, -1, max - detected);
            let lo = if missing - unknown_end > 0 {
                missing - unknown_end
            } else {
                0
            };
            let hi = if missing < unknown_start {
                missing
            } else {
                unknown_start
            };
            lemma_offset_through(ships, start, d, size, lo, hi);
        }
        lemma_through_concat(
            sizes_candidates(board, ships, start, d, max, sizes, n - 1),
            size_candidates(board, ships, start, d, max, size),
            ships,
            start,
        );
    }
}

/// The candidates for several directions each add to `ships` one ship
/// through `start`.
pub proof fn lemma_dirs_through(
    board: Board,
    ships: Seq<Ship>,
    start: Position,
    dirs: Seq<Direction>,
    max: int,
    sizes: Seq<i8>,
    n: int,
)
    requires
        start.on_grid(),
        max >= 1,
        n <= dirs.len(),
        forall|i: int| 0 <= i < sizes.len() ==> 2 <= #[trigger] sizes[i] <= 5,
    ensures
        adds_ship_through(dirs_candidates(board, ships, start, dirs, max, sizes, n), ships, start),
    decreases n,
{
    if n > 0 {
        lemma_dirs_through(board, ships, start, dirs, max, sizes, n - 1);
        lemma_sizes_through(board, ships, start, dirs[n - 1], max, sizes, sizes.len() as int);
        lemma_through_concat(
            dirs_candidates(board, ships, start, dirs, max, sizes, n - 1),
            sizes_candidates(board, ships, start, dirs[n - 1], max, sizes, sizes.len() as int),
            ships,
            start,
        );
    }
}

/// A board with no `Damaged` cell, whose whole ships Phase A resolves, has
/// exactly one consistent placement, and it keeps the fleet invariants.
pub proof fn lemma_undamaged_board_single_placement(board: Board)
    requires
        board.wf(),
        forall|x: int, y: int| 0 <= x < 10 && 0 <= y < 10 ==> !(board.cell(x, y) is Damaged),
        complete_ships(board, Seq::empty()) is Some,
    ensures
        placements_of(board).len() == 1,
        ships_wf(placements_of(board)[0]),
        Some(placements_of(board)[0]) == complete_ships(board, Seq::empty()),
{
    let base = complete_ships(board, Seq::empty())->Some_0;
    assert(ships_wf(Seq::<Ship>::empty())) by {
        assert(missing_sizes(Seq::<Ship>::empty()) == fleet());
    }
    lemma_complete_ships_wf(board, Seq::empty());
    assert forall|j: int|
        0 <= j < 100 && seq![CellState::Damaged].contains(#[trigger] board.at(scan_pos(j)))
            implies !anywhere()(scan_pos(j)) by {
        assert(seq![CellState::Damaged][0] == CellState::Damaged);
        let k = choose|k: int| 0 <= k < 1 && seq![CellState::Damaged][k] == board.at(
            scan_pos(j),
        );
        assert(board.at(scan_pos(j)) is Damaged);
    }
    lemma_first_from_none(board, seq![CellState::Damaged], anywhere(), 0);
    assert(damaged_candidates(board, base) is None);
}

/// Phase B keeps the whole ships that Phase A resolved: there is at least
/// one consistent placement, and either it is the Phase A placement alone or
/// each one is that placement with one more ship, through the first
/// `Damaged` cell.
pub proof fn lemma_placements_share_resolved_ships(board: Board)
    requires
        complete_ships(board, Seq::empty()) is Some,
    ensures
        placements_of(board).len() >= 1,
        placements_of(board) == seq![complete_ships(board, Seq::empty())->Some_0] || (
        board.first_from(seq![CellState::Damaged], anywhere(), 0) matches Some(d)
            && adds_ship_through(
            placements_of(board),
            complete_ships(board, Seq::empty())->Some_0,
            d,
        )),
{
    let base = complete_ships(board, Seq::empty())->Some_0;
    let sizes = dedup(missing_sizes(base));
    lemma_missing_within(base);
    lemma_dedup_within(missing_sizes(base), 2, 5);
    lemma_first_from_some_on_grid(board, seq![CellState::Damaged], anywhere(), 0);
    if sizes.len() > 0 {
        if let Some(start) = board.first_from(seq![CellState::Damaged], anywhere(), 0) {
            let dirs = board.directions_at(start);
            lemma_dirs_through(board, base, start, dirs, sizes[0] as int, sizes, dirs.len() as int);
        }
    }
}

impl Board {
    /// Phase A of the inference: the whole ships the board shows (see
    /// `complete_ships`); `None` when the board breaks the fleet rules.
    pub fn detect_complete_ships(&self) -> (r: Option<Placement>)
        requires
            self.wf(),
        ensures
            match r {
                Some(p) => complete_ships(*self, Seq::empty()) == Some(p.ships@) && p.wf(),
                None => complete_ships(*self, Seq::empty()) is None,
            },
    {
        let mut placement = Placement::new();
        while true
            invariant
                self.wf(),
                placement.wf(),
                complete_ships(*self, placement.ships@) == complete_ships(*self, Seq::empty()),
            decreases 5 - placement.ships@.len(),
        {
            let states = vec![CellState::Ship, CellState::Destroyed];
            assert(states@ =~= whole_ship_states());
            let ghost ships = placement.ships@;
            let pl = &placement;
            let unclaimed_cell = |p: &Position| -> (b: bool)
                requires
                    p.wf(),
                    ships_wf(pl.ships@),
                ensures
                    b == !seq_covers(pl.ships@, *p),
                {
                    let claimed = pl.is_occupied(p);
                    !claimed
                };
            let start = self.find_cell(states, unclaimed_cell);
            let start = match start {
                Some(start) => {
                    proof {
                        lemma_scan_pos(start);
                        lemma_first_from_found(
                            *self,
                            whole_ship_states(),
                            unclaimed(ships),
                            0,
                            10 * start.x + start.y,
                        );
                    }
                    start
                },
                None => {
                    proof {
                        lemma_first_from_none(*self, whole_ship_states(), unclaimed(ships), 0);
                    }
                    return Some(placement);
                },
            };
            let direction = self.detect_direction(&start);
            if direction.len() == 0 {
                return None;
            }
            let missing = placement.get_missing_ship_sizes();
            if missing.len() == 0 {
                return None;
            }
            proof {
                lemma_missing_within(ships);
                lemma_run_size_bounds(*self, start, direction@[0], missing@[0] as int);
            }
            let size = self.detect_size(&start, &direction[0], &missing[0]);
            let ship = Ship { start, direction: direction[0], size };
            match placement.add_ship(ship) {
                Ok(()) => {},
                Err(_) => {
                    return None;
                },
            }
        }
        None
    }
    /// Phase B of the inference: each way to complete `placement` with the
    /// ship through the first `Damaged` cell (see `damaged_candidates`).
    pub fn detect_damaged_ship(&self, placement: &Placement) -> (r: Option<Vec<Placement>>)
        requires
            self.wf(),
            placement.wf(),
        ensures
            match r {
                Some(v) => damaged_candidates(*self, placement.ships@) == Some(ships_of(v@))
                    && forall|i: int| 0 <= i < v@.len() ==> (#[trigger] v@[i]).wf(),
                None => damaged_candidates(*self, placement.ships@) is None,
            },
    {
        let ghost base = placement.ships@;
        let all_missing = placement.get_missing_ship_sizes();
        let missing_ship_sizes = dedup_sizes(&all_missing);
        proof {
            lemma_missing_within(base);
            lemma_dedup_within(all_missing@, 2, 5);
        }
        if missing_ship_sizes.len() == 0 {
            return None;
        }
        let max_size = missing_ship_sizes[0];
        let ghost sizes = missing_ship_sizes@;
        let states = vec![CellState::Damaged];
        assert(states@ =~= seq![CellState::Damaged]);
        let any_cell = |p: &Position| -> (b: bool)
            ensures
                b,
            { true };
        let start = match self.find_cell(states, any_cell) {
            Some(start) => {
                proof {
                    lemma_scan_pos(start);
                    lemma_first_from_found(
                        *self,
                        seq![CellState::Damaged],
                        anywhere(),
                        0,
                        10 * start.x + start.y,
                    );
                }
                start
            },
            None => {
                proof {
                    lemma_first_from_none(*self, seq![CellState::Damaged], anywhere(), 0);
                }
                return None;
            },
        };
        let possible_directions = self.detect_direction(&start);
        let ghost dirs = possible_directions@;
        let mut placements: Vec<Placement> = Vec::new();
        let mut di: usize = 0;
        while di < possible_directions.len()
            invariant
                self.wf(),
                placement.wf(),
                placement.ships@ == base,
                start.on_grid(),
                sizes == missing_ship_sizes@,
                sizes.len() > 0,
                max_size == sizes[0],
                forall|i: int| 0 <= i < sizes.len() ==> 2 <= #[trigger] sizes[i] <= 5,
                dirs == possible_directions@,
                0 <= di <= dirs.len(),
                ships_of(placements@) == dirs_candidates(
                    *self,
                    base,
                    start,
                    dirs,
                    max_size as int,
                    sizes,
                    di as int,
                ),
                forall|i: int| 0 <= i < placements@.len() ==> (#[trigger] placements@[i]).wf(),
            decreases dirs.len() - di,
        {
            let direction = possible_directions[di];
            let ghost done_dirs = ships_of(placements@);
            proof {
                lemma_run_size_bounds(*self, start, direction, max_size as int);
            }
            let detected_size = self.detect_size(&start, &direction, &max_size);
            let unknown_end = self.detect_unknown_fields_end(
                &max_size,
                &detected_size,
                &start,
                &direction,
            );
            let unknown_start = self.detect_unknown_fields_start(
                &max_size,
                &detected_size,
                &start,
                &direction,
            );
            proof {
                lemma_unknown_run_bounds(
                    *self,
                    start,
                    direction,
                    detected_size as int,
                    1,
                    max_size - detected_size,
                );
                lemma_unknown_run_bounds(*self, start, direction, -1, -1, max_size - detected_size);
            }
            let size_min = detected_size + 1;
            let mut si: usize = 0;
            while si < missing_ship_sizes.len()
                invariant
                    self.wf(),
                    placement.wf(),
                    placement.ships@ == base,
                    start.on_grid(),
                    sizes == missing_ship_sizes@,
                    max_size == sizes[0],
                    2 <= max_size <= 5,
                    forall|i: int| 0 <= i < sizes.len() ==> 2 <= #[trigger] sizes[i] <= 5,
                    dirs == possible_directions@,
                    0 <= di < dirs.len(),
                    direction == dirs[di as int],
                    detected_size == self.run_size(start, direction, max_size as int),
                    1 <= detected_size <= max_size,
                    size_min == detected_size + 1,
                    unknown_end == self.unknown_run(
                        start,
                        direction,
                        detected_size as int,
                        1,
                        max_size - detected_size,
                    ),
                    unknown_start == self.unknown_run(
                        start,
                        direction,
                        -1,
                        -1,
                        max_size - detected_size,
                    ),
                    0 <= unknown_end <= max_size - detected_size,
                    0 <= unknown_start <= max_size - detected_size,
                    0 <= si <= sizes.len(),
                    done_dirs == dirs_candidates(
                        *self,
                        base,
                        start,
                        dirs,
                        max_size as int,
                        sizes,
                        di as int,
                    ),
                    ships_of(placements@) == done_dirs + sizes_candidates(
                        *self,
                        base,
                        start,
                        direction,
                        max_size as int,
                        sizes,
                        si as int,
                    ),
                    forall|i: int| 0 <= i < placements@.len() ==> (#[trigger] placements@[i]).wf(),
                decreases sizes.len() - si,
            {
                let size = missing_ship_sizes[si];
                let ghost done_sizes = ships_of(placements@);
                if size >= size_min {
                    let missing_fields = size - detected_size;
                    let offset_min = if missing_fields - unknown_end > 0 {
                        missing_fields - unknown_end
                    } else {
                        0
                    };
                    let offset_max = if missing_fields < unknown_start {
                        missing_fields
                    } else {
                        unknown_start
                    };
                    let mut offset: i8 = offset_min;
                    while offset <= offset_max
                        invariant
                            placement.wf(),
                            placement.ships@ == base,
                            start.on_grid(),
                            2 <= size <= 5,
                            0 <= offset_min <= offset,
                            offset_max <= 5,
                            offset <= offset_max + 1 || offset == offset_min,
                            ships_of(placements@) == done_sizes + offset_candidates(
                                base,
                                start,
                                direction,
                                size,
                                offset_min as int,
                                offset - 1,
                            ),
                            forall|i: int|
                                0 <= i < placements@.len() ==> (#[trigger] placements@[i]).wf(),
                        decreases offset_max + 1 - offset,
                    {
                        let new_start = Self::step(&start, &direction, -offset);
                        let ship = Ship { start: new_start, direction, size };
                        assert(ship == shifted_ship(start, direction, size, offset as int));
                        let mut new_placement = placement.copied();
                        let ghost before = ships_of(placements@);
                        if new_placement.add_ship(ship).is_ok() {
                            placements.push(new_placement);
                            assert(ships_of(placements@) =~= before.push(base.push(ship)));
                        }
                        assert(ships_of(placements@) =~= done_sizes + offset_candidates(
                            base,
                            start,
                            direction,
                            size,
                            offset_min as int,
                            offset as int,
                        ));
                        offset = offset + 1;
                    }
                    assert(offset_candidates(
                        base,
                        start,
                        direction,
                        size,
                        offset_min as int,
                        offset - 1,
                    ) == offset_candidates(
                        base,
                        start,
                        direction,
                        size,
                        offset_min as int,
                        offset_max as int,
                    ));
                }
                assert(ships_of(placements@) =~= done_dirs + sizes_candidates(
                    *self,
                    base,
                    start,
                    direction,
                    max_size as int,
                    sizes,
                    si + 1,
                ));
                si = si + 1;
            }
            assert(ships_of(placements@) =~= dirs_candidates(
                *self,
                base,
                start,
                dirs,
                max_size as int,
                sizes,
                di + 1,
            ));
            di = di + 1;
        }
        if placements.len() == 0 {
            return None;
        }
        Some(placements)
    }

    /// The placements consistent with the board (see `placements_of`): one
    /// per way to resolve the damaged ship, else the whole ships alone; none
    /// when the board breaks the fleet rules.
    pub fn detect_placements(&self) -> (r: Vec<Placement>)
        requires
            self.wf(),
        ensures
            ships_of(r@) == placements_of(*self),
            forall|i: int| 0 <= i < r@.len() ==> (#[trigger] r@[i]).wf(),
    {
        match self.detect_complete_ships() {
            None => {
                let v: Vec<Placement> = Vec::new();
                assert(ships_of(v@) =~= Seq::empty());
                v
            },
            Some(placement) => match self.detect_damaged_ship(&placement) {
                Some(v) => v,
                None => {
                    let ghost ships = placement.ships@;
                    let mut v: Vec<Placement> = Vec::new();
                    v.push(placement);
                    assert(ships_of(v@) =~= seq![ships]);
                    v
                },
            },
        }
    }
}

/// `s` with each run of equal neighbours kept once.
fn dedup_sizes(s: &Vec<i8>) -> (r: Vec<i8>)
    ensures
        r@ == dedup(s@),
{
    let mut r: Vec<i8> = Vec::new();
    let mut i: usize = 0;
    while i < s.len()
        invariant
            0 <= i <= s@.len(),
            r@ == dedup(s@.take(i as int)),
        decreases s@.len() - i,
    {
        assert(s@.take(i + 1).drop_last() =~= s@.take(i as int));
        if i == 0 || s[i] != s[i - 1] {
            r.push(s[i]);
        }
        i = i + 1;
    }
    assert(s@.take(s@.len() as int) =~= s@);
    r
}

} // verus!
