use std::cmp::Ordering;

use itertools::Itertools;
use vstd::prelude::*;

use crate::board::{
    anywhere, lemma_first_from_found, lemma_first_from_none, lemma_scan_pos,
    lemma_scan_upto_agree, scan_pos, Board, CellState,
};
use crate::heatmap::{grid_wf, heat_at, heat_candidates, Heatmap};
use crate::position::Position;

verus! {

broadcast use vstd::seq_lib::group_to_multiset_ensures;

/// The cells that `p` keeps: `Unknown`, of even parity (`x + y` even) and not
/// next to a ship cell.
pub open spec fn parity_target(board: Board, p: Position) -> bool {
    &&& p.x % 2 == p.y % 2
    &&& !board.next_to_ship(p.x as int, p.y as int)
}

/// The predicate `parity_target` on `board`.
pub open spec fn parity_pred(board: Board) -> spec_fn(Position) -> bool {
    |p: Position| parity_target(board, p)
}

/// The positions of `s` whose cell is `Unknown`, in order.
pub open spec fn keep_unknown(board: Board, s: Seq<Position>) -> Seq<Position>
    decreases s.len(),
{
    if s.len() == 0 {
        s
    } else {
        let prev = keep_unknown(board, s.drop_last());
        if board.at(s.last()) is Unknown {
            prev.push(s.last())
        } else {
            prev
        }
    }
}

/// Parity scan: the `Unknown` cells of even parity that no ship cell touches,
/// in scan order.
pub open spec fn parity_targets(board: Board) -> Seq<Position> {
    board.scan(seq![CellState::Unknown], parity_pred(board))
}

/// Extend a single hit: the `Unknown` cells among the four neighbours of the
/// first `Damaged` cell (left, right, up, down).
pub open spec fn single_hit_targets(board: Board) -> Seq<Position> {
    match board.first_from(seq![CellState::Damaged], anywhere(), 0) {
        None => Seq::empty(),
        Some(d) => keep_unknown(
            board,
            seq![
                Position { x: (d.x - 1) as i8, y: d.y },
                Position { x: (d.x + 1) as i8, y: d.y },
                Position { x: d.x, y: (d.y - 1) as i8 },
                Position { x: d.x, y: (d.y + 1) as i8 },
            ],
        ),
    }
}

/// Finish the line: with two or more `Damaged` cells, the `Unknown` cells just
/// beyond the first and the last of them in scan order, along `y` when the two
/// share their `x`, else along `x`.
pub open spec fn line_targets(board: Board) -> Seq<Position> {
    let ds = board.scan(seq![CellState::Damaged], anywhere());
    if ds.len() <= 1 {
        Seq::empty()
    } else {
        let first = ds[0];
        let last = ds.last();
        if first.x != last.x {
            keep_unknown(
                board,
                seq![
                    Position { x: (first.x - 1) as i8, y: first.y },
                    Position { x: (last.x + 1) as i8, y: last.y },
                ],
            )
        } else {
            keep_unknown(
                board,
                seq![
                    Position { x: first.x, y: (first.y - 1) as i8 },
                    Position { x: last.x, y: (last.y + 1) as i8 },
                ],
            )
        }
    }
}

/// The candidates of the first tier that has any: finish the line, extend a
/// single hit, parity scan.
pub open spec fn tier_targets(board: Board) -> Seq<Position> {
    if line_targets(board).len() > 0 {
        line_targets(board)
    } else if single_hit_targets(board).len() > 0 {
        single_hit_targets(board)
    } else {
        parity_targets(board)
    }
}

/// The members of a scan lie on the grid, have a wanted state and satisfy
/// the predicate.
pub proof fn lemma_scan_members(
    board: Board,
    states: Seq<CellState>,
    pred: spec_fn(Position) -> bool,
    k: int,
)
    requires
        k <= 100,
    ensures
        forall|i: int|
            0 <= i < board.scan_upto(states, pred, k).len() ==> {
                let p = #[trigger] board.scan_upto(states, pred, k)[i];
                &&& p.on_grid()
                &&& states.contains(board.at(p))
                &&& pred(p)
            },
    decreases k,
{
    if k > 0 {
        lemma_scan_members(board, states, pred, k - 1);
    }
}

/// Members of `keep_unknown` are `Unknown` members of the input.
pub proof fn lemma_keep_unknown_members(board: Board, s: Seq<Position>)
    ensures
        forall|i: int|
            0 <= i < keep_unknown(board, s).len() ==> board.at(#[trigger] keep_unknown(board, s)[i])
                is Unknown && s.contains(keep_unknown(board, s)[i]),
    decreases s.len(),
{
    if s.len() > 0 {
        lemma_keep_unknown_members(board, s.drop_last());
        let prev = keep_unknown(board, s.drop_last());
        assert forall|i: int| 0 <= i < prev.len() implies s.contains(prev[i]) by {
            let j = choose|j: int| 0 <= j < s.drop_last().len() && s.drop_last()[j] == prev[i];
            assert(s[j] == prev[i]);
        }
        assert(s[s.len() - 1] == s.last());
    }
}

/// The positions of `cands` whose cell is `Unknown`, in order.
fn filter_unknown(board: &Board, cands: Vec<Position>) -> (r: Vec<Position>)
    requires
        board.wf(),
    ensures
        r@ == keep_unknown(*board, cands@),
{
    let mut kept: Vec<Position> = Vec::new();
    let mut i: usize = 0;
    while i < cands.len()
        invariant
            board.wf(),
            0 <= i <= cands@.len(),
            kept@ == keep_unknown(*board, cands@.take(i as int)),
        decreases cands@.len() - i,
    {
        assert(cands@.take(i + 1).drop_last() =~= cands@.take(i as int));
        if board.check_cell(cands[i], vec![CellState::Unknown]) {
            kept.push(cands[i]);
        }
        i = i + 1;
    }
    assert(cands@.take(cands@.len() as int) =~= cands@);
    kept
}

/// Parity scan: the `Unknown` cells of even parity that no ship cell touches,
/// in scan order.
pub fn first_attack(board: &Board) -> (r: Vec<Position>)
    requires
        board.wf(),
    ensures
        r@ == parity_targets(*board),
        forall|i: int|
            0 <= i < r@.len() ==> {
                let p = #[trigger] r@[i];
                &&& p.on_grid()
                &&& board.at(p) is Unknown
                &&& (p.x + p.y) % 2 == 0
                &&& !board.next_to_ship(p.x as int, p.y as int)
            },
{
    let parity = |p: &Position| -> (b: bool)
        requires
            p.on_grid(),
            board.wf(),
        ensures
            b == parity_target(*board, *p),
        { p.x % 2 == p.y % 2 && !board.is_occupied(*p) };
    let states = vec![CellState::Unknown];
    assert(states@ =~= seq![CellState::Unknown]);
    let r = board.find_cells(states, parity);
    proof {
        lemma_scan_upto_agree(
            *board,
            seq![CellState::Unknown],
            |p: Position| parity.ensures((&p,), true),
            parity_pred(*board),
            100,
        );
        lemma_scan_members(*board, seq![CellState::Unknown], parity_pred(*board), 100);
        assert forall|i: int| 0 <= i < r@.len() implies board.at(#[trigger] r@[i]) is Unknown by {
            assert(seq![CellState::Unknown].contains(board.at(r@[i])));
        }
    }
    r
}

/// Extend a single hit: the `Unknown` neighbours of the first `Damaged` cell.
pub fn second_attack(board: &Board) -> (r: Vec<Position>)
    requires
        board.wf(),
    ensures
        r@ == single_hit_targets(*board),
{
    let any_cell = |p: &Position| -> (b: bool)
        ensures
            b,
        { true };
    let states = vec![CellState::Damaged];
    assert(states@ =~= seq![CellState::Damaged]);
    let damaged_field = match board.find_cell(states, any_cell) {
        Some(p) => {
            proof {
                lemma_scan_pos(p);
                lemma_first_from_found(
                    *board,
                    seq![CellState::Damaged],
                    anywhere(),
                    0,
                    10 * p.x + p.y,
                );
            }
            p
        },
        None => {
            proof {
                lemma_first_from_none(*board, seq![CellState::Damaged], anywhere(), 0);
            }
            return Vec::new();
        },
    };
    let x = damaged_field.x;
    let y = damaged_field.y;
    let neighbor_fields = vec![
        Position { x: x - 1, y },
        Position { x: x + 1, y },
        Position { x, y: y - 1 },
        Position { x, y: y + 1 },
    ];
    let ghost d = damaged_field;
    assert(neighbor_fields@ =~= seq![
        Position { x: (d.x - 1) as i8, y: d.y },
        Position { x: (d.x + 1) as i8, y: d.y },
        Position { x: d.x, y: (d.y - 1) as i8 },
        Position { x: d.x, y: (d.y + 1) as i8 },
    ]);
    filter_unknown(board, neighbor_fields)
}

/// Finish the line: the `Unknown` cells just beyond both ends of the
/// `Damaged` cells, when there are two or more.
pub fn next_attack(board: &Board) -> (r: Vec<Position>)
    requires
        board.wf(),
    ensures
        r@ == line_targets(*board),
{
    let any_cell = |p: &Position| -> (b: bool)
        ensures
            b,
        { true };
    let states = vec![CellState::Damaged];
    assert(states@ =~= seq![CellState::Damaged]);
    let damaged_fields = board.find_cells(states, any_cell);
    proof {
        lemma_scan_upto_agree(
            *board,
            seq![CellState::Damaged],
            |p: Position| any_cell.ensures((&p,), true),
            anywhere(),
            100,
        );
        lemma_scan_members(*board, seq![CellState::Damaged], anywhere(), 100);
    }
    if damaged_fields.len() <= 1 {
        return Vec::new();
    }
    let first = damaged_fields[0];
    let last = damaged_fields[damaged_fields.len() - 1];
    assert(first.on_grid() && last.on_grid());
    if first.x != last.x {
        let neighbor_fields = vec![
            Position { x: first.x - 1, y: first.y },
            Position { x: last.x + 1, y: last.y },
        ];
        assert(neighbor_fields@ =~= seq![
            Position { x: (first.x - 1) as i8, y: first.y },
            Position { x: (last.x + 1) as i8, y: last.y },
        ]);
        filter_unknown(board, neighbor_fields)
    } else {
        let neighbor_fields = vec![
            Position { x: first.x, y: first.y - 1 },
            Position { x: last.x, y: last.y + 1 },
        ];
        assert(neighbor_fields@ =~= seq![
            Position { x: first.x, y: (first.y - 1) as i8 },
            Position { x: last.x, y: (last.y + 1) as i8 },
        ]);
        filter_unknown(board, neighbor_fields)
    }
}

impl Heatmap {
    /// The weight of the cell `p`.
    pub open spec fn weight(&self, p: Position) -> int {
        self.fields@[p.x as int]@[p.y as int] as int
    }

    /// Orders two cells by their weights.
    pub fn compare_weights(&self, a: &Position, b: &Position) -> (r: Ordering)
        requires
            grid_wf(self.fields@),
            a.on_grid(),
            b.on_grid(),
        ensures
            r == if self.weight(*a) < self.weight(*b) {
                Ordering::Less
            } else if self.weight(*a) == self.weight(*b) {
                Ordering::Equal
            } else {
                Ordering::Greater
            },
    {
        let wa = self.fields[a.x as usize][a.y as usize];
        let wb = self.fields[b.x as usize][b.y as usize];
        if wa < wb {
            Ordering::Less
        } else if wa == wb {
            Ordering::Equal
        } else {
            Ordering::Greater
        }
    }
}

/// Relies on itertools::Itertools::sorted_by, a stable sort by the given
/// comparison: the same cells, by weight from highest to lowest.
#[verifier::external_body]
fn sorted_by_weight(cands: Vec<Position>, heatmap: &Heatmap) -> (r: Vec<Position>)
    requires
        grid_wf(heatmap.fields@),
        forall|i: int| 0 <= i < cands@.len() ==> (#[trigger] cands@[i]).on_grid(),
    ensures
        r@.to_multiset() == cands@.to_multiset(),
        forall|i: int, j: int|
            0 <= i < j < r@.len() ==> heatmap.weight(#[trigger] r@[i]) >= heatmap.weight(
                #[trigger] r@[j],
            ),
{
    cands.into_iter().sorted_by(|a, b| heatmap.compare_weights(b, a)).collect()
}

/// The cell to attack: among the candidates of the first tier that has any
/// (finish the line, extend a single hit, parity scan), one of highest heat;
/// `None` when no tier has a candidate.
pub fn select_attack(board: &Board) -> (r: Option<Position>)
    requires
        board.wf(),
    ensures
        match r {
            None => tier_targets(*board).len() == 0,
            Some(p) => {
                &&& tier_targets(*board).contains(p)
                &&& forall|q: Position|
                    #[trigger] tier_targets(*board).contains(q) ==> heat_at(
                        heat_candidates(*board),
                        q.x as int,
                        q.y as int,
                    ) <= heat_at(heat_candidates(*board), p.x as int, p.y as int)
            },
        },
{
    let heatmap = Heatmap::from_board(board);
    let mut cands = next_attack(board);
    if cands.len() == 0 {
        cands = second_attack(board);
    }
    if cands.len() == 0 {
        cands = first_attack(board);
    }
    assert(cands@ == tier_targets(*board));
    proof {
        lemma_tier_on_grid(*board);
    }
    let ghost c = cands@;
    let sorted = sorted_by_weight(cands, &heatmap);
    if sorted.len() == 0 {
        assert(tier_targets(*board).to_multiset().len() == 0);
        return None;
    }
    let best = sorted[0];
    proof {
        assert(sorted@[0] == best);
        assert(sorted@.contains(best));
        assert(sorted@.to_multiset().count(best) > 0);
        assert(c.to_multiset().count(best) > 0);
        assert(c.contains(best));
        assert forall|q: Position| #[trigger] tier_targets(*board).contains(q) implies heat_at(
            heat_candidates(*board),
            q.x as int,
            q.y as int,
        ) <= heat_at(heat_candidates(*board), best.x as int, best.y as int) by {
            assert(c.to_multiset().count(q) > 0);
            assert(sorted@.to_multiset().count(q) > 0);
            assert(sorted@.contains(q));
            let j = choose|j: int| 0 <= j < sorted@.len() && sorted@[j] == q;
            if j > 0 {
                assert(heatmap.weight(sorted@[0]) >= heatmap.weight(sorted@[j]));
            }
        }
    }
    Some(best)
}

/// Every candidate of every tier lies on the grid.
pub proof fn lemma_tier_on_grid(board: Board)
    requires
        board.wf(),
    ensures
        forall|i: int|
            0 <= i < tier_targets(board).len() ==> (#[trigger] tier_targets(board)[i]).on_grid(),
{
    lemma_scan_members(board, seq![CellState::Unknown], parity_pred(board), 100);
    lemma_scan_members(board, seq![CellState::Damaged], anywhere(), 100);
    let ds = board.scan(seq![CellState::Damaged], anywhere());
    if ds.len() > 1 {
        let first = ds[0];
        let last = ds.last();
        lemma_keep_unknown_members(
            board,
            seq![
                Position { x: (first.x - 1) as i8, y: first.y },
                Position { x: (last.x + 1) as i8, y: last.y },
            ],
        );
        lemma_keep_unknown_members(
            board,
            seq![
                Position { x: first.x, y: (first.y - 1) as i8 },
                Position { x: last.x, y: (last.y + 1) as i8 },
            ],
        );
    }
    if let Some(d) = board.first_from(seq![CellState::Damaged], anywhere(), 0) {
        lemma_keep_unknown_members(
            board,
            seq![
                Position { x: (d.x - 1) as i8, y: d.y },
                Position { x: (d.x + 1) as i8, y: d.y },
                Position { x: d.x, y: (d.y - 1) as i8 },
                Position { x: d.x, y: (d.y + 1) as i8 },
            ],
        );
    }
}

} // verus!
