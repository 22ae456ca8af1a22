use battleship_bot::strategy::{first_attack, next_attack, second_attack, select_attack};
use battleship_bot::{Board, CellState, Heatmap, Position};

fn board_of(state: CellState) -> Board {
    Board { cells: vec![vec![state; 10]; 10] }
}

fn pos(x: i8, y: i8) -> Position {
    Position { x, y }
}

#[test]
fn empty_board_attacks_parity_cell() {
    let board = board_of(CellState::Unknown);
    let target = select_attack(&board).unwrap();
    assert_eq!((target.x + target.y) % 2, 0);
    // the centre cells carry the most heat; the first of them in scan order wins
    assert_eq!(target, pos(4, 4));
}

#[test]
fn single_hit_attacks_a_neighbour() {
    let mut board = board_of(CellState::Unknown);
    board.set_cell(pos(5, 5), CellState::Damaged);
    let target = select_attack(&board).unwrap();
    assert!([pos(4, 5), pos(6, 5), pos(5, 4), pos(5, 6)].contains(&target));
    assert_eq!(second_attack(&board), vec![pos(4, 5), pos(6, 5), pos(5, 4), pos(5, 6)]);
    assert!(next_attack(&board).is_empty());
}

#[test]
fn two_hits_finish_the_line() {
    let mut board = board_of(CellState::Unknown);
    board.set_cell(pos(3, 3), CellState::Damaged);
    board.set_cell(pos(3, 4), CellState::Damaged);
    assert_eq!(next_attack(&board), vec![pos(3, 2), pos(3, 5)]);
    let target = select_attack(&board).unwrap();
    assert!(target == pos(3, 2) || target == pos(3, 5));
}

#[test]
fn line_along_x_and_blocked_end() {
    let mut board = board_of(CellState::Unknown);
    board.set_cell(pos(0, 6), CellState::Damaged);
    board.set_cell(pos(1, 6), CellState::Damaged);
    board.set_cell(pos(2, 6), CellState::Damaged);
    assert_eq!(next_attack(&board), vec![pos(3, 6)]);
    assert_eq!(select_attack(&board), Some(pos(3, 6)));
}

#[test]
fn second_attack_skips_known_cells() {
    let mut board = board_of(CellState::Unknown);
    board.set_cell(pos(0, 0), CellState::Damaged);
    board.set_cell(pos(0, 1), CellState::Empty);
    assert_eq!(second_attack(&board), vec![pos(1, 0)]);
    assert!(second_attack(&board_of(CellState::Unknown)).is_empty());
}

#[test]
fn parity_targets_avoid_ship_neighbours() {
    let mut board = board_of(CellState::Unknown);
    board.set_cell(pos(4, 4), CellState::Destroyed);
    board.set_cell(pos(4, 5), CellState::Destroyed);
    board.set_cell(pos(0, 9), CellState::Ship);
    let targets = first_attack(&board);
    assert!(!targets.is_empty());
    for p in &targets {
        assert_eq!((p.x + p.y) % 2, 0);
        assert_eq!(board.get_cell(*p), CellState::Unknown);
        for dx in -1..=1i8 {
            for dy in -1..=1i8 {
                let n = board.get_cell(pos(p.x + dx, p.y + dy));
                if dx != 0 || dy != 0 {
                    assert!(!matches!(n, CellState::Ship | CellState::Damaged | CellState::Destroyed));
                }
            }
        }
    }
    assert!(!targets.contains(&pos(3, 3)));
    assert!(!targets.contains(&pos(1, 8)));
    assert_eq!(targets[0], pos(0, 0));
}

#[test]
fn exhausted_board_has_no_target() {
    let board = board_of(CellState::Empty);
    assert!(first_attack(&board).is_empty());
    assert_eq!(select_attack(&board), None);
}

#[test]
fn heatmap_counts_ships_per_cell() {
    let mut board = board_of(CellState::Empty);
    board.set_cell(pos(0, 0), CellState::Unknown);
    board.set_cell(pos(1, 0), CellState::Unknown);
    let heatmap = Heatmap::from_board(&board);
    assert_eq!(heatmap.fields[0][0], 1);
    assert_eq!(heatmap.fields[1][0], 1);
    let total: u32 = heatmap.fields.iter().flatten().sum();
    assert_eq!(total, 2);
}

#[test]
fn heatmap_of_unknown_board_sums_ship_sizes() {
    let heatmap = Heatmap::from_board(&board_of(CellState::Unknown));
    // 600 ship shapes: sizes 2..=5, each along two axes at (11 - size) * 10 starts
    let total: u32 = heatmap.fields.iter().flatten().sum();
    assert_eq!(total, 2000);
    assert_eq!(heatmap.fields[0][0], 8);
    assert_eq!(heatmap.fields[4][4], 28);
    assert_eq!(heatmap.fields[4][5], heatmap.fields[5][4]);
}

#[test]
fn heatmap_of_ambiguous_board_sums_candidate_sizes() {
    let mut board = board_of(CellState::Unknown);
    board.set_cell(pos(3, 3), CellState::Damaged);
    board.set_cell(pos(3, 4), CellState::Damaged);
    let heatmap = Heatmap::from_board(&board);
    let placements = board.detect_placements();
    let sizes: u32 = placements.iter().flat_map(|p| p.ships.iter()).map(|s| s.size as u32).sum();
    let total: u32 = heatmap.fields.iter().flatten().sum();
    assert_eq!(total, sizes);
    // every candidate covers both hits
    assert_eq!(heatmap.fields[3][3], placements.len() as u32);
}

#[test]
fn compare_weights_orders_by_heat() {
    let heatmap = Heatmap::from_board(&board_of(CellState::Unknown));
    assert_eq!(heatmap.compare_weights(&pos(0, 0), &pos(4, 4)), std::cmp::Ordering::Less);
    assert_eq!(heatmap.compare_weights(&pos(4, 5), &pos(5, 4)), std::cmp::Ordering::Equal);
}
