use battleship_bot::{Board, CellState, Position};

fn board_of(state: CellState) -> Board {
    Board { cells: vec![vec![state; 10]; 10] }
}

fn pos(x: i8, y: i8) -> Position {
    Position { x, y }
}

#[test]
fn get_cell_off_grid_is_empty() {
    let board = board_of(CellState::Unknown);
    assert_eq!(board.get_cell(pos(-1, 0)), CellState::Empty);
    assert_eq!(board.get_cell(pos(0, 10)), CellState::Empty);
    assert_eq!(board.get_cell(pos(9, 9)), CellState::Unknown);
}

#[test]
fn set_cell_writes_on_grid_only() {
    let mut board = board_of(CellState::Unknown);
    board.set_cell(pos(2, 7), CellState::Damaged);
    board.set_cell(pos(10, 7), CellState::Damaged);
    assert_eq!(board.get_cell(pos(2, 7)), CellState::Damaged);
    assert_eq!(board.cells[2][7], CellState::Damaged);
    assert_eq!(board.get_cell(pos(7, 2)), CellState::Unknown);
    let count = board.cells.iter().flatten().filter(|c| **c == CellState::Damaged).count();
    assert_eq!(count, 1);
}

#[test]
fn check_cell_matches_states() {
    let mut board = board_of(CellState::Unknown);
    board.set_cell(pos(1, 1), CellState::Ship);
    assert!(board.check_cell(pos(1, 1), vec![CellState::Destroyed, CellState::Ship]));
    assert!(!board.check_cell(pos(1, 1), vec![CellState::Unknown]));
    assert!(board.check_cell(pos(-3, 1), vec![CellState::Empty]));
}

#[test]
fn is_occupied_sees_eight_neighbours() {
    let mut board = board_of(CellState::Unknown);
    board.set_cell(pos(5, 5), CellState::Destroyed);
    assert!(board.is_occupied(pos(4, 4)));
    assert!(board.is_occupied(pos(6, 6)));
    assert!(board.is_occupied(pos(5, 4)));
    assert!(!board.is_occupied(pos(5, 5)));
    assert!(!board.is_occupied(pos(7, 5)));
    assert!(!board.is_occupied(pos(0, 0)));
}

#[test]
fn find_cells_scans_x_major() {
    let mut board = board_of(CellState::Unknown);
    board.set_cell(pos(3, 1), CellState::Damaged);
    board.set_cell(pos(1, 8), CellState::Damaged);
    board.set_cell(pos(1, 2), CellState::Damaged);
    let found = board.find_cells(vec![CellState::Damaged], |_| true);
    assert_eq!(found, vec![pos(1, 2), pos(1, 8), pos(3, 1)]);
    let filtered = board.find_cells(vec![CellState::Damaged], |p| p.y > 1);
    assert_eq!(filtered, vec![pos(1, 2), pos(1, 8)]);
    assert_eq!(board.find_cell(vec![CellState::Damaged], |p| p.x > 1), Some(pos(3, 1)));
    assert_eq!(board.find_cell(vec![CellState::Ship], |_| true), None);
}

#[test]
fn grid_shape_is_checked() {
    let board = board_of(CellState::Unknown);
    assert!(board.has_grid_shape());
    let short = Board { cells: vec![vec![CellState::Unknown; 10]; 9] };
    assert!(!short.has_grid_shape());
    let ragged = Board { cells: vec![vec![CellState::Unknown; 9]; 10] };
    assert!(!ragged.has_grid_shape());
}
