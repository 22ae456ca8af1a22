use battleship_bot::{Board, CellState, Direction, Placement, Position, Ship};

fn board_of(state: CellState) -> Board {
    Board { cells: vec![vec![state; 10]; 10] }
}

fn pos(x: i8, y: i8) -> Position {
    Position { x, y }
}

fn canonical_destroyed_board() -> Board {
    let mut board = board_of(CellState::Empty);
    let rows: [(i8, i8); 5] = [(0, 5), (2, 4), (4, 3), (6, 3), (8, 2)];
    for (y, size) in rows {
        for x in 0..size {
            board.set_cell(pos(x, y), CellState::Destroyed);
        }
    }
    board
}

#[test]
fn resolved_board_gives_full_fleet() {
    let board = canonical_destroyed_board();
    let placements = board.detect_placements();
    assert_eq!(placements.len(), 1);
    assert!(placements[0].all_ships_placed());
    let sizes: Vec<i8> = placements[0].ships.iter().map(|s| s.size).collect();
    assert_eq!(sizes, vec![5, 4, 3, 3, 2]);
    assert_eq!(placements[0].ships[0], Ship { start: pos(0, 0), size: 5, direction: Direction::Horizontal });
}

#[test]
fn undamaged_board_single_placement() {
    let mut board = board_of(CellState::Unknown);
    board.set_cell(pos(2, 2), CellState::Destroyed);
    board.set_cell(pos(2, 3), CellState::Destroyed);
    board.set_cell(pos(2, 4), CellState::Destroyed);
    let placements = board.detect_placements();
    assert_eq!(placements.len(), 1);
    assert_eq!(
        placements[0].ships,
        vec![Ship { start: pos(2, 2), size: 3, direction: Direction::Vertical }]
    );
    assert_eq!(placements[0].get_missing_ship_sizes(), vec![5, 4, 3, 2]);
}

#[test]
fn empty_board_gives_empty_placement() {
    let board = board_of(CellState::Unknown);
    let placements = board.detect_placements();
    assert_eq!(placements.len(), 1);
    assert!(placements[0].ships.is_empty());
}

#[test]
fn damaged_ship_gives_candidates_sharing_resolved_ships() {
    let mut board = board_of(CellState::Unknown);
    board.set_cell(pos(0, 0), CellState::Destroyed);
    board.set_cell(pos(1, 0), CellState::Destroyed);
    board.set_cell(pos(5, 5), CellState::Damaged);
    let placements = board.detect_placements();
    assert!(placements.len() > 1);
    let base = Ship { start: pos(0, 0), size: 2, direction: Direction::Horizontal };
    for p in &placements {
        assert_eq!(p.ships.len(), 2);
        assert_eq!(p.ships[0], base);
        let s = p.ships[1];
        assert!(s.get_occupied_cells().contains(&pos(5, 5)));
        assert!(s.size >= 2 && s.size <= 5);
    }
}

#[test]
fn damaged_run_candidates_cover_the_run() {
    let mut board = board_of(CellState::Unknown);
    board.set_cell(pos(3, 3), CellState::Damaged);
    board.set_cell(pos(3, 4), CellState::Damaged);
    let complete = board.detect_complete_ships().unwrap();
    assert!(complete.ships.is_empty());
    let candidates = board.detect_damaged_ship(&complete).unwrap();
    // sizes 5, 4, 3: 4 + 3 + 2 offsets along y
    assert_eq!(candidates.len(), 9);
    for p in &candidates {
        let cells = p.ships[0].get_occupied_cells();
        assert!(cells.contains(&pos(3, 3)) && cells.contains(&pos(3, 4)));
        assert_eq!(p.ships[0].direction, Direction::Vertical);
    }
    assert_eq!(candidates[0].ships[0], Ship { start: pos(3, 3), size: 5, direction: Direction::Vertical });
    assert_eq!(candidates[3].ships[0], Ship { start: pos(3, 0), size: 5, direction: Direction::Vertical });
}

#[test]
fn no_damage_means_no_candidates() {
    let board = board_of(CellState::Unknown);
    assert!(board.detect_damaged_ship(&Placement::new()).is_none());
}

#[test]
fn inconsistent_board_has_no_placement() {
    // a ship cell walled in by water on every side has no direction
    let mut board = board_of(CellState::Empty);
    board.set_cell(pos(4, 4), CellState::Destroyed);
    assert!(board.detect_complete_ships().is_none());
    assert!(board.detect_placements().is_empty());
}

#[test]
fn detect_direction_cases() {
    let mut board = board_of(CellState::Unknown);
    board.set_cell(pos(3, 3), CellState::Damaged);
    assert_eq!(board.detect_direction(&pos(3, 3)), vec![Direction::Horizontal, Direction::Vertical]);
    board.set_cell(pos(3, 4), CellState::Damaged);
    assert_eq!(board.detect_direction(&pos(3, 3)), vec![Direction::Vertical]);
    board.set_cell(pos(4, 3), CellState::Ship);
    assert_eq!(board.detect_direction(&pos(3, 3)), vec![Direction::Horizontal]);
    let walled = board_of(CellState::Empty);
    assert!(walled.detect_direction(&pos(0, 0)).is_empty());
}

#[test]
fn detect_size_counts_run() {
    let mut board = board_of(CellState::Unknown);
    for x in 2..6 {
        board.set_cell(pos(x, 1), CellState::Destroyed);
    }
    assert_eq!(board.detect_size(&pos(2, 1), &Direction::Horizontal, &5), 4);
    assert_eq!(board.detect_size(&pos(2, 1), &Direction::Horizontal, &3), 3);
    assert_eq!(board.detect_size(&pos(2, 1), &Direction::Vertical, &5), 1);
    assert_eq!(board.detect_size(&pos(2, 1), &Direction::Horizontal, &0), 0);
}

#[test]
fn detect_unknown_fields_counts() {
    let mut board = board_of(CellState::Unknown);
    board.set_cell(pos(3, 5), CellState::Damaged);
    board.set_cell(pos(1, 5), CellState::Empty);
    assert_eq!(board.detect_unknown_fields_end(&5, &1, &pos(3, 5), &Direction::Horizontal), 4);
    assert_eq!(board.detect_unknown_fields_start(&5, &1, &pos(3, 5), &Direction::Horizontal), 1);
    assert_eq!(board.detect_unknown_fields_end(&3, &1, &pos(3, 5), &Direction::Vertical), 2);
    assert_eq!(board.detect_unknown_fields_end(&2, &3, &pos(3, 5), &Direction::Vertical), -1);
    assert_eq!(board.detect_unknown_fields_end(&5, &1, &pos(9, 5), &Direction::Horizontal), 0);
}
