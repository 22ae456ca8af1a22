use battleship_bot::fleet::{fallback_fleet, place_ships};
use battleship_bot::{Direction, Placement, PlacementError, Position, Ship, WithBounds};

fn pos(x: i8, y: i8) -> Position {
    Position { x, y }
}

fn ship(x: i8, y: i8, size: i8, direction: Direction) -> Ship {
    Ship { start: pos(x, y), size, direction }
}

fn check_fleet(p: &Placement) {
    assert!(p.all_ships_placed());
    let mut sizes: Vec<i8> = p.ships.iter().map(|s| s.size).collect();
    sizes.sort();
    assert_eq!(sizes, vec![2, 3, 3, 4, 5]);
    for (i, a) in p.ships.iter().enumerate() {
        let end = a.get_end();
        assert!(a.start.x >= 0 && a.start.y >= 0 && end.x <= 9 && end.y <= 9);
        for (j, b) in p.ships.iter().enumerate() {
            if i != j {
                assert!(!a.collides_with(b));
            }
        }
    }
}

#[test]
fn add_ship_accepts_and_reports_each_rule() {
    let mut p = Placement::new();
    assert_eq!(p.add_ship(ship(0, 0, 5, Direction::Horizontal)), Ok(()));
    assert_eq!(p.add_ship(ship(0, 1, 4, Direction::Horizontal)), Err(PlacementError::Collision));
    assert_eq!(p.add_ship(ship(0, 2, 5, Direction::Horizontal)), Err(PlacementError::InvalidSize));
    assert_eq!(p.add_ship(ship(7, 2, 4, Direction::Horizontal)), Err(PlacementError::OutOfBounds));
    assert_eq!(p.add_ship(ship(0, -1, 4, Direction::Vertical)), Err(PlacementError::Collision));
    assert_eq!(p.ships.len(), 1);
    assert_eq!(p.add_ship(ship(0, 2, 4, Direction::Horizontal)), Ok(()));
    assert_eq!(p.add_ship(ship(0, 4, 3, Direction::Horizontal)), Ok(()));
    assert_eq!(p.add_ship(ship(0, 6, 3, Direction::Horizontal)), Ok(()));
    assert_eq!(p.add_ship(ship(0, 8, 3, Direction::Horizontal)), Err(PlacementError::InvalidSize));
    assert_eq!(p.add_ship(ship(0, 8, 2, Direction::Horizontal)), Ok(()));
    assert!(p.all_ships_placed());
    assert_eq!(p.add_ship(ship(9, 0, 2, Direction::Vertical)), Err(PlacementError::TooManyShips));
    assert_eq!(p.ships.len(), 5);
}

#[test]
fn rejected_colliding_ship_leaves_placement_unchanged() {
    let mut p = Placement::new();
    p.add_ship(ship(3, 3, 3, Direction::Vertical)).unwrap();
    let before = p.ships.clone();
    // touching diagonally is a collision too
    assert_eq!(p.add_ship(ship(4, 6, 2, Direction::Horizontal)), Err(PlacementError::Collision));
    assert_eq!(p.ships, before);
    assert_eq!(p.ships.len(), 1);
}

#[test]
fn out_of_bounds_start_is_rejected() {
    let mut p = Placement::new();
    assert_eq!(p.add_ship(ship(-1, 0, 2, Direction::Horizontal)), Err(PlacementError::OutOfBounds));
    assert_eq!(p.add_ship(ship(0, 9, 2, Direction::Vertical)), Err(PlacementError::OutOfBounds));
    assert!(p.ships.is_empty());
}

#[test]
fn missing_sizes_follow_fleet() {
    let mut p = Placement::new();
    assert_eq!(p.get_missing_ship_sizes(), vec![5, 4, 3, 3, 2]);
    p.add_ship(ship(0, 0, 3, Direction::Vertical)).unwrap();
    assert_eq!(p.get_missing_ship_sizes(), vec![5, 4, 3, 2]);
    p.add_ship(ship(5, 0, 3, Direction::Vertical)).unwrap();
    assert_eq!(p.get_missing_ship_sizes(), vec![5, 4, 2]);
}

#[test]
fn is_occupied_covers_ship_and_neighbours() {
    let mut p = Placement::new();
    p.add_ship(ship(2, 2, 3, Direction::Horizontal)).unwrap();
    assert!(p.is_occupied(&pos(3, 2)));
    assert!(p.is_occupied(&pos(5, 3)));
    assert!(p.is_occupied(&pos(1, 1)));
    assert!(!p.is_occupied(&pos(6, 2)));
    assert!(!p.is_occupied(&pos(3, 4)));
}

#[test]
fn ship_geometry() {
    let s = ship(2, 3, 4, Direction::Vertical);
    assert_eq!(s.get_occupied_cells(), vec![pos(2, 3), pos(2, 4), pos(2, 5), pos(2, 6)]);
    assert_eq!(s.get_end(), pos(2, 6));
    assert_eq!(s.get_bounds(), (pos(1, 2), pos(3, 7)));
    assert_eq!(pos(4, 4).get_bounds(), (pos(3, 3), pos(5, 5)));
    assert!(s.collides_with(&pos(3, 7)));
    assert!(!s.collides_with(&pos(4, 4)));
    let h = ship(0, 0, 2, Direction::Horizontal);
    assert_eq!(h.get_end(), pos(1, 0));
    assert!(!h.collides_with(&ship(3, 0, 2, Direction::Horizontal)));
    assert!(h.collides_with(&ship(2, 1, 2, Direction::Vertical)));
}

#[test]
fn random_placement_always_complete() {
    for _ in 0..200 {
        let p = place_ships();
        check_fleet(&p);
    }
}

#[test]
fn random_placements_differ() {
    let first = place_ships();
    let differs = (0..20).any(|_| place_ships().ships != first.ships);
    assert!(differs);
}

#[test]
fn fallback_fleet_is_valid() {
    let p = fallback_fleet();
    check_fleet(&p);
    assert_eq!(p.ships[4], ship(0, 8, 2, Direction::Horizontal));
}
