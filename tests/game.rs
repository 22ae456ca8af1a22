use battleship_bot::game::{
    attack, handle_game_event, BoardOrBool, GameDetails, GameError, GameEvent, GameInitEvent,
    GameResponse, GameResultEvent, GameRoundEvent, GameSetEvent, Player,
};
use battleship_bot::{Board, CellState, Position};

fn board_of(state: CellState) -> Board {
    Board { cells: vec![vec![state; 10]; 10] }
}

fn details(ids: &[&str], me: &str) -> GameDetails {
    GameDetails {
        id: String::from("game-1"),
        players: ids
            .iter()
            .enumerate()
            .map(|(i, id)| Player { id: id.to_string(), score: i as u32 })
            .collect(),
        self_id: me.to_string(),
    }
}

#[test]
fn players_resolve_by_id() {
    let d = details(&["them", "me"], "me");
    assert_eq!(d.get_self_number(), Some(1));
    assert_eq!(d.get_opponent_number(), Some(0));
    assert_eq!(d.get_self().unwrap().id, "me");
    assert_eq!(d.get_opponent().unwrap().score, 0);
    let alone = details(&["me", "me"], "me");
    assert_eq!(alone.get_opponent_number(), None);
    assert!(alone.get_opponent().is_none());
    let stranger = details(&["a", "b"], "me");
    assert_eq!(stranger.get_self_number(), None);
    assert!(stranger.get_self().is_none());
    assert_eq!(stranger.get_opponent_number(), Some(0));
}

#[test]
fn round_boards_by_player() {
    let mut mine = board_of(CellState::Unknown);
    mine.set_cell(Position { x: 0, y: 0 }, CellState::Ship);
    let event = GameRoundEvent {
        details: details(&["me", "them"], "me"),
        boards: [mine, board_of(CellState::Empty)],
    };
    assert_eq!(event.get_self_board().unwrap().cells[0][0], CellState::Ship);
    assert_eq!(event.get_opponent_board().unwrap().cells[0][0], CellState::Empty);
}

#[test]
fn result_boards_may_be_withheld() {
    let event = GameResultEvent {
        details: details(&["me", "them"], "me"),
        boards: [BoardOrBool::Board(board_of(CellState::Ship)), BoardOrBool::Bool(false)],
    };
    assert_eq!(event.get_self_board().unwrap().cells[9][9], CellState::Ship);
    assert!(event.get_opponent_board().is_none());
}

#[test]
fn round_event_answers_with_attack() {
    let mut opponent = board_of(CellState::Unknown);
    opponent.set_cell(Position { x: 3, y: 3 }, CellState::Damaged);
    opponent.set_cell(Position { x: 3, y: 4 }, CellState::Damaged);
    let event = GameEvent::Round(GameRoundEvent {
        details: details(&["them", "me"], "me"),
        boards: [opponent, board_of(CellState::Unknown)],
    });
    match handle_game_event(event) {
        Ok(Some(GameResponse::Attack(p))) => {
            assert!(p == Position { x: 3, y: 2 } || p == Position { x: 3, y: 5 })
        }
        other => panic!("unexpected answer {:?}", other),
    }
}

#[test]
fn set_event_answers_with_fleet() {
    let event = GameEvent::Setup(GameSetEvent { details: details(&["me", "them"], "me") });
    match handle_game_event(event) {
        Ok(Some(GameResponse::PlaceShips(p))) => assert!(p.all_ships_placed()),
        other => panic!("unexpected answer {:?}", other),
    }
}

#[test]
fn init_and_result_events_have_no_answer() {
    let init = GameEvent::Init(GameInitEvent { details: details(&["me", "them"], "me") });
    assert!(matches!(handle_game_event(init), Ok(None)));
    let result = GameEvent::Result(GameResultEvent {
        details: details(&["me", "them"], "me"),
        boards: [BoardOrBool::Bool(false), BoardOrBool::Bool(false)],
    });
    assert!(matches!(handle_game_event(result), Ok(None)));
}

#[test]
fn attack_errors() {
    let alone = GameRoundEvent {
        details: details(&["me"], "me"),
        boards: [board_of(CellState::Unknown), board_of(CellState::Unknown)],
    };
    assert_eq!(attack(&alone), Err(GameError::UnknownPlayer));
    let third = GameRoundEvent {
        details: details(&["me", "me", "them"], "me"),
        boards: [board_of(CellState::Unknown), board_of(CellState::Unknown)],
    };
    assert_eq!(attack(&third), Err(GameError::UnknownPlayer));
    let malformed = GameRoundEvent {
        details: details(&["me", "them"], "me"),
        boards: [board_of(CellState::Unknown), Board { cells: vec![vec![CellState::Unknown; 10]; 9] }],
    };
    assert_eq!(attack(&malformed), Err(GameError::MalformedBoard));
    let exhausted = GameRoundEvent {
        details: details(&["me", "them"], "me"),
        boards: [board_of(CellState::Unknown), board_of(CellState::Empty)],
    };
    assert_eq!(attack(&exhausted), Err(GameError::NoTarget));
}

#[test]
fn board_or_bool_converts_to_option() {
    let revealed: Option<Board> = BoardOrBool::Board(board_of(CellState::Damaged)).into();
    assert_eq!(revealed.unwrap().cells[4][4], CellState::Damaged);
    let withheld: Option<Board> = Option::from(BoardOrBool::Bool(false));
    assert!(withheld.is_none());
}
