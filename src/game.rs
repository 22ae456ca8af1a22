use vstd::prelude::*;

use crate::board::Board;
use crate::fleet::place_ships;
use crate::heatmap::{heat_at, heat_candidates};
use crate::placement::Placement;
use crate::position::Position;
use crate::strategy::{select_attack, tier_targets};

verus! {

/// A player of a game.
#[derive(Debug, Clone)]
pub struct Player {
    pub id: String,
    pub score: u32,
}

/// What every event says of its game: its id, its players and which of them
/// this client plays.
#[derive(Debug, Clone)]
pub struct GameDetails {
    pub id: String,
    pub players: Vec<Player>,
    pub self_id: String,
}

/// A board, or `false` where the server withholds it.
#[derive(Debug, Clone)]
pub enum BoardOrBool {
    Board(Board),
    Bool(bool),
}

/// The game starts.
#[derive(Debug, Clone)]
pub struct GameInitEvent {
    pub details: GameDetails,
}

/// The game ended; the boards as revealed.
#[derive(Debug, Clone)]
pub struct GameResultEvent {
    pub details: GameDetails,
    pub boards: [BoardOrBool; 2],
}

/// A move is due; the boards of both players, in player order.
#[derive(Debug, Clone)]
pub struct GameRoundEvent {
    pub details: GameDetails,
    pub boards: [Board; 2],
}

/// The fleet is to be placed.
#[derive(Debug, Clone)]
pub struct GameSetEvent {
    pub details: GameDetails,
}

/// An event of the game server.
#[derive(Debug, Clone)]
pub enum GameEvent {
    Init(GameInitEvent),
    Result(GameResultEvent),
    Round(GameRoundEvent),
    Setup(GameSetEvent),
}

/// The answer to an event.
#[derive(Debug, Clone)]
pub enum GameResponse {
    PlaceShips(Placement),
    Attack(Position),
}

/// Why an event cannot be answered.
#[derive(Debug, Clone, Copy, PartialEq, Eq, Structural)]
pub enum GameError {
    /// The players do not include this client, or no opponent.
    UnknownPlayer,
    /// The opponent's board is missing or not 10x10.
    MalformedBoard,
    /// No attack strategy finds a cell.
    NoTarget,
}

/// The index of the first player, from `k` on, whose id is `id` (`same`) or
/// is not `id` (`!same`).
pub open spec fn find_player(players: Seq<Player>, id: Seq<char>, same: bool, k: int) -> Option<
    int,
>
    decreases players.len() - k,
{
    if k >= players.len() || k < 0 {
        None
    } else if (players[k].id@ == id) == same {
        Some(k)
    } else {
        find_player(players, id, same, k + 1)
    }
}

/// What `find_player` finds lies in range and matches.
pub proof fn lemma_find_player(players: Seq<Player>, id: Seq<char>, same: bool, k: int)
    ensures
        find_player(players, id, same, k) matches Some(i) ==> k <= i < players.len() && (
        players[i].id@ == id) == same,
    decreases players.len() - k,
{
    if 0 <= k < players.len() {
        lemma_find_player(players, id, same, k + 1);
    }
}

impl GameDetails {
    /// The index of this client among the players.
    pub open spec fn self_index(&self) -> Option<int> {
        find_player(self.players@, self.self_id@, true, 0)
    }

    /// The index of the opponent: the first player that is not this client.
    pub open spec fn opponent_index(&self) -> Option<int> {
        find_player(self.players@, self.self_id@, false, 0)
    }

    /// The first player from `0` on whose id is (or, with `!same`, is not)
    /// this client's.
    fn find_number(&self, same: bool) -> (r: Option<usize>)
        ensures
            r matches Some(i) ==> find_player(self.players@, self.self_id@, same, 0) == Some(
                i as int,
            ),
            r is None ==> find_player(self.players@, self.self_id@, same, 0) is None,
    {
        let mut i: usize = 0;
        while i < self.players.len()
            invariant
                0 <= i <= self.players@.len(),
                find_player(self.players@, self.self_id@, same, 0) == find_player(
                    self.players@,
                    self.self_id@,
                    same,
                    i as int,
                ),
            decreases self.players@.len() - i,
        {
            if (self.players[i].id == self.self_id) == same {
                return Some(i);
            }
            i = i + 1;
        }
        None
    }

    /// The index of this client among the players; `None` when absent.
    pub fn get_self_number(&self) -> (r: Option<usize>)
        ensures
            r matches Some(i) ==> self.self_index() == Some(i as int),
            r is None ==> self.self_index() is None,
    {
        self.find_number(true)
    }

    /// The index of the opponent; `None` when every player is this client.
    pub fn get_opponent_number(&self) -> (r: Option<usize>)
        ensures
            r matches Some(i) ==> self.opponent_index() == Some(i as int),
            r is None ==> self.opponent_index() is None,
    {
        self.find_number(false)
    }

    /// This client's player; `None` when absent.
    pub fn get_self(&self) -> (r: Option<&Player>)
        ensures
            r matches Some(p) ==> self.self_index() matches Some(i) && *p == self.players@[i],
            r is None ==> self.self_index() is None,
    {
        match self.get_self_number() {
            Some(i) => {
                proof {
                    lemma_find_player(self.players@, self.self_id@, true, 0);
                }
                Some(&self.players[i])
            },
            None => None,
        }
    }

    /// The opponent's player; `None` when every player is this client.
    pub fn get_opponent(&self) -> (r: Option<&Player>)
        ensures
            r matches Some(p) ==> self.opponent_index() matches Some(i) && *p
                == self.players@[i],
            r is None ==> self.opponent_index() is None,
    {
        match self.get_opponent_number() {
            Some(i) => {
                proof {
                    lemma_find_player(self.players@, self.self_id@, false, 0);
                }
                Some(&self.players[i])
            },
            None => None,
        }
    }
}

impl GameRoundEvent {
    /// This client's board; `None` when the player or the board is missing.
    pub fn get_self_board(&self) -> (r: Option<&Board>)
        ensures
            r matches Some(b) ==> self.details.self_index() matches Some(i) && i
                < self.boards@.len() && *b == self.boards@[i],
            r is None ==> !(self.details.self_index() matches Some(i) && i < self.boards@.len()),
    {
        match self.details.get_self_number() {
            Some(i) => {
                if i < self.boards.len() {
                    Some(&self.boards[i])
                } else {
                    None
                }
            },
            None => None,
        }
    }

    /// The opponent's board; `None` when the player or the board is missing.
    pub fn get_opponent_board(&self) -> (r: Option<&Board>)
        ensures
            r matches Some(b) ==> self.details.opponent_index() matches Some(i) && i
                < self.boards@.len() && *b == self.boards@[i],
            r is None ==> !(self.details.opponent_index() matches Some(i) && i
                < self.boards@.len()),
    {
        match self.details.get_opponent_number() {
            Some(i) => {
                if i < self.boards.len() {
                    Some(&self.boards[i])
                } else {
                    None
                }
            },
            None => None,
        }
    }
}

/// The board that `b` holds, if any.
pub open spec fn revealed(b: BoardOrBool) -> Option<Board> {
    match b {
        BoardOrBool::Board(board) => Some(board),
        BoardOrBool::Bool(_) => None,
    }
}

impl From<BoardOrBool> for Option<Board> {
    fn from(val: BoardOrBool) -> Option<Board> {
        match val {
            BoardOrBool::Board(board) => Some(board),
            BoardOrBool::Bool(_) => None,
        }
    }
}

impl vstd::std_specs::convert::FromSpecImpl<BoardOrBool> for Option<Board> {
    open spec fn obeys_from_spec() -> bool {
        true
    }

    open spec fn from_spec(v: BoardOrBool) -> Option<Board> {
        revealed(v)
    }
}

impl GameResultEvent {
    /// This client's board as revealed; `None` when withheld or missing.
    pub fn get_self_board(&self) -> (r: Option<&Board>)
        ensures
            r matches Some(b) ==> self.details.self_index() matches Some(i) && i
                < self.boards@.len() && revealed(self.boards@[i]) == Some(*b),
            r is None ==> !(self.details.self_index() matches Some(i) && i < self.boards@.len()
                && revealed(self.boards@[i]) is Some),
    {
        match self.details.get_self_number() {
            Some(i) => {
                if i < self.boards.len() {
                    match &self.boards[i] {
                        BoardOrBool::Board(board) => Some(board),
                        BoardOrBool::Bool(_) => None,
                    }
                } else {
                    None
                }
            },
            None => None,
        }
    }

    /// The opponent's board as revealed; `None` when withheld or missing.
    pub fn get_opponent_board(&self) -> (r: Option<&Board>)
        ensures
            r matches Some(b) ==> self.details.opponent_index() matches Some(i) && i
                < self.boards@.len() && revealed(self.boards@[i]) == Some(*b),
            r is None ==> !(self.details.opponent_index() matches Some(i) && i
                < self.boards@.len() && revealed(self.boards@[i]) is Some),
    {
        match self.details.get_opponent_number() {
            Some(i) => {
                if i < self.boards.len() {
                    match &self.boards[i] {
                        BoardOrBool::Board(board) => Some(board),
                        BoardOrBool::Bool(_) => None,
                    }
                } else {
                    None
                }
            },
            None => None,
        }
    }
}

/// The cell `p` is a best attack on `board`: a candidate of the first tier
/// that has any, of highest heat among them.
pub open spec fn best_attack(board: Board, p: Position) -> bool {
    &&& tier_targets(board).contains(p)
    &&& forall|q: Position|
        #[trigger] tier_targets(board).contains(q) ==> heat_at(
            heat_candidates(board),
            q.x as int,
            q.y as int,
        ) <= heat_at(heat_candidates(board), p.x as int, p.y as int)
}

/// `r` answers the round `e`: an error when the opponent or its 10x10 board
/// is missing or no strategy finds a cell, else a best attack on that board.
pub open spec fn answers_round(e: GameRoundEvent, r: Result<Position, GameError>) -> bool {
    match e.details.opponent_index() {
        Some(i) => if i < e.boards@.len() {
            let b = e.boards@[i];
            if !b.wf() {
                r == Err::<Position, GameError>(GameError::MalformedBoard)
            } else if tier_targets(b).len() == 0 {
                r == Err::<Position, GameError>(GameError::NoTarget)
            } else {
                r matches Ok(p) && best_attack(b, p)
            }
        } else {
            r == Err::<Position, GameError>(GameError::UnknownPlayer)
        },
        None => r == Err::<Position, GameError>(GameError::UnknownPlayer),
    }
}

/// The cell to attack in a round: a best attack on the opponent's board.
pub fn attack(event: &GameRoundEvent) -> (r: Result<Position, GameError>)
    ensures
        answers_round(*event, r),
{
    let board = match event.get_opponent_board() {
        Some(board) => board,
        None => return Err(GameError::UnknownPlayer),
    };
    if !board.has_grid_shape() {
        return Err(GameError::MalformedBoard);
    }
    match select_attack(board) {
        Some(p) => Ok(p),
        None => Err(GameError::NoTarget),
    }
}

/// The answer to an event: an attack for a round, a fleet for the set-up,
/// nothing for the start and the end of a game.
pub fn handle_game_event(event: GameEvent) -> (r: Result<Option<GameResponse>, GameError>)
    ensures
        match event {
            GameEvent::Init(_) => r matches Ok(None),
            GameEvent::Result(_) => r matches Ok(None),
            GameEvent::Setup(_) => r matches Ok(Some(GameResponse::PlaceShips(p))) && p.wf()
                && p.ships@.len() == 5,
            GameEvent::Round(e) => match r {
                Ok(Some(GameResponse::Attack(p))) => answers_round(e, Ok(p)),
                Err(err) => answers_round(e, Err(err)),
                _ => false,
            },
        },
{
    match event {
        GameEvent::Init(_) => Ok(None),
        GameEvent::Result(_) => Ok(None),
        GameEvent::Round(e) => match attack(&e) {
            Ok(p) => Ok(Some(GameResponse::Attack(p))),
            Err(err) => Err(err),
        },
        GameEvent::Setup(_) => Ok(Some(GameResponse::PlaceShips(place_ships()))),
    }
}

} // verus!
