//! The messages of the protocol and the data they carry.
use vstd::prelude::*;

verus! {

/// The messages that the server sends, one per frame.
#[derive(Clone, Debug, PartialEq)]
pub enum ProtocolPacket {
    Joined(Joined),
    Join(Join),
    Room(Room),
    Left(Left),
    JoinPrepared(JoinPrepared),
    ErrorPacket(ErrorPacket),
    Close(Close),
}

/// Why a frame could not be read as a message.
#[derive(Clone, Debug, PartialEq)]
pub enum ProtocolError {
    /// The frame names a known message but does not hold what that message needs.
    ParseError,
    /// The frame names no known message; it carries the frame's text.
    InvalidPacket(String),
}

impl ProtocolError {
    /// A description of the error for people.
    pub fn message(&self) -> (r: String)
        ensures
            self is ParseError ==> r@ == "Error parsing protocol packet"@,
            self is InvalidPacket ==> r@ == "Invalid protocol packet: "@ + self->InvalidPacket_0@,
    {
        match self {
            ProtocolError::ParseError => String::from_str("Error parsing protocol packet"),
            ProtocolError::InvalidPacket(text) => {
                let mut r = String::from_str("Invalid protocol packet: ");
                r.append(text.as_str());
                r
            },
        }
    }
}

/// The `protocol` element that wraps everything sent on a connection.
#[derive(Clone, Debug, Default, PartialEq)]
pub struct Protocol {
    pub joined: Option<Joined>,
    pub join: Option<Join>,
    pub room: Option<Room>,
    pub left: Option<Left>,
    pub join_prepared: Option<JoinPrepared>,
    pub error_packet: Option<ErrorPacket>,
    pub close: Option<Close>,
}

/// A request to join any open game.
#[derive(Clone, Copy, Debug, Default, PartialEq, Eq)]
pub struct Join {}

/// A message scoped to a game room.
#[derive(Clone, Debug, Default, PartialEq)]
pub struct Room {
    pub room_id: String,
    pub data: Data,
}

/// What a room message carries; `class` says which kind it is.
#[derive(Clone, Debug, Default, PartialEq)]
pub struct Data {
    pub class: DataClass,
    pub color: Option<String>,
    pub state: Option<State>,
    pub _move: Option<Move>,
    pub definition: Option<Definition>,
    pub scores: Option<Scores>,
    pub winner: Option<Winner>,
}

impl Data {
    /// The payload of a move answer.
    pub fn new_move(m: Move) -> (r: Self)
        ensures
            r.class == DataClass::Move,
            r.color is None,
            r.state is None,
            r._move == Some(m),
            r.definition is None,
            r.scores is None,
            r.winner is None,
    {
        Data {
            class: DataClass::Move,
            color: None,
            state: None,
            _move: Some(m),
            definition: None,
            scores: None,
            winner: None,
        }
    }
}

/// The kind of a room message.
#[derive(Clone, Copy, Debug, Default, PartialEq, Eq, Structural)]
pub enum DataClass {
    #[default]
    WelcomeMessage,
    Memento,
    MoveRequest,
    Move,
    Result,
    Error,
}

/// A move from one field to another.
#[derive(Clone, Copy, Debug, Default, PartialEq, Eq, Structural)]
pub struct Move {
    pub from: Coordinate,
    pub to: Coordinate,
}

impl Move {
    pub open spec fn is_valid(&self) -> bool {
        self.from.is_valid() && self.to.is_valid()
    }

    /// Whether both ends of the move lie on the plane `q + r + s == 0`.
    pub fn is_on_plane(&self) -> (r: bool)
        ensures
            r == self.is_valid(),
    {
        self.from.is_on_plane() && self.to.is_on_plane()
    }
}

/// A board position in cube coordinates, with `q + r + s == 0`.
#[derive(Clone, Copy, Debug, Default, PartialEq, Eq, Structural)]
pub struct Coordinate {
    pub q: i32,
    pub r: i32,
    pub s: i32,
}

impl Coordinate {
    pub open spec fn is_valid(&self) -> bool {
        self.q + self.r + self.s == 0
    }

    /// Whether the three coordinates add up to zero.
    pub fn is_on_plane(&self) -> (r: bool)
        ensures
            r == self.is_valid(),
    {
        (self.q as i64) + (self.r as i64) + (self.s as i64) == 0
    }

    /// The position (q, r, s), where the three add up to zero.
    pub fn new(q: i32, r: i32, s: i32) -> (c: Option<Coordinate>)
        ensures
            c is Some <==> q + r + s == 0,
            c matches Some(p) ==> p.q == q && p.r == r && p.s == s && p.is_valid(),
    {
        if (q as i64) + (r as i64) + (s as i64) == 0 {
            Some(Coordinate { q, r, s })
        } else {
            None
        }
    }
}

/// The eight directions of the board.
#[derive(Clone, Copy, Debug, Default, PartialEq, Eq, Structural)]
pub enum CubeDirection {
    #[default]
    Right,
    UpRight,
    Up,
    UpLeft,
    Left,
    DownLeft,
    Down,
    DownRight,
}

#[derive(Clone, Copy, Debug, Default, PartialEq, Eq)]
pub struct Water;

#[derive(Clone, Copy, Debug, Default, PartialEq, Eq)]
pub struct Island;

#[derive(Clone, Copy, Debug, Default, PartialEq, Eq)]
pub struct Sandbank;

#[derive(Clone, Copy, Debug, Default, PartialEq, Eq)]
pub struct Passenger {
    pub direction: CubeDirection,
    pub passenger: i32,
}

#[derive(Clone, Copy, Debug, Default, PartialEq, Eq)]
pub struct Goal;

/// One row of fields of a board segment.
#[derive(Clone, Debug, Default, PartialEq)]
pub struct FieldArray {
    pub water: Vec<Water>,
    pub island: Vec<Island>,
    pub sandbank: Vec<Sandbank>,
    pub passenger: Vec<Passenger>,
    pub goal: Vec<Goal>,
}

#[derive(Clone, Debug, Default, PartialEq)]
pub struct Ship {
    pub team: String,
    pub direction: CubeDirection,
    pub speed: i32,
    pub coal: i32,
    pub passengers: i32,
    pub free_turns: i32,
    pub points: i32,
    pub position: Coordinate,
}

/// A snapshot of the game.
#[derive(Clone, Debug, Default, PartialEq)]
pub struct State {
    pub class: String,
    pub start_team: String,
    pub turn: i32,
    pub current_team: String,
    pub board: Board,
    pub ship: Vec<Ship>,
}

impl State {
    /// Every position in the snapshot, of ships and of segment centers, lies
    /// on the plane `q + r + s == 0`.
    pub open spec fn is_valid(&self) -> bool {
        (forall|i: int| 0 <= i < self.ship@.len() ==> (#[trigger] self.ship@[i]).position.is_valid())
            && (forall|i: int|
            0 <= i < self.board.segment@.len() ==> (#[trigger] self.board.segment@[i]).center.is_valid())
    }

    /// Whether every position in the snapshot lies on the plane.
    pub fn is_on_plane(&self) -> (r: bool)
        ensures
            r == self.is_valid(),
    {
        let mut i: usize = 0;
        while i < self.ship.len()
            invariant
                i <= self.ship@.len(),
                forall|j: int| 0 <= j < i ==> (#[trigger] self.ship@[j]).position.is_valid(),
            decreases self.ship@.len() - i,
        {
            if !self.ship[i].position.is_on_plane() {
                return false;
            }
            i += 1;
        }
        let mut i: usize = 0;
        while i < self.board.segment.len()
            invariant
                i <= self.board.segment@.len(),
                forall|j: int| 0 <= j < self.ship@.len() ==> (#[trigger] self.ship@[j]).position.is_valid(),
                forall|j: int| 0 <= j < i ==> (#[trigger] self.board.segment@[j]).center.is_valid(),
            decreases self.board.segment@.len() - i,
        {
            if !self.board.segment[i].center.is_on_plane() {
                return false;
            }
            i += 1;
        }
        true
    }
}

#[derive(Clone, Debug, Default, PartialEq)]
pub struct Segment {
    pub direction: CubeDirection,
    pub center: Coordinate,
    pub field_array: Vec<FieldArray>,
}

#[derive(Clone, Debug, Default, PartialEq)]
pub struct Board {
    pub next_direction: CubeDirection,
    pub segment: Vec<Segment>,
}

#[derive(Clone, Debug, Default, PartialEq)]
pub struct List {
    pub fields: Vec<String>,
}

#[derive(Clone, Debug, Default, PartialEq)]
pub struct Fishes {
    pub ints: Vec<String>,
}

#[derive(Clone, Debug, Default, PartialEq)]
pub struct Definition {
    pub fragments: Vec<Fragment>,
}

#[derive(Clone, Debug, Default, PartialEq)]
pub struct Fragment {
    pub name: String,
    pub aggregation: String,
    pub relevant_for_ranking: bool,
}

#[derive(Clone, Debug, Default, PartialEq)]
pub struct Scores {
    pub entries: Vec<Entry>,
}

#[derive(Clone, Debug, Default, PartialEq)]
pub struct Entry {
    pub player: Player,
    pub score: Score,
}

#[derive(Clone, Debug, Default, PartialEq)]
pub struct Player {
    pub name: String,
    pub team: String,
}

#[derive(Clone, Debug, Default, PartialEq)]
pub struct Score {
    pub cause: String,
    pub reason: String,
    pub parts: Vec<i32>,
}

#[derive(Clone, Debug, Default, PartialEq)]
pub struct Winner {
    pub team: String,
}

/// The server's notice that the client left its room.
#[derive(Clone, Debug, Default, PartialEq)]
pub struct Left {
    pub room_id: String,
}

/// The server's notice that the client joined a room.
#[derive(Clone, Debug, Default, PartialEq)]
pub struct Joined {
    pub room_id: String,
}

/// A join with a reservation code.
#[derive(Clone, Debug, Default, PartialEq)]
pub struct JoinPrepared {
    pub reservation_code: String,
}

/// The server's report of a request it refused.
#[derive(Clone, Debug, Default, PartialEq)]
pub struct ErrorPacket {
    pub message: String,
    pub original_request: OriginalRequest,
}

#[derive(Clone, Debug, Default, PartialEq)]
pub struct OriginalRequest {
    pub class: String,
    pub reservation_code: String,
}

/// The server's notice that it closes the connection.
#[derive(Clone, Copy, Debug, Default, PartialEq, Eq)]
pub struct Close {}

} // verus!
