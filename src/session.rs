//! The life of one connection: join a room, play, leave.
//!
//! The session decides; the caller does the I/O and runs the agent. Each
//! received frame yields an [`Action`] that says which callback of the agent
//! to run, or that a move must be asked for and sent with
//! [`crate::wire::move_answer`].
use vstd::prelude::*;
use vstd::utf8::{decode_utf8, valid_utf8};
use crate::codec::{decodes, move_after, names_message, room_id_in, value_text};
use crate::names::{
    class_name, data_name, join_name, joined_name, left_name, move_request_name, room_name,
};
use crate::tags::{attr_bytes, find_tag, first_tag, named};
use crate::protocol::{DataClass, ErrorPacket, Joined, Left, Move, ProtocolError, ProtocolPacket, Room};
use crate::wire::{join_request, join_text};

verus! {

/// The agent that plays: it is told what happens and decides the moves. The
/// caller runs the callback that each [`Action`] names.
pub trait ClientInterface {
    fn on_state(&mut self, state: Room);

    fn on_move_request(&mut self) -> Move;

    fn on_error_packet(&mut self, error_packet: ErrorPacket);

    fn on_erroneous_move(&mut self, error: Room);

    fn on_joined(&mut self, joined: Joined);

    fn on_welcome(&mut self, welcome_message: Room);

    fn on_left(&mut self, left: Left);

    fn on_result(&mut self, result: Room);
}

/// Where a session stands.
#[derive(Clone, Copy, Debug, PartialEq, Eq, Structural)]
pub enum SessionState {
    Disconnected,
    Connecting,
    Joining,
    Active,
    Closed,
}

/// What the agent must be told after a message, or what must be answered.
#[derive(Clone, Debug, PartialEq)]
pub enum Action {
    Nothing,
    Joined(Joined),
    Welcome(Room),
    State(Room),
    Result(Room),
    ErroneousMove(Room),
    /// Ask the agent for a move and send it to this room.
    AnswerMove(String),
    ErrorPacket(ErrorPacket),
    Left(Left),
}

/// The state of the connection and the room it plays in.
#[derive(Clone, Debug)]
pub struct Session {
    pub state: SessionState,
    /// The reservation code to join with, if any.
    pub reservation_code: Option<String>,
    /// The room to join, if any.
    pub requested_room: Option<String>,
    /// The room the server assigned, once joined.
    pub room_id: Option<String>,
}

/// What a room message in an active session asks for.
pub open spec fn room_action(room: Room) -> Action {
    match room.data.class {
        DataClass::MoveRequest => Action::AnswerMove(room.room_id),
        DataClass::Memento => Action::State(room),
        DataClass::Result => Action::Result(room),
        DataClass::WelcomeMessage => Action::Welcome(room),
        DataClass::Move => Action::Nothing,
        DataClass::Error => Action::ErroneousMove(room),
    }
}

/// The state after `packet` arrives in state `s`.
pub open spec fn next_state(s: SessionState, packet: ProtocolPacket) -> SessionState {
    if s == SessionState::Joining || s == SessionState::Active {
        match packet {
            ProtocolPacket::Joined(_) => SessionState::Active,
            ProtocolPacket::Left(_) => SessionState::Closed,
            _ => s,
        }
    } else {
        s
    }
}

/// What must be done when `packet` arrives in state `s`.
pub open spec fn next_action(s: SessionState, packet: ProtocolPacket) -> Action {
    if s == SessionState::Joining || s == SessionState::Active {
        match packet {
            ProtocolPacket::Joined(j) => Action::Joined(j),
            ProtocolPacket::Room(room) => if s == SessionState::Active {
                room_action(room)
            } else {
                Action::Nothing
            },
            ProtocolPacket::Left(l) => Action::Left(l),
            ProtocolPacket::ErrorPacket(e) => Action::ErrorPacket(e),
            _ => Action::Nothing,
        }
    } else {
        Action::Nothing
    }
}

/// The room recorded after `packet` arrives in state `s`.
pub open spec fn next_room(s: SessionState, room_id: Option<String>, packet: ProtocolPacket) -> Option<String> {
    if s == SessionState::Joining || s == SessionState::Active {
        match packet {
            ProtocolPacket::Joined(j) => Some(j.room_id),
            _ => room_id,
        }
    } else {
        room_id
    }
}

impl Session {
    /// A session not yet connected, that will join with the given reservation
    /// code or room.
    pub fn new(reservation_code: Option<String>, requested_room: Option<String>) -> (r: Self)
        ensures
            r.state == SessionState::Disconnected,
            r.reservation_code == reservation_code,
            r.requested_room == requested_room,
            r.room_id is None,
    {
        Session { state: SessionState::Disconnected, reservation_code, requested_room, room_id: None }
    }

    /// The transport is being established.
    pub fn connect(&mut self)
        ensures
            final(self).state == if old(self).state == SessionState::Disconnected {
                SessionState::Connecting
            } else {
                old(self).state
            },
            final(self).reservation_code == old(self).reservation_code,
            final(self).requested_room == old(self).requested_room,
            final(self).room_id == old(self).room_id,
    {
        if self.state == SessionState::Disconnected {
            self.state = SessionState::Connecting;
        }
    }

    /// Once connected, the one join request to send; `None` in any other state.
    pub fn join(&mut self) -> (r: Option<Vec<u8>>)
        ensures
            old(self).state == SessionState::Connecting ==> final(self).state == SessionState::Joining
                && (r matches Some(bytes) && bytes@ == join_text(
                old(self).reservation_code,
                old(self).requested_room,
            )),
            old(self).state != SessionState::Connecting ==> final(self).state == old(self).state
                && r is None,
            final(self).reservation_code == old(self).reservation_code,
            final(self).requested_room == old(self).requested_room,
            final(self).room_id == old(self).room_id,
    {
        if self.state == SessionState::Connecting {
            self.state = SessionState::Joining;
            Some(join_request(&self.reservation_code, &self.requested_room))
        } else {
            None
        }
    }

    /// Takes in a message from the server and says what must follow.
    pub fn receive(&mut self, packet: ProtocolPacket) -> (r: Action)
        ensures
            r == next_action(old(self).state, packet),
            final(self).state == next_state(old(self).state, packet),
            final(self).room_id == next_room(old(self).state, old(self).room_id, packet),
            final(self).reservation_code == old(self).reservation_code,
            final(self).requested_room == old(self).requested_room,
    {
        if self.state != SessionState::Joining && self.state != SessionState::Active {
            return Action::Nothing;
        }
        match packet {
            ProtocolPacket::Joined(j) => {
                self.state = SessionState::Active;
                self.room_id = Some(j.room_id.clone());
                Action::Joined(j)
            },
            ProtocolPacket::Room(room) => {
                if self.state != SessionState::Active {
                    return Action::Nothing;
                }
                match room.data.class {
                    DataClass::MoveRequest => Action::AnswerMove(room.room_id),
                    DataClass::Memento => Action::State(room),
                    DataClass::Result => Action::Result(room),
                    DataClass::WelcomeMessage => Action::Welcome(room),
                    DataClass::Move => Action::Nothing,
                    DataClass::Error => Action::ErroneousMove(room),
                }
            },
            ProtocolPacket::Left(l) => {
                self.state = SessionState::Closed;
                Action::Left(l)
            },
            ProtocolPacket::ErrorPacket(e) => Action::ErrorPacket(e),
            _ => Action::Nothing,
        }
    }

    /// A fatal error: the session ends.
    pub fn fail(&mut self)
        ensures
            final(self).state == SessionState::Closed,
            final(self).reservation_code == old(self).reservation_code,
            final(self).requested_room == old(self).requested_room,
            final(self).room_id == old(self).room_id,
    {
        self.state = SessionState::Closed;
    }

    /// Whether the session has ended.
    pub fn is_closed(&self) -> (r: bool)
        ensures
            r == (self.state == SessionState::Closed),
    {
        self.state == SessionState::Closed
    }
}

impl Session {
    /// Reads one frame and takes in the message it holds. A frame that cannot
    /// be read ends the session.
    pub fn handle_frame(&mut self, frame: &[u8]) -> (r: Result<Action, ProtocolError>)
        ensures
            r is Err ==> final(self).state == SessionState::Closed,
            !valid_utf8(frame@) ==> r == Err::<Action, ProtocolError>(ProtocolError::ParseError),
            r matches Err(e) ==> (valid_utf8(frame@) && names_message(frame@) ==> decodes(
                frame@,
                Some(Err(e)),
            )) && (valid_utf8(frame@) && !names_message(frame@) ==> (e matches ProtocolError::InvalidPacket(t)
                && t@ == decode_utf8(frame@))),
            r is Ok ==> valid_utf8(frame@),
            r matches Ok(a) ==> exists|p: ProtocolPacket|
                decodes(frame@, Some(Ok(p))) && a == next_action(old(self).state, p)
                    && final(self).state == next_state(old(self).state, p) && final(self).room_id
                    == next_room(old(self).state, old(self).room_id, p),
            final(self).reservation_code == old(self).reservation_code,
            final(self).requested_room == old(self).requested_room,
    {
        match ProtocolPacket::parse_frame(frame) {
            Ok(packet) => {
                let ghost p = packet;
                let a = self.receive(packet);
                assert(decodes(frame@, Some(Ok::<ProtocolPacket, ProtocolError>(p))));
                Ok(a)
            },
            Err(e) => {
                self.fail();
                Err(e)
            },
        }
    }
}

/// A session that is joining takes a `joined` frame with room id `id` as its
/// acknowledgement: the agent is to be told of the join, the session becomes
/// active, and it records the room.
pub proof fn lemma_joined_frame_activates(b: Seq<u8>, p: ProtocolPacket, i: int, k: int, id: Seq<u8>)
    requires
        decodes(b, Some(Ok(p))),
        first_tag(b) == Some((i, k)),
        named(b, i, k, joined_name()),
        room_id_in(b, i, k) == Some(id),
    ensures
        next_action(SessionState::Joining, p) matches Action::Joined(j) && j.room_id@ == value_text(
            id,
        ),
        next_state(SessionState::Joining, p) == SessionState::Active,
        next_room(SessionState::Joining, None, p) matches Some(r) && r@ == value_text(id),
{
}

/// An active session takes a move request for room `id` as a demand for a
/// move answer to that room, and stays active.
pub proof fn lemma_move_request_frame_is_answered(
    b: Seq<u8>,
    p: ProtocolPacket,
    i: int,
    k: int,
    id: Seq<u8>,
    di: int,
    dk: int,
)
    requires
        decodes(b, Some(Ok(p))),
        first_tag(b) == Some((i, k)),
        named(b, i, k, room_name()),
        room_id_in(b, i, k) == Some(id),
        find_tag(b, data_name(), k + 1) == Some((di, dk)),
        attr_bytes(b, di, dk, class_name()) == Some(move_request_name()),
    ensures
        next_action(SessionState::Active, p) matches Action::AnswerMove(r) && r@ == value_text(id),
        next_state(SessionState::Active, p) == SessionState::Active,
{
    assert(!named(b, i, k, joined_name()) && !named(b, i, k, join_name())) by {
        assert(b.subrange(i + 1, i + 5)[0] == b[i + 1]);
        assert(b[i + 1] == 114);
    }
    assert(move_after(b, dk + 1) is Some);
}

/// An active session ends on a `left` frame, and the agent is to be told of
/// it; a closed session then does nothing, whatever arrives.
pub proof fn lemma_left_frame_closes(
    b: Seq<u8>,
    p: ProtocolPacket,
    i: int,
    k: int,
    id: Seq<u8>,
    later: ProtocolPacket,
)
    requires
        decodes(b, Some(Ok(p))),
        first_tag(b) == Some((i, k)),
        named(b, i, k, left_name()),
        room_id_in(b, i, k) == Some(id),
    ensures
        next_action(SessionState::Active, p) matches Action::Left(l) && l.room_id@ == value_text(id),
        next_state(SessionState::Active, p) == SessionState::Closed,
        next_action(SessionState::Closed, later) == Action::Nothing,
        next_state(SessionState::Closed, later) == SessionState::Closed,
{
    assert(!named(b, i, k, joined_name()) && !named(b, i, k, join_name()) && !named(
        b,
        i,
        k,
        room_name(),
    )) by {
        assert(b.subrange(i + 1, i + 5)[0] == b[i + 1]);
        assert(b[i + 1] == 108);
    }
}

} // verus!
