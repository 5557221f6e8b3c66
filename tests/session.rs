use game_client::protocol::{
    Coordinate, Data, DataClass, ErrorPacket, Joined, Left, Move, OriginalRequest, ProtocolError,
    ProtocolPacket, Room,
};
use game_client::session::{Action, Session, SessionState};
use game_client::wire::move_answer;

fn active_session() -> Session {
    let mut session = Session::new(None, None);
    session.connect();
    session.join().unwrap();
    session.handle_frame(b"<joined roomId=\"abc123\"/>").unwrap();
    session
}

#[test]
fn lifecycle_join_then_active() {
    let mut session = Session::new(None, None);
    assert_eq!(session.state, SessionState::Disconnected);
    assert_eq!(session.join(), None);
    session.connect();
    assert_eq!(session.state, SessionState::Connecting);
    assert_eq!(session.join(), Some(b"<protocol><join/>".to_vec()));
    assert_eq!(session.state, SessionState::Joining);
    assert_eq!(session.join(), None);

    let action = session.handle_frame(b"<joined roomId=\"abc123\"/>");
    assert_eq!(action, Ok(Action::Joined(Joined { room_id: "abc123".to_string() })));
    assert_eq!(session.state, SessionState::Active);
    assert_eq!(session.room_id, Some("abc123".to_string()));
}

#[test]
fn move_request_is_answered_once() {
    let mut session = active_session();
    let action = session
        .handle_frame(b"<room roomId=\"abc123\"><data class=\"moveRequest\"/></room>")
        .unwrap();
    assert_eq!(action, Action::AnswerMove("abc123".to_string()));
    let m = Move { from: Coordinate { q: 0, r: 0, s: 0 }, to: Coordinate { q: 1, r: 0, s: -1 } };
    let answer = move_answer("abc123", &m);
    assert_eq!(
        String::from_utf8(answer.clone()).unwrap(),
        r#"<room roomId="abc123"><data class="move"><from q="0" r="0" s="0"/><to q="1" r="0" s="-1"/></data></room>"#
    );
    assert_eq!(
        ProtocolPacket::parse_frame(&answer),
        Ok(ProtocolPacket::Room(Room { room_id: "abc123".to_string(), data: Data::new_move(m) }))
    );
    assert_eq!(session.state, SessionState::Active);
}

#[test]
fn left_closes_the_session() {
    let mut session = active_session();
    let action = session.handle_frame(b"<left roomId=\"abc123\"/>");
    assert_eq!(action, Ok(Action::Left(Left { room_id: "abc123".to_string() })));
    assert_eq!(session.state, SessionState::Closed);
    assert!(session.is_closed());
    let action = session.handle_frame(b"<room roomId=\"abc123\"><data class=\"moveRequest\"/></room>");
    assert_eq!(action, Ok(Action::Nothing));
}

fn room(class: DataClass) -> Room {
    Room {
        room_id: "abc123".to_string(),
        data: Data { class, ..Data::default() },
    }
}

#[test]
fn room_messages_reach_their_callbacks() {
    let mut session = active_session();
    let cases = [
        ("welcomeMessage", Action::Welcome(room(DataClass::WelcomeMessage))),
        ("momento", Action::State(room(DataClass::Memento))),
        ("result", Action::Result(room(DataClass::Result))),
        ("error", Action::ErroneousMove(room(DataClass::Error))),
        ("move", Action::Nothing),
    ];
    for (class, expected) in cases {
        let frame = format!(r#"<room roomId="abc123"><data class="{}"/></room>"#, class);
        assert_eq!(session.handle_frame(frame.as_bytes()), Ok(expected), "{}", class);
    }
    let action = session.handle_frame(
        b"<errorpacket message=\"x\"><originalRequest class=\"move\" reservationCode=\"\"/></errorpacket>",
    );
    assert_eq!(
        action,
        Ok(Action::ErrorPacket(ErrorPacket {
            message: "x".to_string(),
            original_request: OriginalRequest { class: "move".to_string(), reservation_code: String::new() },
        }))
    );
    assert_eq!(session.state, SessionState::Active);
}

#[test]
fn room_before_joined_is_ignored() {
    let mut session = Session::new(None, None);
    session.connect();
    session.join();
    let action = session.handle_frame(b"<room roomId=\"abc123\"><data class=\"moveRequest\"/></room>");
    assert_eq!(action, Ok(Action::Nothing));
    assert_eq!(session.state, SessionState::Joining);
}

#[test]
fn bad_frame_ends_the_session() {
    let mut session = active_session();
    let result = session.handle_frame(b"<bogus/>");
    assert_eq!(result, Err(ProtocolError::InvalidPacket("<bogus/>".to_string())));
    assert!(session.is_closed());

    let mut session = active_session();
    let result = session.handle_frame(b"<room roomId=\"abc123\"></room>");
    assert_eq!(result, Err(ProtocolError::ParseError));
    assert_eq!(session.state, SessionState::Closed);
}

#[test]
fn undecodable_bytes_end_the_session() {
    let mut session = active_session();
    assert_eq!(session.handle_frame(b"<left roomId=\"\xff\"/>"), Err(ProtocolError::ParseError));
    assert!(session.is_closed());
}

#[test]
fn join_uses_reservation_then_room() {
    let mut session = Session::new(Some("R1".to_string()), Some("room".to_string()));
    session.connect();
    assert_eq!(
        session.join(),
        Some(b"<joinPrepared reservationCode=\"R1\"/>".to_vec())
    );
    let mut session = Session::new(None, Some("room".to_string()));
    session.connect();
    assert_eq!(session.join(), Some(b"<joinRoom roomId=\"room\"/>".to_vec()));
}

#[test]
fn receive_decides_from_the_packet() {
    let mut session = Session::new(None, None);
    session.connect();
    session.join();
    let action = session.receive(ProtocolPacket::Joined(Joined { room_id: "z".to_string() }));
    assert_eq!(action, Action::Joined(Joined { room_id: "z".to_string() }));
    assert_eq!(session.room_id, Some("z".to_string()));
    let mut closed = session.clone();
    closed.fail();
    assert_eq!(closed.state, SessionState::Closed);
    assert_eq!(closed.room_id, Some("z".to_string()));
}
