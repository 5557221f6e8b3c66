use game_client::protocol::{
    Coordinate, Data, DataClass, ErrorPacket, Join, Move, OriginalRequest, ProtocolError,
    ProtocolPacket, Room, Segment, Ship, State,
};
use game_client::wire::{join_request, move_answer};

#[test]
fn test_new_move() {
    let m: Move = Move {
        from: Coordinate::from(Coordinate { q: 0, r: 0, s: 0 }),
        to: Coordinate::from(Coordinate { q: 0, r: 0, s: 0 }),
    };
    let data: Data = Data::new_move(m);
    assert_eq!(data.class, DataClass::Move);
    assert_eq!(data.color, None);
    assert_eq!(data.state, None);
    assert_eq!(data._move.as_ref().unwrap().from, Coordinate { q: 0, r: 0, s: 0 });
    assert_eq!(data._move.unwrap().to, Coordinate { q: 0, r: 0, s: 0 });
    assert_eq!(data.definition, None);
    assert_eq!(data.scores, None);
    assert_eq!(data.winner, None);
}

#[test]
fn test_join() {
    let xml_str: &str = r#"<join/>"#;
    let packet: ProtocolPacket = ProtocolPacket::parse(xml_str).unwrap();
    match packet {
        ProtocolPacket::Join(_) => {}
        _ => panic!("Expected Join packet"),
    }
}

#[test]
fn test_joined() {
    let xml_str: &str = r#"<joined/>"#;
    let result: Result<ProtocolPacket, ProtocolError> = ProtocolPacket::parse(xml_str);
    assert_eq!(result, Err(ProtocolError::ParseError));
}

#[test]
fn test_room() {
    let xml_str: &str = r#"<room roomId="abc123"><data class="moveRequest"/></room>"#;
    let packet: ProtocolPacket = ProtocolPacket::parse(xml_str).unwrap();
    match packet {
        ProtocolPacket::Room(room) => {
            assert_eq!(room.room_id, "abc123");
            assert_eq!(room.data.class, DataClass::MoveRequest);
        }
        _ => panic!("Expected Room packet"),
    }
}

#[test]
fn test_left() {
    let xml_str: &str = r#"<left/>"#;
    let result: Result<ProtocolPacket, ProtocolError> = ProtocolPacket::parse(xml_str);
    assert_eq!(result, Err(ProtocolError::ParseError));
}

#[test]
fn test_join_prepared() {
    let xml_str: &str = r#"<joinPrepared reservationCode="1234" />"#;
    let packet: ProtocolPacket = ProtocolPacket::parse(xml_str).unwrap();
    match packet {
        ProtocolPacket::JoinPrepared(join_prepared) => {
            assert_eq!(join_prepared.reservation_code, "1234");
        }
        _ => panic!("Expected JoinPrepared packet"),
    }
}

#[test]
fn test_message() {
    let xml_str: &str = r#"<errorpacket><message>Invalid move</message></errorpacket>"#;
    let result: Result<ProtocolPacket, ProtocolError> = ProtocolPacket::parse(xml_str);
    assert_eq!(result, Err(ProtocolError::ParseError));
}

#[test]
fn test_close() {
    let xml_str: &str = r#"<close/>"#;
    let packet: ProtocolPacket = ProtocolPacket::parse(xml_str).unwrap();
    match packet {
        ProtocolPacket::Close(_) => {}
        _ => panic!("Expected Close packet"),
    }
}

#[test]
fn test_invalid() {
    let xml_str: &str = r#"<invalid/>"#;
    let result: Result<ProtocolPacket, ProtocolError> = ProtocolPacket::parse(xml_str);
    assert!(result.is_err());
}

#[test]
fn test_join_deserialization() {
    let xml = r#"
            <join />
        "#;
    let join = match ProtocolPacket::parse(xml).unwrap() {
        ProtocolPacket::Join(join) => join,
        other => panic!("Expected Join packet, got {:?}", other),
    };
    assert_eq!(join, Join {});
}

#[test]
fn test_room_deserialization() {
    let xml: &str = r#"
            <room roomId="room-1">
                <data class="move">
                <from q="0" r="0" s="0" />
                <to q="1" r="0" s="-1" />
                </data>
            </room>
        "#;

    let room = match ProtocolPacket::parse(xml).unwrap() {
        ProtocolPacket::Room(room) => room,
        other => panic!("Expected Room packet, got {:?}", other),
    };
    assert_eq!(
        room,
        Room {
            room_id: "room-1".to_string(),
            data: Data {
                class: DataClass::Move,
                color: None,
                state: None,
                _move: Some(Move {
                    from: Coordinate { q: 0, r: 0, s: 0 },
                    to: Coordinate { q: 1, r: 0, s: -1 },
                }),
                definition: None,
                scores: None,
                winner: None,
            },
        }
    );
}

#[test]
fn joined_is_not_taken_for_join() {
    let packet = ProtocolPacket::parse(r#"<joined roomId="r1"/>"#).unwrap();
    match packet {
        ProtocolPacket::Joined(joined) => assert_eq!(joined.room_id, "r1"),
        other => panic!("Expected Joined packet, got {:?}", other),
    }
}

#[test]
fn every_room_class_is_read() {
    let cases = [
        ("welcomeMessage", DataClass::WelcomeMessage),
        ("momento", DataClass::Memento),
        ("moveRequest", DataClass::MoveRequest),
        ("move", DataClass::Move),
        ("result", DataClass::Result),
        ("error", DataClass::Error),
        ("somethingElse", DataClass::WelcomeMessage),
    ];
    for (name, class) in cases {
        let text = format!(r#"<room roomId="a"><data class="{}"/></room>"#, name);
        match ProtocolPacket::parse(&text).unwrap() {
            ProtocolPacket::Room(room) => assert_eq!(room.data.class, class, "{}", name),
            other => panic!("Expected Room packet, got {:?}", other),
        }
    }
    match ProtocolPacket::parse(r#"<room roomId="a"><data color="ONE"/></room>"#).unwrap() {
        ProtocolPacket::Room(room) => {
            assert_eq!(room.data.class, DataClass::WelcomeMessage);
            assert_eq!(room.data.color, Some("ONE".to_string()));
        }
        other => panic!("Expected Room packet, got {:?}", other),
    }
}

#[test]
fn room_without_data_is_malformed() {
    let result = ProtocolPacket::parse(r#"<room roomId="a"></room>"#);
    assert_eq!(result, Err(ProtocolError::ParseError));
}

#[test]
fn unknown_frame_is_invalid_with_its_text() {
    let result = ProtocolPacket::parse("<invalid/>");
    assert_eq!(result, Err(ProtocolError::InvalidPacket("<invalid/>".to_string())));
    let result = ProtocolPacket::parse("no tag at all");
    assert_eq!(result, Err(ProtocolError::InvalidPacket("no tag at all".to_string())));
    let result = ProtocolPacket::parse_frame(b"<joinedx/>");
    assert_eq!(result, Err(ProtocolError::InvalidPacket("<joinedx/>".to_string())));
}

#[test]
fn coordinate_off_the_plane_is_malformed() {
    let text = r#"<room roomId="a"><data class="move"><from q="1" r="2" s="3"/><to q="0" r="0" s="0"/></data></room>"#;
    assert_eq!(ProtocolPacket::parse(text), Err(ProtocolError::ParseError));
    assert_eq!(Coordinate::new(1, 2, 3), None);
    assert_eq!(Coordinate::new(1, 0, -1), Some(Coordinate { q: 1, r: 0, s: -1 }));
    assert_eq!(
        Coordinate::new(i32::MAX, i32::MIN, 1),
        Some(Coordinate { q: i32::MAX, r: i32::MIN, s: 1 })
    );
}

#[test]
fn bad_coordinates_are_malformed() {
    let cases = [
        r#"<room roomId="a"><data class="move"><from q="0" r="0"/><to q="0" r="0" s="0"/></data></room>"#,
        r#"<room roomId="a"><data class="move"><from q="x" r="0" s="0"/><to q="0" r="0" s="0"/></data></room>"#,
        r#"<room roomId="a"><data class="move"><from q="2147483648" r="0" s="-2147483648"/><to q="0" r="0" s="0"/></data></room>"#,
        r#"<room roomId="a"><data class="move"><from q="0" r="0" s="0"/></data></room>"#,
        r#"<room roomId="a"><data class="move"><from q="-" r="0" s="0"/><to q="0" r="0" s="0"/></data></room>"#,
    ];
    for text in cases {
        assert_eq!(ProtocolPacket::parse(text), Err(ProtocolError::ParseError), "{}", text);
    }
    let text = r#"<room roomId="a"><data class="move"><from q="-2147483648" r="2147483647" s="1"/><to q="007" r="-7" s="0"/></data></room>"#;
    match ProtocolPacket::parse(text).unwrap() {
        ProtocolPacket::Room(room) => assert_eq!(
            room.data._move,
            Some(Move {
                from: Coordinate { q: i32::MIN, r: i32::MAX, s: 1 },
                to: Coordinate { q: 7, r: -7, s: 0 },
            })
        ),
        other => panic!("Expected Room packet, got {:?}", other),
    }
}

#[test]
fn error_packet_fields() {
    let text = r#"<errorpacket message="No such reservation"><originalRequest class="joinPrepared" reservationCode="abc"/></errorpacket>"#;
    assert_eq!(
        ProtocolPacket::parse(text),
        Ok(ProtocolPacket::ErrorPacket(ErrorPacket {
            message: "No such reservation".to_string(),
            original_request: OriginalRequest {
                class: "joinPrepared".to_string(),
                reservation_code: "abc".to_string(),
            },
        }))
    );
    let text = r#"<errorpacket><message>Invalid move</message><originalRequest class="move" reservationCode=""/></errorpacket>"#;
    assert_eq!(
        ProtocolPacket::parse(text),
        Ok(ProtocolPacket::ErrorPacket(ErrorPacket {
            message: "Invalid move".to_string(),
            original_request: OriginalRequest {
                class: "move".to_string(),
                reservation_code: String::new(),
            },
        }))
    );
    assert_eq!(ProtocolPacket::parse("<errorpacket></errorpacket>"), Err(ProtocolError::ParseError));
    assert_eq!(
        ProtocolPacket::parse(r#"<errorpacket message="m"><originalRequest class="c"/></errorpacket>"#),
        Err(ProtocolError::ParseError)
    );
}

#[test]
fn text_outside_ascii_is_decoded() {
    match ProtocolPacket::parse(r#"<joined roomId="zürich-∆"/>"#).unwrap() {
        ProtocolPacket::Joined(joined) => assert_eq!(joined.room_id, "zürich-∆"),
        other => panic!("Expected Joined packet, got {:?}", other),
    }
    match ProtocolPacket::parse_frame("<left roomId=\"\u{e9}t\u{e9}\"/>".as_bytes()).unwrap() {
        ProtocolPacket::Left(left) => assert_eq!(left.room_id, "\u{e9}t\u{e9}"),
        other => panic!("Expected Left packet, got {:?}", other),
    }
}

#[test]
fn error_messages() {
    assert_eq!(ProtocolError::ParseError.message(), "Error parsing protocol packet");
    assert_eq!(
        ProtocolError::InvalidPacket("<x/>".to_string()).message(),
        "Invalid protocol packet: <x/>"
    );
}

#[test]
fn move_answer_round_trips() {
    let m = Move { from: Coordinate { q: 0, r: 0, s: 0 }, to: Coordinate { q: 1, r: 0, s: -1 } };
    let bytes = move_answer("abc123", &m);
    assert_eq!(
        String::from_utf8(bytes.clone()).unwrap(),
        r#"<room roomId="abc123"><data class="move"><from q="0" r="0" s="0"/><to q="1" r="0" s="-1"/></data></room>"#
    );
    assert_eq!(
        ProtocolPacket::parse_frame(&bytes),
        Ok(ProtocolPacket::Room(Room { room_id: "abc123".to_string(), data: Data::new_move(m) }))
    );
}

#[test]
fn move_answer_writes_extreme_numbers() {
    let m = Move {
        from: Coordinate { q: i32::MIN, r: i32::MAX, s: 1 },
        to: Coordinate { q: 10, r: -205, s: 195 },
    };
    let bytes = move_answer("r", &m);
    assert_eq!(
        String::from_utf8(bytes.clone()).unwrap(),
        r#"<room roomId="r"><data class="move"><from q="-2147483648" r="2147483647" s="1"/><to q="10" r="-205" s="195"/></data></room>"#
    );
    assert_eq!(
        ProtocolPacket::parse_frame(&bytes),
        Ok(ProtocolPacket::Room(Room { room_id: "r".to_string(), data: Data::new_move(m) }))
    );
}

#[test]
fn join_requests_follow_precedence() {
    assert_eq!(join_request(&None, &None), b"<protocol><join/>".to_vec());
    assert_eq!(
        join_request(&None, &Some("room-7".to_string())),
        b"<joinRoom roomId=\"room-7\"/>".to_vec()
    );
    assert_eq!(
        join_request(&Some("CODE".to_string()), &Some("room-7".to_string())),
        b"<joinPrepared reservationCode=\"CODE\"/>".to_vec()
    );
}

#[test]
fn required_fields_are_enforced() {
    let cases = [
        r#"<joined roomId=""/>"#,
        r#"<left/>"#,
        r#"<joinPrepared/>"#,
        r#"<room><data class="moveRequest"/></room>"#,
        r#"<room roomId=""><data class="moveRequest"/></room>"#,
    ];
    for text in cases {
        assert_eq!(ProtocolPacket::parse(text), Err(ProtocolError::ParseError), "{}", text);
    }
    match ProtocolPacket::parse(r#"<left roomId="abc123"/>"#).unwrap() {
        ProtocolPacket::Left(left) => assert_eq!(left.room_id, "abc123"),
        other => panic!("Expected Left packet, got {:?}", other),
    }
    match ProtocolPacket::parse(r#"<joinPrepared reservationCode=""/>"#).unwrap() {
        ProtocolPacket::JoinPrepared(p) => assert_eq!(p.reservation_code, ""),
        other => panic!("Expected JoinPrepared packet, got {:?}", other),
    }
}

#[test]
fn frame_that_is_not_utf8_is_malformed() {
    assert_eq!(ProtocolPacket::parse_frame(b"<joined roomId=\"a\xffb\"/>"), Err(ProtocolError::ParseError));
    assert_eq!(ProtocolPacket::parse_frame(b"<bogus \xc3/>"), Err(ProtocolError::ParseError));
}

#[test]
fn attribute_values_are_escaped_and_read_back() {
    let m = Move { from: Coordinate { q: 0, r: 0, s: 0 }, to: Coordinate { q: 1, r: 0, s: -1 } };
    let id = "a\"b<c>d&e";
    let bytes = move_answer(id, &m);
    assert_eq!(
        String::from_utf8(bytes.clone()).unwrap(),
        r#"<room roomId="a&quot;b&lt;c&gt;d&amp;e"><data class="move"><from q="0" r="0" s="0"/><to q="1" r="0" s="-1"/></data></room>"#
    );
    assert_eq!(
        ProtocolPacket::parse_frame(&bytes),
        Ok(ProtocolPacket::Room(Room { room_id: id.to_string(), data: Data::new_move(m) }))
    );
    assert_eq!(
        join_request(&Some("x&y".to_string()), &None),
        b"<joinPrepared reservationCode=\"x&amp;y\"/>".to_vec()
    );
}

#[test]
fn entities_are_read_in_text() {
    match ProtocolPacket::parse(r#"<joined roomId="it&apos;s &amp; &lt;ok&gt; &quot;q&quot; &x;"/>"#).unwrap() {
        ProtocolPacket::Joined(joined) => assert_eq!(joined.room_id, "it's & <ok> \"q\" &x;"),
        other => panic!("Expected Joined packet, got {:?}", other),
    }
    let text = r#"<errorpacket><message>a &lt; b</message><originalRequest class="c" reservationCode="r"/></errorpacket>"#;
    match ProtocolPacket::parse(text).unwrap() {
        ProtocolPacket::ErrorPacket(e) => assert_eq!(e.message, "a < b"),
        other => panic!("Expected ErrorPacket packet, got {:?}", other),
    }
}

#[test]
fn plus_sign_is_accepted_in_numbers() {
    let text = r#"<room roomId="a"><data class="move"><from q="+1" r="-1" s="0"/><to q="+0" r="0" s="-0"/></data></room>"#;
    match ProtocolPacket::parse(text).unwrap() {
        ProtocolPacket::Room(room) => assert_eq!(
            room.data._move,
            Some(Move { from: Coordinate { q: 1, r: -1, s: 0 }, to: Coordinate { q: 0, r: 0, s: 0 } })
        ),
        other => panic!("Expected Room packet, got {:?}", other),
    }
    let text = r#"<room roomId="a"><data class="move"><from q="+" r="0" s="0"/><to q="0" r="0" s="0"/></data></room>"#;
    assert_eq!(ProtocolPacket::parse(text), Err(ProtocolError::ParseError));
}

#[test]
fn reservation_join_reads_back_as_one_element() {
    let bytes = join_request(&Some("1234".to_string()), &None);
    assert_eq!(
        ProtocolPacket::parse_frame(&bytes),
        Ok(ProtocolPacket::JoinPrepared(game_client::protocol::JoinPrepared {
            reservation_code: "1234".to_string()
        }))
    );
}

#[test]
fn plane_checks() {
    let on = Move { from: Coordinate { q: 1, r: -1, s: 0 }, to: Coordinate { q: 0, r: 0, s: 0 } };
    let off = Move { from: Coordinate { q: 1, r: 1, s: 0 }, to: Coordinate { q: 0, r: 0, s: 0 } };
    assert!(on.is_on_plane());
    assert!(!off.is_on_plane());
    assert!(Coordinate { q: i32::MIN, r: i32::MAX, s: 1 }.is_on_plane());
    assert!(!Coordinate { q: i32::MAX, r: i32::MAX, s: 0 }.is_on_plane());

    let mut state = State::default();
    assert!(state.is_on_plane());
    state.ship.push(Ship { position: Coordinate { q: -1, r: -1, s: 2 }, ..Ship::default() });
    state.board.segment.push(Segment { center: Coordinate { q: 0, r: 0, s: 0 }, ..Segment::default() });
    assert!(state.is_on_plane());
    state.board.segment.push(Segment { center: Coordinate { q: 1, r: 2, s: 3 }, ..Segment::default() });
    assert!(!state.is_on_plane());
    state.board.segment.pop();
    state.ship.push(Ship { position: Coordinate { q: 0, r: 0, s: 1 }, ..Ship::default() });
    assert!(!state.is_on_plane());
}
