use game_client::xml_buffer::XmlBuffer;

#[test]
fn test_push_and_pop_xml() {
    let mut buffer: XmlBuffer = XmlBuffer::new();

    buffer.push(b"<room><name>Test Room</name></room>");
    buffer.push(b"<errorpacket><message>Invalid username</message></errorpacket>");
    buffer.push(b"<room><name>Another Room</name></room>");

    let xml_bytes: Vec<u8> = buffer.pop_xml().unwrap();
    assert_eq!(xml_bytes, b"<room><name>Test Room</name></room>");

    let xml_bytes: Vec<u8> = buffer.pop_xml().unwrap();
    assert_eq!(xml_bytes, b"<errorpacket><message>Invalid username</message></errorpacket>");

    buffer.push(b"<room><name>Third Room</name></room>");

    let xml_bytes: Vec<u8> = buffer.pop_xml().unwrap();
    assert_eq!(xml_bytes, b"<room><name>Another Room</name></room>");
}

const FRAMES: [&[u8]; 5] = [
    b"<joined roomId=\"abc123\"/>",
    b"<room roomId=\"abc123\"><data class=\"welcomeMessage\" color=\"ONE\"/></room>",
    b"<room roomId=\"abc123\"><data class=\"moveRequest\"/></room>",
    b"<errorpacket message=\"bad\"><originalRequest class=\"move\" reservationCode=\"x\"/></errorpacket>",
    b"<left roomId=\"abc123\"/>",
];

fn all_bytes() -> Vec<u8> {
    let mut all: Vec<u8> = Vec::new();
    for f in FRAMES.iter() {
        all.extend_from_slice(f);
    }
    all
}

fn collect(chunk: usize) -> Vec<Vec<u8>> {
    let all = all_bytes();
    let mut buffer = XmlBuffer::new();
    let mut out: Vec<Vec<u8>> = Vec::new();
    for piece in all.chunks(chunk) {
        buffer.push(piece);
        while let Some(frame) = buffer.pop_xml() {
            out.push(frame);
        }
    }
    out
}

#[test]
fn frames_come_out_in_order_whatever_the_chunking() {
    let expected: Vec<Vec<u8>> = FRAMES.iter().map(|f| f.to_vec()).collect();
    for chunk in [1usize, 2, 3, 7, 16, 1000] {
        assert_eq!(collect(chunk), expected, "chunk size {}", chunk);
    }
}

#[test]
fn partial_frame_waits_for_the_rest() {
    let frame: &[u8] = b"<room roomId=\"abc123\"><data class=\"moveRequest\"/></room>";
    for cut in 0..frame.len() {
        let mut buffer = XmlBuffer::new();
        buffer.push(&frame[..cut]);
        assert_eq!(buffer.pop_xml(), None, "cut at {}", cut);
        buffer.push(&frame[cut..]);
        assert_eq!(buffer.pop_xml(), Some(frame.to_vec()));
        assert_eq!(buffer.pop_xml(), None);
    }
}

#[test]
fn empty_buffer_has_no_frame() {
    let mut buffer = XmlBuffer::new();
    assert_eq!(buffer.pop_xml(), None);
    buffer.push(b"");
    assert_eq!(buffer.pop_xml(), None);
}

#[test]
fn protocol_opening_and_declaration_are_skipped() {
    let mut buffer = XmlBuffer::new();
    buffer.push(b"<?xml version=\"1.0\"?>\n<protocol>\n  <joined roomId=\"r1\"/>\n");
    assert_eq!(buffer.pop_xml(), Some(b"<joined roomId=\"r1\"/>".to_vec()));
    assert_eq!(buffer.pop_xml(), None);
}

#[test]
fn room_closes_at_the_nearest_end_tag() {
    let mut buffer = XmlBuffer::new();
    buffer.push(b"<room a=\"1\"><x/></room><room a=\"2\"><y/></room>");
    assert_eq!(buffer.pop_xml(), Some(b"<room a=\"1\"><x/></room>".to_vec()));
    assert_eq!(buffer.pop_xml(), Some(b"<room a=\"2\"><y/></room>".to_vec()));
}

#[test]
fn self_closing_room_is_a_frame() {
    let mut buffer = XmlBuffer::new();
    buffer.push(b"<room roomId=\"x\"/>");
    assert_eq!(buffer.pop_xml(), Some(b"<room roomId=\"x\"/>".to_vec()));
}

#[test]
fn incomplete_room_keeps_inner_leaf() {
    let mut buffer = XmlBuffer::new();
    buffer.push(b"<room roomId=\"x\"><data class=\"moveRequest\"/>");
    assert_eq!(buffer.pop_xml(), None);
    buffer.push(b"</room>");
    assert_eq!(
        buffer.pop_xml(),
        Some(b"<room roomId=\"x\"><data class=\"moveRequest\"/></room>".to_vec())
    );
}
