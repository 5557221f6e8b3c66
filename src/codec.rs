//! Reading a frame as a message.
//!
//! A frame is classified by the exact name of its first tag, so that
//! `joinPrepared` is not taken for `join`. A frame is malformed when it lacks
//! a field that its message requires: the `roomId` of `joined`, `left` and
//! `room` (which may not be empty either), the `data` of a `room`, the
//! `reservationCode` of `joinPrepared`, and the message and `originalRequest`
//! (with its `class` and `reservationCode`) of `errorpacket`. It is malformed
//! too when only one of `from` and `to` is given, or when a coordinate lacks
//! one of `q`, `r`, `s`, does not write an `i32`, or leaves the plane
//! `q + r + s == 0`.
//! Text fields have the entities `&amp;`, `&quot;`, `&lt;`, `&gt;` and
//! `&apos;` read. The game state, definition, scores and winner of a room
//! message are not read here.
use vstd::prelude::*;
use vstd::string::StringSliceAdditionalSpecFns;
use vstd::utf8::{decode_utf8, valid_utf8};
use crate::names::{
    class_bytes, class_name, close_bytes, close_name, color_bytes, color_name, data_bytes,
    data_name, error_bytes, error_name, errorpacket_bytes, errorpacket_name, from_bytes, from_name,
    join_bytes, join_name, join_prepared_bytes, join_prepared_name, joined_bytes, joined_name,
    left_bytes, left_name, message_bytes, message_name, momento_bytes, momento_name, move_bytes,
    move_name, move_request_bytes, move_request_name, original_request_bytes,
    original_request_name, q_bytes, q_name, r_bytes, r_name, reservation_code_bytes,
    reservation_code_name, result_bytes, result_name, room_bytes, room_id_bytes, room_id_name,
    room_name, s_bytes, s_name, to_bytes, to_name,
};
use crate::protocol::{
    Close, Coordinate, Data, DataClass, ErrorPacket, Join, JoinPrepared, Joined, Left, Move,
    OriginalRequest, ProtocolError, ProtocolPacket, Room,
};
use crate::tags::{
    attr_bytes, attr_int, attr_span_of, find_tag, find_tag_from, first_tag,
    first_tag_of, inner_text, int_of, is_named, lemma_attr_span_bounds,
    lemma_find_tag_bounds, lemma_first_tag_bounds, named, unescape, unescape_range,
};
use crate::text::{find_byte, lemma_find_bounds, matches_at, LT, SLASH};

verus! {

/// The text that a run of bytes encodes as UTF-8.
pub uninterp spec fn utf8_text(b: Seq<u8>) -> Seq<char>;

/// Relies on `String::from_utf8_lossy`: the text the bytes encode, with U+FFFD
/// for each invalid sequence; bytes that are valid UTF-8 decode exactly.
#[verifier::external_body]
fn text_of(b: &[u8]) -> (r: String)
    ensures
        r@ == utf8_text(b@),
        valid_utf8(b@) ==> r@ == decode_utf8(b@),
{
    String::from_utf8_lossy(b).into_owned()
}

/// Relies on `std::str::from_utf8`: it succeeds exactly on valid UTF-8.
#[verifier::external_body]
fn is_utf8(b: &[u8]) -> (r: bool)
    ensures
        r == valid_utf8(b@),
{
    std::str::from_utf8(b).is_ok()
}

/// The text that bytes hold.
pub open spec fn bytes_text(x: Seq<u8>) -> Seq<char> {
    if valid_utf8(x) {
        decode_utf8(x)
    } else {
        utf8_text(x)
    }
}

/// The text of an attribute value or element content, its entities read.
pub open spec fn value_text(x: Seq<u8>) -> Seq<char> {
    bytes_text(unescape(x))
}

/// The text of the bytes `s..e` of `b`, their entities read.
fn text_of_range(b: &[u8], s: usize, e: usize) -> (r: String)
    requires
        s <= e <= b@.len(),
    ensures
        r@ == value_text(b@.subrange(s as int, e as int)),
{
    let v = unescape_range(b, s, e);
    text_of(v.as_slice())
}

pub open spec fn opt_text_is(o: Option<String>, v: Option<Seq<u8>>) -> bool {
    match v {
        Some(x) => o matches Some(t) && t@ == value_text(x),
        None => o is None,
    }
}

/// The room id in the tag `i`..=`k`: its `roomId` attribute, where it is not empty.
pub open spec fn room_id_in(b: Seq<u8>, i: int, k: int) -> Option<Seq<u8>> {
    match attr_bytes(b, i, k, room_id_name()) {
        Some(v) => if v.len() > 0 {
            Some(v)
        } else {
            None
        },
        None => None,
    }
}

pub open spec fn malformed(r: Option<Result<ProtocolPacket, ProtocolError>>) -> bool {
    r == Some(Err::<ProtocolPacket, ProtocolError>(ProtocolError::ParseError))
}

/// The coordinate that the tag `i`..=`k` gives in its `q`, `r` and `s` attributes.
pub open spec fn coordinate_at(b: Seq<u8>, i: int, k: int) -> Option<Coordinate> {
    match (attr_int(b, i, k, q_name()), attr_int(b, i, k, r_name()), attr_int(b, i, k, s_name())) {
        (Some(q), Some(r), Some(s)) => if q + r + s == 0 {
            Some(Coordinate { q: q as i32, r: r as i32, s: s as i32 })
        } else {
            None
        },
        _ => None,
    }
}

/// The move given by the first `from` and `to` tags at or after `from`:
/// `Some(None)` when there are neither, `None` when they do not make a move.
pub open spec fn move_after(b: Seq<u8>, from: int) -> Option<Option<Move>> {
    match (find_tag(b, from_name(), from), find_tag(b, to_name(), from)) {
        (None, None) => Some(None),
        (Some((fi, fk)), Some((ti, tk))) => match (
            coordinate_at(b, fi, fk),
            coordinate_at(b, ti, tk),
        ) {
            (Some(a), Some(c)) => Some(Some(Move { from: a, to: c })),
            _ => None,
        },
        _ => None,
    }
}

/// The kind that a `class` attribute names; `WelcomeMessage` where it names none.
pub open spec fn class_of(v: Option<Seq<u8>>) -> DataClass {
    match v {
        Some(x) => if x == momento_name() {
            DataClass::Memento
        } else if x == move_request_name() {
            DataClass::MoveRequest
        } else if x == move_name() {
            DataClass::Move
        } else if x == result_name() {
            DataClass::Result
        } else if x == error_name() {
            DataClass::Error
        } else {
            DataClass::WelcomeMessage
        },
        None => DataClass::WelcomeMessage,
    }
}

/// The message of an error packet: its `message` attribute, else the text of
/// its `message` child.
pub open spec fn error_message(b: Seq<u8>, i: int, k: int) -> Option<Seq<u8>> {
    match attr_bytes(b, i, k, message_name()) {
        Some(v) => Some(v),
        None => match find_tag(b, message_name(), k + 1) {
            Some((mi, mk)) => Some(inner_text(b, mi, mk)),
            None => None,
        },
    }
}

/// What a `room` frame whose first tag is `i`..=`k` decodes to.
pub open spec fn room_decodes(
    b: Seq<u8>,
    i: int,
    k: int,
    r: Option<Result<ProtocolPacket, ProtocolError>>,
) -> bool {
    match (room_id_in(b, i, k), find_tag(b, data_name(), k + 1)) {
        (Some(id), Some((di, dk))) => match move_after(b, dk + 1) {
            None => malformed(r),
            Some(mv) => r matches Some(Ok(ProtocolPacket::Room(room))) && room.room_id@
                == value_text(id) && room.data.class
                == class_of(attr_bytes(b, di, dk, class_name())) && opt_text_is(
                room.data.color,
                attr_bytes(b, di, dk, color_name()),
            ) && room.data._move == mv && room.data.state is None && room.data.definition is None
                && room.data.scores is None && room.data.winner is None,
        },
        _ => malformed(r),
    }
}

/// What an `errorpacket` frame whose first tag is `i`..=`k` decodes to.
pub open spec fn error_packet_decodes(
    b: Seq<u8>,
    i: int,
    k: int,
    r: Option<Result<ProtocolPacket, ProtocolError>>,
) -> bool {
    match (error_message(b, i, k), find_tag(b, original_request_name(), k + 1)) {
        (Some(m), Some((oi, ok))) => match (
            attr_bytes(b, oi, ok, class_name()),
            attr_bytes(b, oi, ok, reservation_code_name()),
        ) {
            (Some(c), Some(rc)) => r matches Some(Ok(ProtocolPacket::ErrorPacket(e)))
                && e.message@ == value_text(m) && e.original_request.class@ == value_text(c)
                && e.original_request.reservation_code@ == value_text(rc),
            _ => malformed(r),
        },
        _ => malformed(r),
    }
}

/// What the frame `b` decodes to: `None` where its first tag names no message.
pub open spec fn decodes(b: Seq<u8>, r: Option<Result<ProtocolPacket, ProtocolError>>) -> bool {
    match first_tag(b) {
        None => r is None,
        Some((i, k)) => if named(b, i, k, joined_name()) {
            match room_id_in(b, i, k) {
                Some(id) => r matches Some(Ok(ProtocolPacket::Joined(p))) && p.room_id@
                    == value_text(id),
                None => malformed(r),
            }
        } else if named(b, i, k, join_name()) {
            r == Some(Ok::<ProtocolPacket, ProtocolError>(ProtocolPacket::Join(Join {  })))
        } else if named(b, i, k, room_name()) {
            room_decodes(b, i, k, r)
        } else if named(b, i, k, left_name()) {
            match room_id_in(b, i, k) {
                Some(id) => r matches Some(Ok(ProtocolPacket::Left(p))) && p.room_id@
                    == value_text(id),
                None => malformed(r),
            }
        } else if named(b, i, k, join_prepared_name()) {
            match attr_bytes(b, i, k, reservation_code_name()) {
                Some(c) => r matches Some(Ok(ProtocolPacket::JoinPrepared(p)))
                    && p.reservation_code@ == value_text(c),
                None => malformed(r),
            }
        } else if named(b, i, k, errorpacket_name()) {
            error_packet_decodes(b, i, k, r)
        } else if named(b, i, k, close_name()) {
            r == Some(Ok::<ProtocolPacket, ProtocolError>(ProtocolPacket::Close(Close {  })))
        } else {
            r is None
        },
    }
}

/// The text of attribute `key` of the tag `i`..=`k`, if it has that attribute.
fn attr_opt_text(b: &[u8], i: usize, k: usize, key: &[u8]) -> (r: Option<String>)
    requires
        i < k < b@.len(),
    ensures
        opt_text_is(r, attr_bytes(b@, i as int, k as int, key@)),
{
    proof {
        lemma_attr_span_bounds(b@, i as int, k as int, key@);
    }
    match attr_span_of(b, i, k, key) {
        Some((s, e)) => Some(text_of_range(b, s, e)),
        None => None,
    }
}

/// The room id in the tag `i`..=`k`.
fn room_id_at(b: &[u8], i: usize, k: usize) -> (r: Option<String>)
    requires
        i < k < b@.len(),
    ensures
        opt_text_is(r, room_id_in(b@, i as int, k as int)),
{
    proof {
        lemma_attr_span_bounds(b@, i as int, k as int, room_id_name());
    }
    match attr_span_of(b, i, k, room_id_bytes().as_slice()) {
        Some((s, e)) => if s < e {
            Some(text_of_range(b, s, e))
        } else {
            None
        },
        None => None,
    }
}

/// The `i32` held by attribute `key` of the tag `i`..=`k`.
fn attr_i32(b: &[u8], i: usize, k: usize, key: &[u8]) -> (r: Option<i32>)
    requires
        i < k < b@.len(),
    ensures
        r == match attr_int(b@, i as int, k as int, key@) {
            Some(n) => Some(n as i32),
            None => None::<i32>,
        },
{
    proof {
        lemma_attr_span_bounds(b@, i as int, k as int, key@);
    }
    match attr_span_of(b, i, k, key) {
        Some((s, e)) => int_of(b, s, e),
        None => None,
    }
}

/// The coordinate that the tag `i`..=`k` gives.
fn coordinate_of(b: &[u8], i: usize, k: usize) -> (r: Option<Coordinate>)
    requires
        i < k < b@.len(),
    ensures
        r == coordinate_at(b@, i as int, k as int),
        r matches Some(c) ==> c.is_valid(),
{
    let q = attr_i32(b, i, k, q_bytes().as_slice());
    let r = attr_i32(b, i, k, r_bytes().as_slice());
    let s = attr_i32(b, i, k, s_bytes().as_slice());
    match (q, r, s) {
        (Some(q), Some(r), Some(s)) => Coordinate::new(q, r, s),
        _ => None,
    }
}

/// The move given by the first `from` and `to` tags at or after `from`.
fn move_of(b: &[u8], from: usize) -> (r: Option<Option<Move>>)
    ensures
        r == move_after(b@, from as int),
        r matches Some(Some(m)) ==> m.is_valid(),
{
    let _n: usize = b.len();
    proof {
        lemma_find_tag_bounds(b@, from_name(), from as int);
        lemma_find_tag_bounds(b@, to_name(), from as int);
    }
    let f = find_tag_from(b, from_bytes().as_slice(), from);
    let t = find_tag_from(b, to_bytes().as_slice(), from);
    match (f, t) {
        (None, None) => Some(None),
        (Some((fi, fk)), Some((ti, tk))) => match (coordinate_of(b, fi, fk), coordinate_of(b, ti, tk)) {
            (Some(a), Some(c)) => Some(Some(Move { from: a, to: c })),
            _ => None,
        },
        _ => None,
    }
}

/// Whether the bytes `s..e` of `b` are `word`.
fn bytes_are(b: &[u8], s: usize, e: usize, word: &[u8]) -> (r: bool)
    requires
        s <= e <= b@.len(),
    ensures
        r == (b@.subrange(s as int, e as int) == word@),
{
    if e - s != word.len() {
        return false;
    }
    matches_at(b, word, s)
}

/// The kind named by the `class` attribute of the tag `i`..=`k`.
fn class_at(b: &[u8], i: usize, k: usize) -> (r: DataClass)
    requires
        i < k < b@.len(),
    ensures
        r == class_of(attr_bytes(b@, i as int, k as int, class_name())),
{
    proof {
        lemma_attr_span_bounds(b@, i as int, k as int, class_name());
    }
    match attr_span_of(b, i, k, class_bytes().as_slice()) {
        None => DataClass::WelcomeMessage,
        Some((s, e)) => {
            if bytes_are(b, s, e, momento_bytes().as_slice()) {
                DataClass::Memento
            } else if bytes_are(b, s, e, move_request_bytes().as_slice()) {
                DataClass::MoveRequest
            } else if bytes_are(b, s, e, move_bytes().as_slice()) {
                DataClass::Move
            } else if bytes_are(b, s, e, result_bytes().as_slice()) {
                DataClass::Result
            } else if bytes_are(b, s, e, error_bytes().as_slice()) {
                DataClass::Error
            } else {
                DataClass::WelcomeMessage
            }
        },
    }
}

/// The message of the error packet whose first tag is `i`..=`k`.
fn error_message_of(b: &[u8], i: usize, k: usize) -> (r: Option<String>)
    requires
        i < k < b@.len(),
    ensures
        opt_text_is(r, error_message(b@, i as int, k as int)),
{
    let _n: usize = b.len();
    match attr_opt_text(b, i, k, message_bytes().as_slice()) {
        Some(t) => Some(t),
        None => {
            proof {
                lemma_find_tag_bounds(b@, message_name(), k + 1);
            }
            match find_tag_from(b, message_bytes().as_slice(), k + 1) {
                None => None,
                Some((mi, mk)) => {
                    if b[mk - 1] == SLASH {
                        proof {
                            assert(inner_text(b@, mi as int, mk as int) =~= Seq::<u8>::empty());
                            assert(b@.subrange(mk as int, mk as int) =~= inner_text(
                                b@,
                                mi as int,
                                mk as int,
                            ));
                        }
                        Some(text_of_range(b, mk, mk))
                    } else {
                        proof {
                            lemma_find_bounds(b@, seq![LT], mk + 1);
                        }
                        let end: usize = match find_byte(b, LT, mk + 1) {
                            Some(e) => e,
                            None => b.len(),
                        };
                        Some(text_of_range(b, mk + 1, end))
                    }
                },
            }
        },
    }
}

/// The packet that a `room` frame whose first tag is `i`..=`k` holds.
fn decode_room(b: &[u8], i: usize, k: usize) -> (r: Option<Result<ProtocolPacket, ProtocolError>>)
    requires
        i < k < b@.len(),
    ensures
        room_decodes(b@, i as int, k as int, r),
{
    let _n: usize = b.len();
    proof {
        lemma_find_tag_bounds(b@, data_name(), k + 1);
    }
    let room_id = match room_id_at(b, i, k) {
        Some(id) => id,
        None => {
            return Some(Err(ProtocolError::ParseError));
        },
    };
    match find_tag_from(b, data_bytes().as_slice(), k + 1) {
        None => Some(Err(ProtocolError::ParseError)),
        Some((di, dk)) => match move_of(b, dk + 1) {
            None => Some(Err(ProtocolError::ParseError)),
            Some(mv) => {
                let data = Data {
                    class: class_at(b, di, dk),
                    color: attr_opt_text(b, di, dk, color_bytes().as_slice()),
                    state: None,
                    _move: mv,
                    definition: None,
                    scores: None,
                    winner: None,
                };
                Some(Ok(ProtocolPacket::Room(Room { room_id, data })))
            },
        },
    }
}

/// The packet that an `errorpacket` frame whose first tag is `i`..=`k` holds.
fn decode_error_packet(b: &[u8], i: usize, k: usize) -> (r: Option<Result<ProtocolPacket, ProtocolError>>)
    requires
        i < k < b@.len(),
    ensures
        error_packet_decodes(b@, i as int, k as int, r),
{
    let _n: usize = b.len();
    let message = match error_message_of(b, i, k) {
        Some(m) => m,
        None => {
            return Some(Err(ProtocolError::ParseError));
        },
    };
    proof {
        lemma_find_tag_bounds(b@, original_request_name(), k + 1);
    }
    match find_tag_from(b, original_request_bytes().as_slice(), k + 1) {
        Some((oi, ok)) => {
            let class = attr_opt_text(b, oi, ok, class_bytes().as_slice());
            let code = attr_opt_text(b, oi, ok, reservation_code_bytes().as_slice());
            match (class, code) {
                (Some(class), Some(reservation_code)) => {
                    let original_request = OriginalRequest { class, reservation_code };
                    Some(Ok(ProtocolPacket::ErrorPacket(ErrorPacket { message, original_request })))
                },
                _ => Some(Err(ProtocolError::ParseError)),
            }
        },
        None => Some(Err(ProtocolError::ParseError)),
    }
}

/// The message that a frame holds, or `None` where its first tag names none.
pub fn decode_frame(b: &[u8]) -> (r: Option<Result<ProtocolPacket, ProtocolError>>)
    ensures
        decodes(b@, r),
        r matches Some(Ok(ProtocolPacket::Room(room))) ==> room.data._move matches Some(m)
            ==> m.is_valid(),
{
    let _n: usize = b.len();
    proof {
        lemma_first_tag_bounds(b@);
    }
    match first_tag_of(b) {
        None => None,
        Some((i, k)) => {
            if is_named(b, i, k, joined_bytes().as_slice()) {
                match room_id_at(b, i, k) {
                    Some(room_id) => Some(Ok(ProtocolPacket::Joined(Joined { room_id }))),
                    None => Some(Err(ProtocolError::ParseError)),
                }
            } else if is_named(b, i, k, join_bytes().as_slice()) {
                Some(Ok(ProtocolPacket::Join(Join {  })))
            } else if is_named(b, i, k, room_bytes().as_slice()) {
                decode_room(b, i, k)
            } else if is_named(b, i, k, left_bytes().as_slice()) {
                match room_id_at(b, i, k) {
                    Some(room_id) => Some(Ok(ProtocolPacket::Left(Left { room_id }))),
                    None => Some(Err(ProtocolError::ParseError)),
                }
            } else if is_named(b, i, k, join_prepared_bytes().as_slice()) {
                match attr_opt_text(b, i, k, reservation_code_bytes().as_slice()) {
                    Some(reservation_code) => Some(
                        Ok(ProtocolPacket::JoinPrepared(JoinPrepared { reservation_code })),
                    ),
                    None => Some(Err(ProtocolError::ParseError)),
                }
            } else if is_named(b, i, k, errorpacket_bytes().as_slice()) {
                decode_error_packet(b, i, k)
            } else if is_named(b, i, k, close_bytes().as_slice()) {
                Some(Ok(ProtocolPacket::Close(Close {  })))
            } else {
                None
            }
        },
    }
}

} // verus!

verus! {

/// Whether the first tag of `b` names one of the messages.
pub open spec fn names_message(b: Seq<u8>) -> bool {
    match first_tag(b) {
        None => false,
        Some((i, k)) => named(b, i, k, joined_name()) || named(b, i, k, join_name()) || named(
            b,
            i,
            k,
            room_name(),
        ) || named(b, i, k, left_name()) || named(b, i, k, join_prepared_name()) || named(
            b,
            i,
            k,
            errorpacket_name(),
        ) || named(b, i, k, close_name()),
    }
}

impl ProtocolPacket {
    /// Reads the text of one frame as a message.
    pub fn parse(xml_str: &str) -> (r: Result<ProtocolPacket, ProtocolError>)
        ensures
            names_message(xml_str.spec_bytes()) ==> decodes(xml_str.spec_bytes(), Some(r)),
            !names_message(xml_str.spec_bytes()) ==> (r matches Err(
                ProtocolError::InvalidPacket(t),
            ) && t@ == xml_str@),
            r matches Ok(ProtocolPacket::Room(room)) ==> room.data._move matches Some(m)
                ==> m.is_valid(),
    {
        match decode_frame(xml_str.as_bytes()) {
            Some(r) => r,
            None => Err(ProtocolError::InvalidPacket(xml_str.to_owned())),
        }
    }

    /// Reads the bytes of one frame as a message. Bytes that are not UTF-8
    /// are malformed.
    pub fn parse_frame(frame: &[u8]) -> (r: Result<ProtocolPacket, ProtocolError>)
        ensures
            !valid_utf8(frame@) ==> r == Err::<ProtocolPacket, ProtocolError>(
                ProtocolError::ParseError,
            ),
            valid_utf8(frame@) && names_message(frame@) ==> decodes(frame@, Some(r)),
            valid_utf8(frame@) && !names_message(frame@) ==> (r matches Err(
                ProtocolError::InvalidPacket(t),
            ) && t@ == decode_utf8(frame@)),
            r matches Ok(ProtocolPacket::Room(room)) ==> room.data._move matches Some(m)
                ==> m.is_valid(),
    {
        if !is_utf8(frame) {
            return Err(ProtocolError::ParseError);
        }
        match decode_frame(frame) {
            Some(r) => r,
            None => Err(ProtocolError::InvalidPacket(text_of(frame))),
        }
    }
}

/// A room message whose move leaves the plane `q + r + s == 0` is malformed.
pub proof fn lemma_off_plane_move_is_malformed(
    b: Seq<u8>,
    r: Option<Result<ProtocolPacket, ProtocolError>>,
    i: int,
    k: int,
    di: int,
    dk: int,
    fi: int,
    fk: int,
)
    requires
        decodes(b, r),
        first_tag(b) == Some((i, k)),
        named(b, i, k, room_name()),
        find_tag(b, data_name(), k + 1) == Some((di, dk)),
        find_tag(b, from_name(), dk + 1) == Some((fi, fk)),
        attr_int(b, fi, fk, q_name()) matches Some(q) && attr_int(b, fi, fk, r_name()) matches Some(
            rr,
        ) && attr_int(b, fi, fk, s_name()) matches Some(s) && q + rr + s != 0,
    ensures
        r == Some(Err::<ProtocolPacket, ProtocolError>(ProtocolError::ParseError)),
{
    lemma_first_tag_bounds(b);
    assert(!named(b, i, k, joined_name()) && !named(b, i, k, join_name())) by {
        assert(b.subrange(i + 1, i + 5) == room_name());
        assert(b[i + 1] == 114);
    }
    assert(coordinate_at(b, fi, fk) is None);
    assert(move_after(b, dk + 1) is None);
}

} // verus!
