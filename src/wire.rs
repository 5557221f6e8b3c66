//! What the client writes to the server, as bytes. Attribute values are
//! written with `&`, `"`, `<` and `>` as entities.
use vstd::prelude::*;
use vstd::string::StringSliceAdditionalSpecFns;
use vstd::utf8::encode_utf8;
use crate::names::{
    amp_entity, amp_entity_bytes, gt_entity, gt_entity_bytes, lt_entity, lt_entity_bytes,
    quot_entity, quot_entity_bytes,
    class_bytes, class_name, data_bytes, data_name, from_bytes, from_name, join_bytes, join_name,
    join_prepared_bytes, join_prepared_name, join_room_bytes, join_room_name, move_bytes,
    move_name, protocol_bytes, protocol_name, q_bytes, q_name, r_bytes, r_name,
    reservation_code_bytes, reservation_code_name, room_bytes, room_id_bytes, room_id_name,
    room_name, s_bytes, s_name, to_bytes, to_name,
};
use crate::protocol::{Coordinate, Move};
use crate::tags::{all_digits, digits_value, int_value};
use crate::text::{EQUALS, GT, LT, MINUS, QUOTE, SLASH};

verus! {

pub const SPACE: u8 = 32;

/// The decimal digits of `n`.
pub open spec fn digits_of(n: nat) -> Seq<u8>
    decreases n,
{
    if n < 10 {
        seq![(48 + n) as u8]
    } else {
        digits_of(n / 10) + seq![(48 + n % 10) as u8]
    }
}

proof fn lemma_digits_of(n: nat)
    ensures
        digits_of(n).len() > 0,
        all_digits(digits_of(n)),
        digits_value(digits_of(n)) == n,
    decreases n,
{
    let d = digits_of(n);
    if n < 10 {
        assert(d.drop_last() =~= Seq::<u8>::empty());
        assert(d.last() as int == 48 + n);
        assert(digits_value(d.drop_last()) == 0);
        assert(digits_value(d) == digits_value(d.drop_last()) * 10 + (d.last() - 48));
    } else {
        lemma_digits_of(n / 10);
        assert(d.drop_last() =~= digits_of(n / 10));
        assert(0 <= n % 10 < 10);
        assert(d.last() as int == 48 + n % 10);
        assert(n == (n / 10) * 10 + n % 10) by (nonlinear_arith);
        assert(digits_value(d) == digits_value(d.drop_last()) * 10 + (d.last() - 48));
        assert(digits_value(d.drop_last()) == n / 10);
    }
}

/// `n` written in decimal, with a `-` when it is negative.
pub open spec fn decimal(n: int) -> Seq<u8> {
    if n < 0 {
        seq![MINUS] + digits_of((-n) as nat)
    } else {
        digits_of(n as nat)
    }
}

/// How a byte is written inside an attribute value.
pub open spec fn escaped_byte(c: u8) -> Seq<u8> {
    if c == 38 {
        amp_entity()
    } else if c == QUOTE {
        quot_entity()
    } else if c == LT {
        lt_entity()
    } else if c == GT {
        gt_entity()
    } else {
        seq![c]
    }
}

/// An attribute value with `&`, `"`, `<` and `>` written as entities.
pub open spec fn escape(v: Seq<u8>) -> Seq<u8>
    decreases v.len(),
{
    if v.len() == 0 {
        Seq::empty()
    } else {
        escape(v.drop_last()) + escaped_byte(v.last())
    }
}

/// ` key="value"`
pub open spec fn attribute(key: Seq<u8>, value: Seq<u8>) -> Seq<u8> {
    seq![SPACE] + key + seq![EQUALS, QUOTE] + value + seq![QUOTE]
}

/// `<name q=".." r=".." s=".."/>`
pub open spec fn coordinate_tag(name: Seq<u8>, c: Coordinate) -> Seq<u8> {
    seq![LT] + name + attribute(q_name(), decimal(c.q as int)) + attribute(
        r_name(),
        decimal(c.r as int),
    ) + attribute(s_name(), decimal(c.s as int)) + seq![SLASH, GT]
}

/// The answer that carries move `m` to room `room_id`:
/// `<room roomId=".."><data class="move"><from .../><to .../></data></room>`.
pub open spec fn move_answer_text(room_id: Seq<u8>, m: Move) -> Seq<u8> {
    seq![LT] + room_name() + attribute(room_id_name(), escape(room_id)) + seq![GT, LT] + data_name()
        + attribute(class_name(), move_name()) + seq![GT] + coordinate_tag(from_name(), m.from)
        + coordinate_tag(to_name(), m.to) + seq![LT, SLASH] + data_name() + seq![GT, LT, SLASH]
        + room_name() + seq![GT]
}

/// `<protocol><join/>`: the wrapper stays open for the rest of the connection.
pub open spec fn anonymous_join_text() -> Seq<u8> {
    seq![LT] + protocol_name() + seq![GT, LT] + join_name() + seq![SLASH, GT]
}

/// `<joinPrepared reservationCode=".."/>`: one element.
pub open spec fn reservation_join_text(code: Seq<u8>) -> Seq<u8> {
    seq![LT] + join_prepared_name() + attribute(
        reservation_code_name(),
        escape(code),
    ) + seq![SLASH, GT]
}

/// `<joinRoom roomId=".."/>`: one element. It names the room to join, where a
/// bare `join` would join any open game and drop the configured room.
pub open spec fn room_join_text(room_id: Seq<u8>) -> Seq<u8> {
    seq![LT] + join_room_name() + attribute(
        room_id_name(),
        escape(room_id),
    ) + seq![SLASH, GT]
}

/// The join request for the configured reservation code or room: a
/// reservation code comes first, then a room, else any open game. Only the
/// join of any open game opens the `protocol` wrapper, which stays open for
/// the rest of the connection.
pub open spec fn join_text(reservation_code: Option<String>, room_id: Option<String>) -> Seq<u8> {
    match reservation_code {
        Some(code) => reservation_join_text(encode_utf8(code@)),
        None => match room_id {
            Some(id) => room_join_text(encode_utf8(id@)),
            None => anonymous_join_text(),
        },
    }
}

/// A coordinate value that a move answer writes reads back as the same `i32`.
pub proof fn lemma_decimal_reads_back(n: int)
    requires
        i32::MIN <= n <= i32::MAX,
    ensures
        int_value(decimal(n)) == Some(n),
{
    if n < 0 {
        lemma_digits_of((-n) as nat);
        assert(decimal(n).drop_first() =~= digits_of((-n) as nat));
    } else {
        lemma_digits_of(n as nat);
        assert(decimal(n)[0] != MINUS);
    }
}

fn push_all(out: &mut Vec<u8>, s: &[u8])
    ensures
        final(out)@ == old(out)@ + s@,
{
    let mut i: usize = 0;
    while i < s.len()
        invariant
            i <= s@.len(),
            out@ == old(out)@ + s@.subrange(0, i as int),
        decreases s@.len() - i,
    {
        out.push(s[i]);
        i += 1;
        assert(out@ =~= old(out)@ + s@.subrange(0, i as int));
    }
    assert(s@.subrange(0, s@.len() as int) =~= s@);
}

fn push_digits(out: &mut Vec<u8>, n: u32)
    ensures
        final(out)@ == old(out)@ + digits_of(n as nat),
    decreases n,
{
    if n >= 10 {
        push_digits(out, n / 10);
    }
    out.push(48 + (n % 10) as u8);
    assert(out@ =~= old(out)@ + digits_of(n as nat));
}

fn push_decimal(out: &mut Vec<u8>, n: i32)
    ensures
        final(out)@ == old(out)@ + decimal(n as int),
{
    if n < 0 {
        out.push(MINUS);
        push_digits(out, (-(n as i64)) as u32);
        assert(out@ =~= old(out)@ + decimal(n as int));
    } else {
        push_digits(out, n as u32);
    }
}

fn push_attribute(out: &mut Vec<u8>, key: &[u8], value: &[u8])
    ensures
        final(out)@ == old(out)@ + attribute(key@, value@),
{
    out.push(SPACE);
    push_all(out, key);
    out.push(EQUALS);
    out.push(QUOTE);
    push_all(out, value);
    out.push(QUOTE);
    assert(out@ =~= old(out)@ + attribute(key@, value@));
}

fn push_escaped(out: &mut Vec<u8>, v: &[u8])
    ensures
        final(out)@ == old(out)@ + escape(v@),
{
    let amp = amp_entity_bytes();
    let quot = quot_entity_bytes();
    let lt = lt_entity_bytes();
    let gt = gt_entity_bytes();
    let mut i: usize = 0;
    while i < v.len()
        invariant
            i <= v@.len(),
            amp@ == amp_entity(),
            quot@ == quot_entity(),
            lt@ == lt_entity(),
            gt@ == gt_entity(),
            out@ == old(out)@ + escape(v@.take(i as int)),
        decreases v@.len() - i,
    {
        let c = v[i];
        if c == 38 {
            push_all(out, amp.as_slice());
        } else if c == QUOTE {
            push_all(out, quot.as_slice());
        } else if c == LT {
            push_all(out, lt.as_slice());
        } else if c == GT {
            push_all(out, gt.as_slice());
        } else {
            out.push(c);
        }
        assert(v@.take(i + 1).drop_last() =~= v@.take(i as int));
        i += 1;
        assert(out@ =~= old(out)@ + escape(v@.take(i as int)));
    }
    assert(v@.take(v@.len() as int) =~= v@);
}

fn push_escaped_attribute(out: &mut Vec<u8>, key: &[u8], value: &[u8])
    ensures
        final(out)@ == old(out)@ + attribute(key@, escape(value@)),
{
    let mut v: Vec<u8> = Vec::new();
    push_escaped(&mut v, value);
    assert(v@ =~= escape(value@));
    push_attribute(out, key, v.as_slice());
}

fn push_int_attribute(out: &mut Vec<u8>, key: &[u8], value: i32)
    ensures
        final(out)@ == old(out)@ + attribute(key@, decimal(value as int)),
{
    let mut v: Vec<u8> = Vec::new();
    push_decimal(&mut v, value);
    assert(v@ =~= decimal(value as int));
    push_attribute(out, key, v.as_slice());
}

fn push_coordinate(out: &mut Vec<u8>, name: &[u8], c: Coordinate)
    ensures
        final(out)@ == old(out)@ + coordinate_tag(name@, c),
{
    out.push(LT);
    push_all(out, name);
    push_int_attribute(out, q_bytes().as_slice(), c.q);
    push_int_attribute(out, r_bytes().as_slice(), c.r);
    push_int_attribute(out, s_bytes().as_slice(), c.s);
    out.push(SLASH);
    out.push(GT);
    assert(out@ =~= old(out)@ + coordinate_tag(name@, c));
}

/// The answer that carries move `m` to the room `room_id`.
pub fn move_answer(room_id: &str, m: &Move) -> (r: Vec<u8>)
    requires
        m.is_valid(),
    ensures
        r@ == move_answer_text(room_id.spec_bytes(), *m),
{
    let mut out: Vec<u8> = Vec::new();
    out.push(LT);
    push_all(&mut out, room_bytes().as_slice());
    push_escaped_attribute(&mut out, room_id_bytes().as_slice(), room_id.as_bytes());
    out.push(GT);
    out.push(LT);
    push_all(&mut out, data_bytes().as_slice());
    push_attribute(&mut out, class_bytes().as_slice(), move_bytes().as_slice());
    out.push(GT);
    push_coordinate(&mut out, from_bytes().as_slice(), m.from);
    push_coordinate(&mut out, to_bytes().as_slice(), m.to);
    out.push(LT);
    out.push(SLASH);
    push_all(&mut out, data_bytes().as_slice());
    out.push(GT);
    out.push(LT);
    out.push(SLASH);
    push_all(&mut out, room_bytes().as_slice());
    out.push(GT);
    assert(out@ =~= move_answer_text(room_id.spec_bytes(), *m));
    out
}

fn push_protocol_open(out: &mut Vec<u8>)
    ensures
        final(out)@ == old(out)@ + seq![LT] + protocol_name() + seq![GT, LT],
{
    out.push(LT);
    push_all(out, protocol_bytes().as_slice());
    out.push(GT);
    out.push(LT);
    assert(out@ =~= old(out)@ + seq![LT] + protocol_name() + seq![GT, LT]);
}

/// The request that joins a game: by reservation code where one is given, else
/// the given room, else any open game.
pub fn join_request(reservation_code: &Option<String>, room_id: &Option<String>) -> (r: Vec<u8>)
    ensures
        r@ == join_text(*reservation_code, *room_id),
{
    let mut out: Vec<u8> = Vec::new();
    match reservation_code {
        Some(code) => {
            out.push(LT);
            push_all(&mut out, join_prepared_bytes().as_slice());
            push_escaped_attribute(&mut out, reservation_code_bytes().as_slice(), code.as_str().as_bytes());
        },
        None => match room_id {
            Some(id) => {
                out.push(LT);
                push_all(&mut out, join_room_bytes().as_slice());
                push_escaped_attribute(&mut out, room_id_bytes().as_slice(), id.as_str().as_bytes());
            },
            None => {
                push_protocol_open(&mut out);
                push_all(&mut out, join_bytes().as_slice());
            },
        },
    }
    out.push(SLASH);
    out.push(GT);
    assert(out@ =~= join_text(*reservation_code, *room_id));
    out
}

} // verus!
