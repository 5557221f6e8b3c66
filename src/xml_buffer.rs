//! The frame assembler: it gathers the bytes of the stream and cuts complete
//! protocol elements out of them, in the order in which they arrived.
//!
//! A frame starts at a `<`. A self-closing tag (`<tag .../>`) is a frame by
//! itself. A `room` or `errorpacket` start tag opens a frame that runs to the
//! nearest following end tag of the same name; an element of the same name
//! nested inside such a frame is not supported. Any other tag (the `<protocol>`
//! opening tag, an XML declaration, a stray end tag) is skipped, as are the
//! bytes between frames.
use vstd::prelude::*;
use crate::names::{errorpacket_bytes, errorpacket_name, room_bytes, room_name};
use crate::text::{
    find_byte, find_from, find_pattern, is_space, is_space_byte, lemma_find_bounds, lemma_find_first,
    lemma_find_take, matches_at, occurs_at, GT, LT, SLASH,
};

verus! {

/// The end tag `</name>`.
pub open spec fn end_tag(name: Seq<u8>) -> Seq<u8> {
    seq![LT, SLASH] + name + seq![GT]
}

/// Whether the tag opened by the `<` at `i` and closed by the `>` at `k` carries `name`.
pub open spec fn tag_named(b: Seq<u8>, i: int, k: int, name: Seq<u8>) -> bool {
    let e = i + 1 + name.len();
    e <= k && b.subrange(i + 1, e) == name && (e == k || is_space(b[e]))
}

/// The name of the element that the tag at `i`..=`k` opens, where it is one that holds children.
pub open spec fn composite_name(b: Seq<u8>, i: int, k: int) -> Option<Seq<u8>> {
    if tag_named(b, i, k, room_name()) {
        Some(room_name())
    } else if tag_named(b, i, k, errorpacket_name()) {
        Some(errorpacket_name())
    } else {
        None
    }
}

/// The span (start, end) of the first complete frame at or after `i`, if the
/// bytes hold one.
pub open spec fn scan(b: Seq<u8>, i: int) -> Option<(int, int)>
    decreases b.len() + 1 - i,
    via scan_decreases
{
    if i < 0 || i >= b.len() {
        None
    } else if b[i] != LT {
        scan(b, i + 1)
    } else {
        match find_from(b, seq![GT], i + 1) {
            None => None,
            Some(k) => if b[k - 1] == SLASH {
                Some((i, k + 1))
            } else {
                match composite_name(b, i, k) {
                    Some(name) => match find_from(b, end_tag(name), k + 1) {
                        Some(j) => Some((i, j + end_tag(name).len())),
                        None => None,
                    },
                    None => scan(b, k + 1),
                }
            },
        }
    }
}

#[via_fn]
proof fn scan_decreases(b: Seq<u8>, i: int) {
    lemma_find_bounds(b, seq![GT], i + 1);
}

/// The span of the first complete frame in the buffered bytes.
pub open spec fn next_frame(b: Seq<u8>) -> Option<(int, int)> {
    scan(b, 0)
}

/// A frame: bytes that the assembler delivers whole, as one frame, when they are all it holds.
pub open spec fn is_frame(f: Seq<u8>) -> bool {
    next_frame(f) == Some((0int, f.len() as int))
}

/// What a scan of the first `n` bytes finds, given what a scan of all of them finds.
pub open spec fn cut(r: Option<(int, int)>, n: int) -> Option<(int, int)> {
    match r {
        Some((s, e)) => if e <= n {
            Some((s, e))
        } else {
            None
        },
        None => None,
    }
}

pub proof fn lemma_scan_bounds(b: Seq<u8>, i: int)
    ensures
        match scan(b, i) {
            Some((s, e)) => i <= s < e <= b.len(),
            None => true,
        },
    decreases b.len() + 1 - i,
{
    if 0 <= i < b.len() {
        if b[i] != LT {
            lemma_scan_bounds(b, i + 1);
        } else {
            lemma_find_bounds(b, seq![GT], i + 1);
            match find_from(b, seq![GT], i + 1) {
                None => {},
                Some(k) => {
                    if b[k - 1] != SLASH {
                        match composite_name(b, i, k) {
                            Some(name) => lemma_find_bounds(b, end_tag(name), k + 1),
                            None => lemma_scan_bounds(b, k + 1),
                        }
                    }
                },
            }
        }
    }
}

/// The assembler reads no further than the frame it delivers: scanning a prefix
/// finds the same frame when the prefix holds all of it, and nothing otherwise.
pub proof fn lemma_scan_take(b: Seq<u8>, i: int, n: int)
    requires
        0 <= n <= b.len(),
        0 <= i,
    ensures
        scan(b.take(n), i) == cut(scan(b, i), n),
    decreases b.len() + 1 - i,
{
    lemma_scan_bounds(b, i);
    if i < n {
        let t = b.take(n);
        assert(t[i] == b[i]);
        if b[i] != LT {
            lemma_scan_take(b, i + 1, n);
        } else {
            lemma_find_take(b, seq![GT], i + 1, n);
            lemma_find_bounds(b, seq![GT], i + 1);
            match find_from(b, seq![GT], i + 1) {
                None => {},
                Some(k) => {
                    if k + 1 <= n {
                        assert(t[k - 1] == b[k - 1]);
                        if b[k - 1] != SLASH {
                            assert(t.subrange(i + 1, k) == b.subrange(i + 1, k));
                            assert(composite_name(t, i, k) == composite_name(b, i, k)) by {
                                if i + 1 + room_name().len() <= k {
                                    assert(t.subrange(i + 1, i + 1 + room_name().len())
                                        == b.subrange(i + 1, i + 1 + room_name().len()));
                                }
                                if i + 1 + errorpacket_name().len() <= k {
                                    assert(t.subrange(i + 1, i + 1 + errorpacket_name().len())
                                        == b.subrange(i + 1, i + 1 + errorpacket_name().len()));
                                }
                            }
                            match composite_name(b, i, k) {
                                Some(name) => {
                                    lemma_find_take(b, end_tag(name), k + 1, n);
                                    lemma_find_bounds(b, end_tag(name), k + 1);
                                },
                                None => {
                                    lemma_scan_take(b, k + 1, n);
                                },
                            }
                        }
                    } else {
                        if b[k - 1] != SLASH {
                            match composite_name(b, i, k) {
                                Some(name) => lemma_find_bounds(b, end_tag(name), k + 1),
                                None => lemma_scan_bounds(b, k + 1),
                            }
                        }
                    }
                },
            }
        }
    }
}

/// The bytes of a run of frames sent back to back.
pub open spec fn concat(fs: Seq<Seq<u8>>) -> Seq<u8>
    decreases fs.len(),
{
    if fs.len() == 0 {
        Seq::empty()
    } else {
        fs[0] + concat(fs.drop_first())
    }
}

/// A frame at the head of the buffer is delivered as soon as all of its bytes
/// are there, and not before; what follows it stays.
pub proof fn lemma_frame_delivery(f: Seq<u8>, rest: Seq<u8>, n: int)
    requires
        is_frame(f),
        0 <= n <= f.len() + rest.len(),
    ensures
        next_frame((f + rest).take(n)) == if n >= f.len() {
            Some((0int, f.len() as int))
        } else {
            None
        },
{
    let b = f + rest;
    assert(b.take(f.len() as int) == f);
    lemma_scan_take(b, 0, f.len() as int);
    lemma_scan_bounds(b, 0);
    lemma_scan_take(b, 0, n);
}

/// Frames sent back to back come out one at a time and in order, however the
/// stream was cut into pieces: with any prefix of their bytes buffered, the
/// first frame is delivered exactly when all of it has arrived, and what is
/// left is a prefix of the bytes of the frames after it.
pub proof fn lemma_frames_in_order(fs: Seq<Seq<u8>>, n: int)
    requires
        fs.len() > 0,
        forall|i: int| 0 <= i < fs.len() ==> is_frame(#[trigger] fs[i]),
        0 <= n <= concat(fs).len(),
    ensures
        next_frame(concat(fs).take(n)) == if n >= fs[0].len() {
            Some((0int, fs[0].len() as int))
        } else {
            None
        },
        n >= fs[0].len() ==> concat(fs).take(n).subrange(fs[0].len() as int, n) == concat(
            fs.drop_first(),
        ).take(n - fs[0].len()),
{
    assert(is_frame(fs[0]));
    lemma_frame_delivery(fs[0], concat(fs.drop_first()), n);
    if n >= fs[0].len() {
        assert(concat(fs).take(n).subrange(fs[0].len() as int, n) =~= concat(
            fs.drop_first(),
        ).take(n - fs[0].len()));
    }
}

/// A frame that has only partly arrived is not delivered; once the rest of it
/// arrives, it is delivered whole.
pub proof fn lemma_partial_frame(f: Seq<u8>, n: int)
    requires
        is_frame(f),
        0 <= n < f.len(),
    ensures
        next_frame(f.take(n)) == None::<(int, int)>,
        next_frame(f.take(n) + f.skip(n)) == Some((0int, f.len() as int)),
{
    lemma_frame_delivery(f, Seq::empty(), n);
    assert(f + Seq::<u8>::empty() == f);
    assert(f.take(n) + f.skip(n) == f);
}

/// A self-closing element `<tag .../>`: no `>` stands before its end.
pub open spec fn is_leaf_element(f: Seq<u8>) -> bool {
    f.len() >= 2 && f[0] == LT && f[f.len() - 1] == GT && f[f.len() - 2] == SLASH && forall|t: int|
        1 <= t < f.len() - 1 ==> f[t] != GT
}

/// A `room` or `errorpacket` element: its start tag, which ends with the
/// first `>` at `k` and is not self-closing, its content, and its end tag.
/// The content holds no end tag of the same name.
pub open spec fn is_composite_element(f: Seq<u8>, name: Seq<u8>, k: int) -> bool {
    let close = end_tag(name);
    (name == room_name() || name == errorpacket_name()) && 1 <= k && k + 1 + close.len()
        <= f.len() && f[0] == LT && f[k] == GT && f[k - 1] != SLASH && (forall|t: int|
        1 <= t < k ==> f[t] != GT) && tag_named(f, 0, k, name) && occurs_at(
        f,
        close,
        f.len() - close.len(),
    ) && forall|t: int| k + 1 <= t < f.len() - close.len() ==> !occurs_at(f, close, t)
}

/// One complete element as the server sends it.
pub open spec fn is_element(f: Seq<u8>) -> bool {
    is_leaf_element(f) || exists|name: Seq<u8>, k: int| is_composite_element(f, name, k)
}

proof fn lemma_first_gt(f: Seq<u8>, k: int)
    requires
        1 <= k < f.len(),
        f[k] == GT,
        forall|t: int| 1 <= t < k ==> f[t] != GT,
    ensures
        find_from(f, seq![GT], 1) == Some(k),
{
    assert forall|t: int| 1 <= t < k implies !occurs_at(f, seq![GT], t) by {
        if occurs_at(f, seq![GT], t) {
            assert(f.subrange(t, t + 1)[0] == f[t]);
        }
    }
    assert(f.subrange(k, k + 1) =~= seq![GT]);
    lemma_find_first(f, seq![GT], 1, k);
}

/// Every element is a frame: the assembler delivers it whole.
pub proof fn lemma_element_is_frame(f: Seq<u8>)
    requires
        is_element(f),
    ensures
        is_frame(f),
{
    if is_leaf_element(f) {
        lemma_first_gt(f, f.len() - 1);
    } else {
        let (name, k) = choose|name: Seq<u8>, k: int| is_composite_element(f, name, k);
        let close = end_tag(name);
        lemma_first_gt(f, k);
        if name == errorpacket_name() {
            assert(!tag_named(f, 0, k, room_name())) by {
                if tag_named(f, 0, k, room_name()) {
                    assert(f.subrange(1, 5)[0] == f[1]);
                    assert(f.subrange(1, 12)[0] == f[1]);
                }
            }
        }
        assert(composite_name(f, 0, k) == Some(name));
        lemma_find_first(f, close, k + 1, f.len() - close.len());
    }
}

/// Elements sent back to back come out one at a time and in order, however
/// the stream was cut into pieces: with any prefix of their bytes buffered,
/// the first element is delivered exactly when all of it has arrived, and
/// what is left is a prefix of the bytes of the elements after it.
pub proof fn lemma_elements_in_order(fs: Seq<Seq<u8>>, n: int)
    requires
        fs.len() > 0,
        forall|i: int| 0 <= i < fs.len() ==> is_element(#[trigger] fs[i]),
        0 <= n <= concat(fs).len(),
    ensures
        next_frame(concat(fs).take(n)) == if n >= fs[0].len() {
            Some((0int, fs[0].len() as int))
        } else {
            None
        },
        n >= fs[0].len() ==> concat(fs).take(n).subrange(fs[0].len() as int, n) == concat(
            fs.drop_first(),
        ).take(n - fs[0].len()),
{
    assert forall|i: int| 0 <= i < fs.len() implies is_frame(#[trigger] fs[i]) by {
        lemma_element_is_frame(fs[i]);
    }
    lemma_frames_in_order(fs, n);
}

/// An element that has only partly arrived is not delivered; once the rest of
/// it arrives, it is delivered whole.
pub proof fn lemma_partial_element(f: Seq<u8>, n: int)
    requires
        is_element(f),
        0 <= n < f.len(),
    ensures
        next_frame(f.take(n)) == None::<(int, int)>,
        next_frame(f.take(n) + f.skip(n)) == Some((0int, f.len() as int)),
{
    lemma_element_is_frame(f);
    lemma_partial_frame(f, n);
}

/// What extracting frames from `b` until none is complete yields: the frames,
/// in order, and the bytes left in the buffer.
pub open spec fn drain(b: Seq<u8>) -> (Seq<Seq<u8>>, Seq<u8>)
    decreases b.len(),
    via drain_decreases
{
    match next_frame(b) {
        Some((s, e)) => {
            let rest = drain(b.subrange(e, b.len() as int));
            (seq![b.subrange(s, e)] + rest.0, rest.1)
        },
        None => (Seq::empty(), b),
    }
}

#[via_fn]
proof fn drain_decreases(b: Seq<u8>) {
    lemma_scan_bounds(b, 0);
}

/// How many of the elements `fs` lie whole within the first `n` bytes of
/// their concatenation.
pub open spec fn complete_count(fs: Seq<Seq<u8>>, n: int) -> nat
    decreases fs.len(),
{
    if fs.len() > 0 && fs[0].len() <= n {
        1 + complete_count(fs.drop_first(), n - fs[0].len())
    } else {
        0
    }
}

proof fn lemma_complete_count_bound(fs: Seq<Seq<u8>>, n: int)
    ensures
        complete_count(fs, n) <= fs.len(),
    decreases fs.len(),
{
    if fs.len() > 0 && fs[0].len() <= n {
        lemma_complete_count_bound(fs.drop_first(), n - fs[0].len());
    }
}

/// Whatever prefix of a run of elements has arrived, extracting until no
/// frame is complete yields exactly the elements that arrived whole, in
/// order, and leaves the bytes of the next one that has begun. What a buffer
/// delivers thus depends only on the bytes, not on how they were cut.
pub proof fn lemma_drain_elements(fs: Seq<Seq<u8>>, n: int)
    requires
        forall|i: int| 0 <= i < fs.len() ==> is_element(#[trigger] fs[i]),
        0 <= n <= concat(fs).len(),
    ensures
        drain(concat(fs).take(n)) == (
            fs.take(complete_count(fs, n) as int),
            concat(fs.skip(complete_count(fs, n) as int)).take(
                n - concat(fs.take(complete_count(fs, n) as int)).len(),
            ),
        ),
    decreases fs.len(),
{
    let b = concat(fs).take(n);
    let j = complete_count(fs, n) as int;
    if fs.len() == 0 {
        assert(b =~= Seq::<u8>::empty());
        assert(fs.take(0) =~= fs);
        assert(fs.skip(0) =~= fs);
    } else {
        lemma_elements_in_order(fs, n);
        let f0 = fs[0];
        let rest = fs.drop_first();
        if n < f0.len() {
            assert(fs.take(0) =~= Seq::<Seq<u8>>::empty());
            assert(fs.skip(0) =~= fs);
            assert(concat(Seq::<Seq<u8>>::empty()) == Seq::<u8>::empty());
        } else {
            assert(forall|i: int| 0 <= i < rest.len() ==> #[trigger] rest[i] == fs[i + 1]);
            assert(concat(fs) == f0 + concat(rest));
            lemma_drain_elements(rest, n - f0.len());
            let j1 = complete_count(rest, n - f0.len()) as int;
            lemma_complete_count_bound(rest, n - f0.len());
            assert(j == 1 + j1);
            assert(b.subrange(0, f0.len() as int) =~= f0);
            assert(fs.take(j) =~= seq![f0] + rest.take(j1));
            assert(fs.skip(j) =~= rest.skip(j1));
            assert(fs.take(j)[0] == f0);
            assert(fs.take(j).drop_first() =~= rest.take(j1));
            assert(concat(fs.take(j)) == f0 + concat(rest.take(j1)));
        }
    }
}

/// The span of the first complete frame in `b`.
pub fn first_frame(b: &[u8]) -> (r: Option<(usize, usize)>)
    ensures
        r == match next_frame(b@) {
            Some((s, e)) => Some((s as usize, e as usize)),
            None => None::<(usize, usize)>,
        },
{
    let n: usize = b.len();
    let room: Vec<u8> = room_bytes();
    let errorpacket: Vec<u8> = errorpacket_bytes();
    let mut i: usize = 0;
    while i < n
        invariant
            n == b@.len(),
            i <= n,
            room@ == room_name(),
            errorpacket@ == errorpacket_name(),
            scan(b@, 0) == scan(b@, i as int),
        decreases n - i,
    {
        if b[i] != LT {
            i += 1;
        } else {
            proof {
                lemma_find_bounds(b@, seq![GT], i + 1);
            }
            match find_byte(b, GT, i + 1) {
                None => {
                    return None;
                },
                Some(k) => {
                    if b[k - 1] == SLASH {
                        return Some((i, k + 1));
                    }
                    let name: Option<&Vec<u8>> = if tag_has_name(b, i, k, &room) {
                        Some(&room)
                    } else if tag_has_name(b, i, k, &errorpacket) {
                        Some(&errorpacket)
                    } else {
                        None
                    };
                    match name {
                        Some(nm) => {
                            let mut close: Vec<u8> = vec![LT, SLASH];
                            let mut m: usize = 0;
                            while m < nm.len()
                                invariant
                                    m <= nm@.len(),
                                    close@ == seq![LT, SLASH] + nm@.subrange(0, m as int),
                                decreases nm@.len() - m,
                            {
                                close.push(nm[m]);
                                m += 1;
                                assert(close@ =~= seq![LT, SLASH] + nm@.subrange(0, m as int));
                            }
                            close.push(GT);
                            assert(close@ =~= end_tag(nm@));
                            proof {
                                lemma_find_bounds(b@, end_tag(nm@), k + 1);
                            }
                            match find_pattern(b, close.as_slice(), k + 1) {
                                Some(j) => {
                                    return Some((i, j + close.len()));
                                },
                                None => {
                                    return None;
                                },
                            }
                        },
                        None => {
                            i = k + 1;
                        },
                    }
                },
            }
        }
    }
    None
}

/// Whether the tag opened by the `<` at `i` and closed by the `>` at `k` carries `name`.
fn tag_has_name(b: &[u8], i: usize, k: usize, name: &Vec<u8>) -> (r: bool)
    requires
        i < k < b@.len(),
    ensures
        r == tag_named(b@, i as int, k as int, name@),
{
    if name.len() > k - i - 1 {
        return false;
    }
    let e: usize = i + 1 + name.len();
    if !matches_at(b, name.as_slice(), i + 1) {
        return false;
    }
    e == k || is_space_byte(b[e])
}

/// Accumulates the bytes of the stream until they hold complete frames.
pub struct XmlBuffer {
    buffer: Vec<u8>,
}

impl View for XmlBuffer {
    type V = Seq<u8>;

    closed spec fn view(&self) -> Seq<u8> {
        self.buffer@
    }
}

impl XmlBuffer {
    /// An empty buffer.
    pub fn new() -> (r: Self)
        ensures
            r@ == Seq::<u8>::empty(),
    {
        XmlBuffer { buffer: Vec::new() }
    }

    /// Appends bytes that arrived on the stream.
    pub fn push(&mut self, bytes: &[u8])
        ensures
            final(self)@ == old(self)@ + bytes@,
    {
        let mut i: usize = 0;
        while i < bytes.len()
            invariant
                i <= bytes@.len(),
                self@ == old(self)@ + bytes@.subrange(0, i as int),
            decreases bytes@.len() - i,
        {
            self.buffer.push(bytes[i]);
            i += 1;
            assert(self@ =~= old(self)@ + bytes@.subrange(0, i as int));
        }
        assert(bytes@.subrange(0, bytes@.len() as int) =~= bytes@);
    }

    /// Removes the first complete frame, with the bytes before it, and returns
    /// the frame; returns `None`, and keeps every byte, when no frame is complete.
    pub fn pop_xml(&mut self) -> (r: Option<Vec<u8>>)
        ensures
            match next_frame(old(self)@) {
                Some((s, e)) => r is Some && r->0@ == old(self)@.subrange(s, e) && final(self)@
                    == old(self)@.subrange(e, old(self)@.len() as int),
                None => r is None && final(self)@ == old(self)@,
            },
    {
        let ghost before = self.buffer@;
        let _len: usize = self.buffer.len();
        proof {
            lemma_scan_bounds(before, 0);
        }
        match first_frame(self.buffer.as_slice()) {
            None => None,
            Some((s, e)) => {
                assert(next_frame(before) == Some((s as int, e as int)));
                let rest: Vec<u8> = self.buffer.split_off(e);
                let frame: Vec<u8> = self.buffer.split_off(s);
                self.buffer = rest;
                assert(frame@ =~= before.subrange(s as int, e as int));
                Some(frame)
            },
        }
    }
}

} // verus!
