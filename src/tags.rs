//! Reading tags and their attributes out of the text of one frame.
//!
//! Attributes are read in the form the server writes them: `key="value"`,
//! preceded by whitespace, with a double-quoted value and no spaces around
//! `=`. A value in single quotes, or with spaces around `=`, is not found.
use vstd::prelude::*;
use crate::names::{
    amp_entity, amp_entity_bytes, apos_entity, apos_entity_bytes, gt_entity, gt_entity_bytes,
    lt_entity, lt_entity_bytes, quot_entity, quot_entity_bytes,
};
use crate::text::{find_byte, find_from, is_space, is_space_byte, lemma_find_bounds, matches_at, EQUALS, GT, LT, MINUS, PLUS, QUOTE, SLASH};

verus! {

/// Whether the tag opened by the `<` at `i` and closed by the `>` at `k` is named `name`.
pub open spec fn named(b: Seq<u8>, i: int, k: int, name: Seq<u8>) -> bool {
    let e = i + 1 + name.len();
    e <= k && b.subrange(i + 1, e) == name && (e == k || is_space(b[e]) || b[e] == SLASH)
}

/// The `<` and `>` of the first tag of `b`.
pub open spec fn first_tag(b: Seq<u8>) -> Option<(int, int)> {
    match find_from(b, seq![LT], 0) {
        None => None,
        Some(i) => match find_from(b, seq![GT], i + 1) {
            None => None,
            Some(k) => Some((i, k)),
        },
    }
}

/// The `<` and `>` of the first tag named `name` that starts at or after `from`.
pub open spec fn find_tag(b: Seq<u8>, name: Seq<u8>, from: int) -> Option<(int, int)>
    decreases b.len() + 1 - from,
{
    if from < 0 || from >= b.len() {
        None
    } else if b[from] != LT {
        find_tag(b, name, from + 1)
    } else {
        match find_from(b, seq![GT], from + 1) {
            None => None,
            Some(k) => if named(b, from, k, name) {
                Some((from, k))
            } else {
                find_tag(b, name, from + 1)
            },
        }
    }
}

/// The first position in `from..` where `pat` stands, ends by `k`, and follows whitespace.
pub open spec fn find_attr(b: Seq<u8>, pat: Seq<u8>, from: int, k: int) -> Option<int>
    decreases k + 1 - from,
{
    if from < 1 || from + pat.len() > k || k > b.len() {
        None
    } else if is_space(b[from - 1]) && b.subrange(from, from + pat.len()) == pat {
        Some(from)
    } else {
        find_attr(b, pat, from + 1, k)
    }
}

/// Where the value of attribute `key` of the tag `i`..=`k` lies: between the
/// quotes of the first `key="` in the tag that follows whitespace.
pub open spec fn attr_span(b: Seq<u8>, i: int, k: int, key: Seq<u8>) -> Option<(int, int)> {
    let pat = key + seq![EQUALS, QUOTE];
    match find_attr(b, pat, i + 1, k) {
        None => None,
        Some(j) => match find_from(b, seq![QUOTE], j + pat.len()) {
            Some(e) => if e < k {
                Some((j + pat.len(), e))
            } else {
                None
            },
            None => None,
        },
    }
}

/// The bytes of the value of attribute `key` of the tag `i`..=`k`.
pub open spec fn attr_bytes(b: Seq<u8>, i: int, k: int, key: Seq<u8>) -> Option<Seq<u8>> {
    match attr_span(b, i, k, key) {
        Some((s, e)) => Some(b.subrange(s, e)),
        None => None,
    }
}

/// The text of an element that the tag `i`..=`k` opens: up to the next `<`,
/// or the end; empty for a self-closing tag.
pub open spec fn inner_text(b: Seq<u8>, i: int, k: int) -> Seq<u8> {
    if b[k - 1] == SLASH {
        Seq::empty()
    } else {
        match find_from(b, seq![LT], k + 1) {
            Some(e) => b.subrange(k + 1, e),
            None => b.subrange(k + 1, b.len() as int),
        }
    }
}

pub open spec fn is_digit(c: u8) -> bool {
    48 <= c <= 57
}

pub open spec fn all_digits(d: Seq<u8>) -> bool {
    forall|m: int| 0 <= m < d.len() ==> is_digit(#[trigger] d[m])
}

/// The number that decimal digits write.
pub open spec fn digits_value(d: Seq<u8>) -> int
    decreases d.len(),
{
    if d.len() == 0 {
        0
    } else {
        digits_value(d.drop_last()) * 10 + (d.last() - 48)
    }
}

/// The `i32` that `v` writes: an optional `-` or `+`, then one or more decimal digits.
pub open spec fn int_value(v: Seq<u8>) -> Option<int> {
    let neg = v.len() > 0 && v[0] == MINUS;
    let signed = v.len() > 0 && (v[0] == MINUS || v[0] == PLUS);
    let d = if signed {
        v.drop_first()
    } else {
        v
    };
    let n = if neg {
        -digits_value(d)
    } else {
        digits_value(d)
    };
    if d.len() > 0 && all_digits(d) && i32::MIN <= n <= i32::MAX {
        Some(n)
    } else {
        None
    }
}

/// The `i32` that attribute `key` of the tag `i`..=`k` holds.
pub open spec fn attr_int(b: Seq<u8>, i: int, k: int, key: Seq<u8>) -> Option<int> {
    match attr_bytes(b, i, k, key) {
        Some(v) => int_value(v),
        None => None,
    }
}

pub proof fn lemma_find_tag_bounds(b: Seq<u8>, name: Seq<u8>, from: int)
    ensures
        find_tag(b, name, from) matches Some((i, k)) ==> from <= i < k < b.len() && b[i] == LT
            && b[k] == GT && named(b, i, k, name),
    decreases b.len() + 1 - from,
{
    if 0 <= from < b.len() {
        lemma_find_bounds(b, seq![GT], from + 1);
        if b[from] == LT {
            match find_from(b, seq![GT], from + 1) {
                None => {},
                Some(k) => {
                    assert(b.subrange(k, k + 1)[0] == b[k]);
                    if !named(b, from, k, name) {
                        lemma_find_tag_bounds(b, name, from + 1);
                    }
                },
            }
        } else {
            lemma_find_tag_bounds(b, name, from + 1);
        }
    }
}

pub proof fn lemma_first_tag_bounds(b: Seq<u8>)
    ensures
        first_tag(b) matches Some((i, k)) ==> 0 <= i < k < b.len() && b[k] == GT,
{
    lemma_find_bounds(b, seq![LT], 0);
    match find_from(b, seq![LT], 0) {
        None => {},
        Some(i) => {
            lemma_find_bounds(b, seq![GT], i + 1);
            match find_from(b, seq![GT], i + 1) {
                None => {},
                Some(k) => {
                    assert(b.subrange(k, k + 1)[0] == b[k]);
                },
            }
        },
    }
}

pub proof fn lemma_find_attr_bounds(b: Seq<u8>, pat: Seq<u8>, from: int, k: int)
    ensures
        find_attr(b, pat, from, k) matches Some(j) ==> from <= j && 1 <= j && j + pat.len() <= k
            <= b.len(),
    decreases k + 1 - from,
{
    if 1 <= from && from + pat.len() <= k && k <= b.len() {
        if !(is_space(b[from - 1]) && b.subrange(from, from + pat.len()) == pat) {
            lemma_find_attr_bounds(b, pat, from + 1, k);
        }
    }
}

pub proof fn lemma_attr_span_bounds(b: Seq<u8>, i: int, k: int, key: Seq<u8>)
    requires
        0 <= i < k < b.len(),
    ensures
        attr_span(b, i, k, key) matches Some((s, e)) ==> i < s <= e < k,
{
    let pat = key + seq![EQUALS, QUOTE];
    lemma_find_attr_bounds(b, pat, i + 1, k);
    match find_attr(b, pat, i + 1, k) {
        None => {},
        Some(j) => lemma_find_bounds(b, seq![QUOTE], j + pat.len()),
    }
}

/// Whether the tag `i`..=`k` is named `name`.
pub fn is_named(b: &[u8], i: usize, k: usize, name: &[u8]) -> (r: bool)
    requires
        i < k < b@.len(),
    ensures
        r == named(b@, i as int, k as int, name@),
{
    if name.len() > k - i - 1 {
        return false;
    }
    let e: usize = i + 1 + name.len();
    if !matches_at(b, name, i + 1) {
        return false;
    }
    e == k || is_space_byte(b[e]) || b[e] == SLASH
}

/// The `<` and `>` of the first tag of `b`.
pub fn first_tag_of(b: &[u8]) -> (r: Option<(usize, usize)>)
    ensures
        r == match first_tag(b@) {
            Some((i, k)) => Some((i as usize, k as usize)),
            None => None::<(usize, usize)>,
        },
        r matches Some((i, k)) ==> i < k < b@.len(),
{
    let _n: usize = b.len();
    proof {
        lemma_first_tag_bounds(b@);
        lemma_find_bounds(b@, seq![LT], 0);
    }
    match find_byte(b, LT, 0) {
        None => None,
        Some(i) => {
            proof {
                lemma_find_bounds(b@, seq![GT], i + 1);
            }
            match find_byte(b, GT, i + 1) {
                None => None,
                Some(k) => Some((i, k)),
            }
        },
    }
}

/// The `<` and `>` of the first tag named `name` that starts at or after `from`.
pub fn find_tag_from(b: &[u8], name: &[u8], from: usize) -> (r: Option<(usize, usize)>)
    ensures
        r == match find_tag(b@, name@, from as int) {
            Some((i, k)) => Some((i as usize, k as usize)),
            None => None::<(usize, usize)>,
        },
        r matches Some((i, k)) ==> from <= i < k < b@.len() && b@[k as int] == GT,
{
    let n: usize = b.len();
    proof {
        lemma_find_tag_bounds(b@, name@, from as int);
    }
    let mut i: usize = from;
    while i < n
        invariant
            n == b@.len(),
            from <= i,
            find_tag(b@, name@, from as int) == find_tag(b@, name@, i as int),
        decreases n - i,
    {
        if b[i] == LT {
            proof {
                lemma_find_bounds(b@, seq![GT], i + 1);
            }
            match find_byte(b, GT, i + 1) {
                None => {
                    return None;
                },
                Some(k) => {
                    if is_named(b, i, k, name) {
                        proof {
                            lemma_find_tag_bounds(b@, name@, i as int);
                        }
                        return Some((i, k));
                    }
                },
            }
        }
        i += 1;
    }
    None
}

/// Where the value of attribute `key` of the tag `i`..=`k` lies.
pub fn attr_span_of(b: &[u8], i: usize, k: usize, key: &[u8]) -> (r: Option<(usize, usize)>)
    requires
        i < k < b@.len(),
    ensures
        r == match attr_span(b@, i as int, k as int, key@) {
            Some((s, e)) => Some((s as usize, e as usize)),
            None => None::<(usize, usize)>,
        },
        r matches Some((s, e)) ==> i < s <= e < k,
{
    let _n: usize = b.len();
    proof {
        lemma_attr_span_bounds(b@, i as int, k as int, key@);
    }
    let mut pat: Vec<u8> = Vec::new();
    let mut m: usize = 0;
    while m < key.len()
        invariant
            m <= key@.len(),
            pat@ == key@.subrange(0, m as int),
        decreases key@.len() - m,
    {
        pat.push(key[m]);
        m += 1;
        assert(pat@ =~= key@.subrange(0, m as int));
    }
    pat.push(EQUALS);
    pat.push(QUOTE);
    assert(pat@ =~= key@ + seq![EQUALS, QUOTE]);
    if pat.len() > k {
        return None;
    }
    let mut j: usize = i + 1;
    while j <= k && pat.len() <= k - j
        invariant
            i < k < b@.len(),
            i + 1 <= j,
            pat@ == key@ + seq![EQUALS, QUOTE],
            pat@.len() <= k,
            find_attr(b@, pat@, i + 1, k as int) == find_attr(b@, pat@, j as int, k as int),
        decreases k - j,
    {
        if is_space_byte(b[j - 1]) && matches_at(b, pat.as_slice(), j) {
            let vs: usize = j + pat.len();
            proof {
                lemma_find_bounds(b@, seq![QUOTE], vs as int);
            }
            return match find_byte(b, QUOTE, vs) {
                Some(e) => if e < k {
                    Some((vs, e))
                } else {
                    None
                },
                None => None,
            };
        }
        j += 1;
    }
    None
}

/// The `i32` that the bytes `s..e` of `b` write.
pub fn int_of(b: &[u8], s: usize, e: usize) -> (r: Option<i32>)
    requires
        s <= e <= b@.len(),
    ensures
        r == match int_value(b@.subrange(s as int, e as int)) {
            Some(n) => Some(n as i32),
            None => None::<i32>,
        },
{
    let ghost v = b@.subrange(s as int, e as int);
    let neg: bool = s < e && b[s] == MINUS;
    let signed: bool = s < e && (b[s] == MINUS || b[s] == PLUS);
    let start: usize = if signed {
        s + 1
    } else {
        s
    };
    let ghost d = b@.subrange(start as int, e as int);
    assert(neg == (v.len() > 0 && v[0] == MINUS));
    assert(signed == (v.len() > 0 && (v[0] == MINUS || v[0] == PLUS)));
    assert(d =~= if signed {
        v.drop_first()
    } else {
        v
    });
    if start == e {
        return None;
    }
    let mut acc: i64 = 0;
    let mut m: usize = start;
    while m < e
        invariant
            start <= m <= e <= b@.len(),
            d == b@.subrange(start as int, e as int),
            v == b@.subrange(s as int, e as int),
            neg == (v.len() > 0 && v[0] == MINUS),
            signed == (v.len() > 0 && (v[0] == MINUS || v[0] == PLUS)),
            d == if signed {
                v.drop_first()
            } else {
                v
            },
            acc == digits_value(d.take(m - start)),
            0 <= acc <= 2147483648,
            forall|t: int| 0 <= t < m - start ==> is_digit(#[trigger] d[t]),
        decreases e - m,
    {
        let c: u8 = b[m];
        if c < 48 || c > 57 {
            assert(!is_digit(d[m - start]));
            assert(!all_digits(d));
            return None;
        }
        proof {
            assert(d.take(m - start + 1).drop_last() =~= d.take(m - start));
        }
        acc = acc * 10 + (c - 48) as i64;
        m += 1;
        if acc > 2147483648 {
            proof {
                if all_digits(d) {
                    lemma_digits_prefix(d, m - start);
                }
            }
            return None;
        }
    }
    assert(d.take(e - start) =~= d);
    assert(all_digits(d));
    if neg {
        Some((-acc) as i32)
    } else if acc > 2147483647 {
        None
    } else {
        Some(acc as i32)
    }
}

pub proof fn lemma_digits_nonneg(d: Seq<u8>)
    requires
        all_digits(d),
    ensures
        digits_value(d) >= 0,
    decreases d.len(),
{
    if d.len() > 0 {
        lemma_digits_nonneg(d.drop_last());
    }
}

/// Reading more digits never gives a smaller number.
pub proof fn lemma_digits_prefix(d: Seq<u8>, m: int)
    requires
        0 <= m <= d.len(),
        all_digits(d),
    ensures
        digits_value(d.take(m)) <= digits_value(d),
    decreases d.len(),
{
    if m == d.len() {
        assert(d.take(m) =~= d);
    } else {
        assert(d.drop_last().take(m) =~= d.take(m));
        lemma_digits_prefix(d.drop_last(), m);
        lemma_digits_nonneg(d.drop_last());
    }
}

/// Text with the entities `&amp;`, `&quot;`, `&lt;`, `&gt;` and `&apos;`
/// read as the bytes they stand for.
pub open spec fn unescape(v: Seq<u8>) -> Seq<u8>
    decreases v.len(),
{
    if v.len() == 0 {
        Seq::empty()
    } else if v.len() >= 5 && v.take(5) == amp_entity() {
        seq![38u8] + unescape(v.skip(5))
    } else if v.len() >= 6 && v.take(6) == quot_entity() {
        seq![34u8] + unescape(v.skip(6))
    } else if v.len() >= 4 && v.take(4) == lt_entity() {
        seq![60u8] + unescape(v.skip(4))
    } else if v.len() >= 4 && v.take(4) == gt_entity() {
        seq![62u8] + unescape(v.skip(4))
    } else if v.len() >= 6 && v.take(6) == apos_entity() {
        seq![39u8] + unescape(v.skip(6))
    } else {
        seq![v[0]] + unescape(v.skip(1))
    }
}

/// Whether `pat` stands at `i`, within `..e`.
fn entity_at(b: &[u8], i: usize, e: usize, pat: &Vec<u8>) -> (r: bool)
    requires
        i <= e <= b@.len(),
    ensures
        r == (e - i >= pat@.len() && b@.subrange(i as int, e as int).take(pat@.len() as int)
            == pat@),
{
    if e - i < pat.len() {
        return false;
    }
    assert(b@.subrange(i as int, e as int).take(pat@.len() as int) =~= b@.subrange(
        i as int,
        i + pat@.len(),
    ));
    matches_at(b, pat.as_slice(), i)
}

/// The bytes `s..e` of `b` with their entities read.
pub fn unescape_range(b: &[u8], s: usize, e: usize) -> (r: Vec<u8>)
    requires
        s <= e <= b@.len(),
    ensures
        r@ == unescape(b@.subrange(s as int, e as int)),
{
    let amp = amp_entity_bytes();
    let quot = quot_entity_bytes();
    let lt = lt_entity_bytes();
    let gt = gt_entity_bytes();
    let apos = apos_entity_bytes();
    let mut out: Vec<u8> = Vec::new();
    let mut i: usize = s;
    while i < e
        invariant
            s <= i <= e <= b@.len(),
            amp@ == amp_entity(),
            quot@ == quot_entity(),
            lt@ == lt_entity(),
            gt@ == gt_entity(),
            apos@ == apos_entity(),
            unescape(b@.subrange(s as int, e as int)) == out@ + unescape(
                b@.subrange(i as int, e as int),
            ),
        decreases e - i,
    {
        let ghost rest = b@.subrange(i as int, e as int);
        let (c, w): (u8, usize) = if entity_at(b, i, e, &amp) {
            (38, 5)
        } else if entity_at(b, i, e, &quot) {
            (34, 6)
        } else if entity_at(b, i, e, &lt) {
            (60, 4)
        } else if entity_at(b, i, e, &gt) {
            (62, 4)
        } else if entity_at(b, i, e, &apos) {
            (39, 6)
        } else {
            (b[i], 1)
        };
        assert(rest.skip(w as int) =~= b@.subrange(i + w, e as int));
        assert(unescape(rest) == seq![c] + unescape(rest.skip(w as int)));
        out.push(c);
        i = i + w;
        assert(unescape(b@.subrange(s as int, e as int)) =~= out@ + unescape(
            b@.subrange(i as int, e as int),
        ));
    }
    assert(b@.subrange(e as int, e as int) =~= Seq::<u8>::empty());
    assert(out@ + Seq::<u8>::empty() =~= out@);
    out
}

} // verus!
