//! Byte-level search over protocol text, with the specification each search meets.
use vstd::prelude::*;

verus! {

pub const LT: u8 = 60;

pub const GT: u8 = 62;

pub const SLASH: u8 = 47;

pub const QUOTE: u8 = 34;

pub const EQUALS: u8 = 61;

pub const MINUS: u8 = 45;

pub const PLUS: u8 = 43;

/// Whitespace that may separate a tag name from what follows it.
pub open spec fn is_space(c: u8) -> bool {
    c == 32 || c == 9 || c == 10 || c == 13
}

pub fn is_space_byte(c: u8) -> (r: bool)
    ensures
        r == is_space(c),
{
    c == 32 || c == 9 || c == 10 || c == 13
}

/// Whether `pat` stands in `b` at position `j`.
pub open spec fn occurs_at(b: Seq<u8>, pat: Seq<u8>, j: int) -> bool {
    0 <= j && j + pat.len() <= b.len() && b.subrange(j, j + pat.len()) == pat
}

/// The first position at or after `from` where `pat` stands in `b`.
pub open spec fn find_from(b: Seq<u8>, pat: Seq<u8>, from: int) -> Option<int>
    decreases b.len() + 1 - from,
{
    if from < 0 || from + pat.len() > b.len() {
        None
    } else if b.subrange(from, from + pat.len()) == pat {
        Some(from)
    } else {
        find_from(b, pat, from + 1)
    }
}

pub proof fn lemma_find_bounds(b: Seq<u8>, pat: Seq<u8>, from: int)
    ensures
        match find_from(b, pat, from) {
            Some(j) => from <= j && j + pat.len() <= b.len() && occurs_at(b, pat, j),
            None => true,
        },
    decreases b.len() + 1 - from,
{
    if 0 <= from && from + pat.len() <= b.len() && b.subrange(from, from + pat.len()) != pat {
        lemma_find_bounds(b, pat, from + 1);
    }
}

/// The search stops at the first place where the pattern stands.
pub proof fn lemma_find_first(b: Seq<u8>, pat: Seq<u8>, from: int, j: int)
    requires
        0 <= from <= j,
        occurs_at(b, pat, j),
        forall|t: int| from <= t < j ==> !occurs_at(b, pat, t),
    ensures
        find_from(b, pat, from) == Some(j),
    decreases j - from,
{
    if from < j {
        assert(!occurs_at(b, pat, from));
        lemma_find_first(b, pat, from + 1, j);
    }
}

/// Searching a prefix of `b` finds what searching `b` finds, when it lies inside the prefix.
pub proof fn lemma_find_take(b: Seq<u8>, pat: Seq<u8>, from: int, n: int)
    requires
        0 <= n <= b.len(),
    ensures
        find_from(b.take(n), pat, from) == match find_from(b, pat, from) {
            Some(j) => if j + pat.len() <= n {
                Some(j)
            } else {
                None
            },
            None => None,
        },
    decreases b.len() + 1 - from,
{
    lemma_find_bounds(b, pat, from);
    if 0 <= from && from + pat.len() <= n {
        assert(b.take(n).subrange(from, from + pat.len()) == b.subrange(from, from + pat.len()));
        if b.subrange(from, from + pat.len()) != pat {
            lemma_find_take(b, pat, from + 1, n);
        }
    }
}

/// Whether the bytes of `pat` stand in `b` at position `j`.
pub fn matches_at(b: &[u8], pat: &[u8], j: usize) -> (r: bool)
    requires
        j + pat@.len() <= b@.len(),
    ensures
        r == (b@.subrange(j as int, j + pat@.len()) == pat@),
{
    let n: usize = b.len();
    let mut k: usize = 0;
    while k < pat.len()
        invariant
            k <= pat@.len(),
            j + pat@.len() <= b@.len(),
            n == b@.len(),
            forall|m: int| 0 <= m < k ==> b@[j + m] == pat@[m],
        decreases pat@.len() - k,
    {
        if b[j + k] != pat[k] {
            assert(b@.subrange(j as int, j + pat@.len())[k as int] != pat@[k as int]);
            return false;
        }
        k += 1;
    }
    assert(b@.subrange(j as int, j + pat@.len()) =~= pat@);
    true
}

/// The first position at or after `from` where `pat` stands in `b`.
pub fn find_pattern(b: &[u8], pat: &[u8], from: usize) -> (r: Option<usize>)
    requires
        pat@.len() > 0,
    ensures
        r == match find_from(b@, pat@, from as int) {
            Some(j) => Some(j as usize),
            None => None::<usize>,
        },
{
    let n: usize = b.len();
    let mut i: usize = from;
    while i <= n && pat.len() <= n - i
        invariant
            from <= i,
            n == b@.len(),
            pat@.len() > 0,
            find_from(b@, pat@, from as int) == find_from(b@, pat@, i as int),
        decreases b@.len() + 1 - i,
    {
        if matches_at(b, pat, i) {
            return Some(i);
        }
        assert(i < n);
        i += 1;
    }
    None
}

/// The first position at or after `from` that holds the byte `x`.
pub fn find_byte(b: &[u8], x: u8, from: usize) -> (r: Option<usize>)
    ensures
        r == match find_from(b@, seq![x], from as int) {
            Some(j) => Some(j as usize),
            None => None::<usize>,
        },
{
    let mut i: usize = from;
    while i < b.len()
        invariant
            from <= i,
            find_from(b@, seq![x], from as int) == find_from(b@, seq![x], i as int),
        decreases b@.len() - i,
    {
        if b[i] == x {
            assert(b@.subrange(i as int, i + 1) =~= seq![x]);
            return Some(i);
        }
        assert(b@.subrange(i as int, i + 1)[0] != seq![x][0]);
        i += 1;
    }
    None
}

} // verus!
