//! Text helpers over Unicode scalar values: white space, trimming, splitting
//! a keyword list on commas, substring search, and lower-casing through
//! `str::to_lowercase`.
use vstd::prelude::*;

use vstd::string::StrSliceExecFns;

verus! {

/// Whether `c` has the Unicode White_Space property (the characters
/// `char::is_whitespace` accepts).
pub open spec fn is_white_space(c: char) -> bool {
    let u = c as u32;
    ||| 0x9 <= u <= 0xD
    ||| u == 0x20
    ||| u == 0x85
    ||| u == 0xA0
    ||| u == 0x1680
    ||| 0x2000 <= u <= 0x200A
    ||| u == 0x2028
    ||| u == 0x2029
    ||| u == 0x202F
    ||| u == 0x205F
    ||| u == 0x3000
}

/// Number of white-space characters at the start of `s`.
pub open spec fn lead_ws(s: Seq<char>) -> nat
    decreases s.len(),
{
    if s.len() == 0 || !is_white_space(s[0]) {
        0
    } else {
        1 + lead_ws(s.drop_first())
    }
}

/// Number of white-space characters at the end of `s`.
pub open spec fn trail_ws(s: Seq<char>) -> nat
    decreases s.len(),
{
    if s.len() == 0 || !is_white_space(s.last()) {
        0
    } else {
        1 + trail_ws(s.drop_last())
    }
}

/// `s` without its leading and trailing white space.
pub open spec fn trimmed(s: Seq<char>) -> Seq<char> {
    let t = s.skip(lead_ws(s) as int);
    t.subrange(0, t.len() - trail_ws(t))
}

/// The lower-case form of `s`, as `str::to_lowercase` computes it.
pub uninterp spec fn lowercase(s: Seq<char>) -> Seq<char>;

/// Whether two texts are the same characters.
pub fn same_text(a: &str, b: &str) -> (r: bool)
    ensures
        r == (a@ == b@),
{
    let x = chars_of(a);
    let y = chars_of(b);
    if x.len() != y.len() {
        return false;
    }
    let n = x.len();
    let mut i: usize = 0;
    while i < n
        invariant
            0 <= i <= n,
            n == x@.len(),
            n == y@.len(),
            x@ == a@,
            y@ == b@,
            x@.subrange(0, i as int) =~= y@.subrange(0, i as int),
        decreases n - i,
    {
        if x[i] != y[i] {
            return false;
        }
        i = i + 1;
        assert(x@.subrange(0, i as int) =~= y@.subrange(0, i as int));
    }
    assert(x@ =~= x@.subrange(0, n as int));
    assert(y@ =~= y@.subrange(0, n as int));
    true
}

/// Whether `needle` occurs in `hay` at position `i`.
pub open spec fn occurs_at(hay: Seq<char>, needle: Seq<char>, i: int) -> bool {
    0 <= i && i + needle.len() <= hay.len() && hay.subrange(i, i + needle.len()) == needle
}

/// Whether `needle` occurs in `hay`.
pub open spec fn contains_text(hay: Seq<char>, needle: Seq<char>) -> bool {
    exists|i: int| #[trigger] occurs_at(hay, needle, i)
}

/// Length of the part of `s` before its first NUL character.
pub open spec fn before_nul(s: Seq<char>) -> nat
    decreases s.len(),
{
    if s.len() == 0 || s[0] == '\0' {
        0
    } else {
        1 + before_nul(s.drop_first())
    }
}

/// Start of the last comma-separated piece of the first `n` characters.
pub open spec fn piece_start(s: Seq<char>, n: int) -> int
    decreases n,
{
    if n <= 0 {
        0
    } else if s[n - 1] == ',' {
        n
    } else {
        piece_start(s, n - 1)
    }
}

/// A piece trimmed, if anything is left of it.
pub open spec fn kept(piece: Seq<char>) -> Seq<Seq<char>> {
    if trimmed(piece).len() > 0 {
        seq![trimmed(piece)]
    } else {
        Seq::empty()
    }
}

/// The kept pieces of the first `n` characters that a comma closes.
pub open spec fn closed_keywords(s: Seq<char>, n: int) -> Seq<Seq<char>>
    decreases n,
{
    if n <= 0 {
        Seq::empty()
    } else if s[n - 1] == ',' {
        closed_keywords(s, n - 1) + kept(s.subrange(piece_start(s, n - 1), n - 1))
    } else {
        closed_keywords(s, n - 1)
    }
}

/// The keywords of a comma-separated list: its pieces, trimmed, without the
/// empty ones.
pub open spec fn keyword_list(s: Seq<char>) -> Seq<Seq<char>> {
    closed_keywords(s, s.len() as int) + kept(s.subrange(piece_start(s, s.len() as int), s.len() as int))
}

/// The views of a sequence of strings.
pub open spec fn views(v: Seq<String>) -> Seq<Seq<char>> {
    v.map_values(|k: String| k@)
}

/// Calls `str::to_lowercase`; its result is named `lowercase`.
#[verifier::external_body]
pub(crate) fn to_lowercase(s: &str) -> (r: String)
    ensures
        r@ == lowercase(s@),
{
    s.to_lowercase()
}

/// Whether `c` is white space.
pub fn is_white_space_char(c: char) -> (r: bool)
    ensures
        r == is_white_space(c),
{
    let u = c as u32;
    (0x9 <= u && u <= 0xD) || u == 0x20 || u == 0x85 || u == 0xA0 || u == 0x1680 || (0x2000 <= u
        && u <= 0x200A) || u == 0x2028 || u == 0x2029 || u == 0x202F || u == 0x205F || u == 0x3000
}

/// `s` without leading and trailing white space.
pub fn trim(s: &str) -> (r: &str)
    ensures
        r@ == trimmed(s@),
{
    let n = s.unicode_len();
    let mut a: usize = 0;
    assert(s@.skip(0) =~= s@);
    while a < n && is_white_space_char(s.get_char(a))
        invariant
            0 <= a <= n,
            n == s@.len(),
            lead_ws(s@) == a + lead_ws(s@.skip(a as int)),
        decreases n - a,
    {
        assert(s@.skip(a as int).drop_first() =~= s@.skip(a + 1));
        a = a + 1;
    }
    assert(lead_ws(s@.skip(a as int)) == 0);
    let mut b: usize = n;
    while b > a && is_white_space_char(s.get_char(b - 1))
        invariant
            0 <= a <= b <= n,
            n == s@.len(),
            lead_ws(s@) == a,
            trail_ws(s@.subrange(a as int, n as int)) == (n - b) + trail_ws(
                s@.subrange(a as int, b as int),
            ),
        decreases b - a,
    {
        assert(s@.subrange(a as int, b as int).drop_last() =~= s@.subrange(a as int, b - 1));
        b = b - 1;
    }
    assert(trail_ws(s@.subrange(a as int, b as int)) == 0);
    assert(s@.skip(a as int) =~= s@.subrange(a as int, n as int));
    assert(s@.subrange(a as int, n as int).subrange(0, b - a) =~= s@.subrange(a as int, b as int));
    s.substring_char(a, b)
}

/// The characters of `s`.
pub fn chars_of(s: &str) -> (r: Vec<char>)
    ensures
        r@ == s@,
{
    let n = s.unicode_len();
    let mut r: Vec<char> = Vec::with_capacity(n);
    let mut i: usize = 0;
    while i < n
        invariant
            0 <= i <= n,
            n == s@.len(),
            r@ == s@.subrange(0, i as int),
        decreases n - i,
    {
        r.push(s.get_char(i));
        i = i + 1;
        assert(r@ =~= s@.subrange(0, i as int));
    }
    assert(s@.subrange(0, n as int) =~= s@);
    r
}

/// Whether `needle` occurs in `hay` at position `i`.
fn matches_at(hay: &Vec<char>, needle: &Vec<char>, i: usize) -> (r: bool)
    requires
        i + needle@.len() <= hay@.len() <= usize::MAX,
    ensures
        r == occurs_at(hay@, needle@, i as int),
{
    let m = needle.len();
    let mut j: usize = 0;
    while j < m
        invariant
            0 <= j <= m,
            m == needle@.len(),
            i + m <= hay@.len() <= usize::MAX,
            hay@.subrange(i as int, i + j) =~= needle@.subrange(0, j as int),
        decreases m - j,
    {
        if hay[i + j] != needle[j] {
            assert(hay@.subrange(i as int, i + m)[j as int] != needle@[j as int]);
            return false;
        }
        j = j + 1;
        assert(hay@.subrange(i as int, i + j) =~= needle@.subrange(0, j as int));
    }
    assert(needle@.subrange(0, m as int) =~= needle@);
    true
}

/// Whether `needle` occurs in `hay`.
pub fn contains(hay: &str, needle: &str) -> (r: bool)
    ensures
        r == contains_text(hay@, needle@),
{
    let h = chars_of(hay);
    let n = chars_of(needle);
    if n.len() == 0 {
        assert(hay@.subrange(0, 0) =~= needle@);
        assert(occurs_at(hay@, needle@, 0));
        return true;
    }
    if n.len() > h.len() {
        assert forall|i: int| !occurs_at(hay@, needle@, i) by {}
        return false;
    }
    let last = h.len() - n.len();
    let mut i: usize = 0;
    while i <= last
        invariant
            0 <= i <= last + 1,
            last + n@.len() == h@.len(),
            h@.len() <= usize::MAX,
            n@.len() >= 1,
            h@ == hay@,
            n@ == needle@,
            forall|k: int| 0 <= k < i ==> !#[trigger] occurs_at(hay@, needle@, k),
        decreases last + 1 - i,
    {
        if matches_at(&h, &n, i) {
            assert(occurs_at(hay@, needle@, i as int));
            return true;
        }
        i = i + 1;
    }
    assert forall|k: int| !occurs_at(hay@, needle@, k) by {
        if 0 <= k < i {
        }
    }
    false
}

/// The keywords of a comma-separated list, read up to its first NUL
/// character: the pieces, trimmed, without the empty ones.
pub fn split_keywords(list: &str) -> (r: Vec<String>)
    ensures
        views(r@) == keyword_list(list@.take(before_nul(list@) as int)),
{
    let n0 = list.unicode_len();
    let mut e: usize = 0;
    assert(list@.skip(0) =~= list@);
    while e < n0 && list.get_char(e) != '\0'
        invariant
            0 <= e <= n0,
            n0 == list@.len(),
            before_nul(list@) == e + before_nul(list@.skip(e as int)),
        decreases n0 - e,
    {
        assert(list@.skip(e as int).drop_first() =~= list@.skip(e + 1));
        e = e + 1;
    }
    assert(before_nul(list@.skip(e as int)) == 0);
    let text = list.substring_char(0, e);
    assert(text@ =~= list@.take(e as int));
    let n = e;
    let mut r: Vec<String> = Vec::new();
    let mut start: usize = 0;
    let mut i: usize = 0;
    while i < n
        invariant
            0 <= start <= i <= n,
            n == text@.len(),
            start == piece_start(text@, i as int),
            views(r@) == closed_keywords(text@, i as int),
        decreases n - i,
    {
        if text.get_char(i) == ',' {
            let piece = trim(text.substring_char(start, i));
            if piece.unicode_len() > 0 {
                r.push(piece.to_owned());
            }
            proof {
                assert(views(r@) =~= closed_keywords(text@, i + 1));
            }
            start = i + 1;
        }
        i = i + 1;
    }
    let piece = trim(text.substring_char(start, n));
    if piece.unicode_len() > 0 {
        r.push(piece.to_owned());
    }
    proof {
        assert(views(r@) =~= keyword_list(text@));
    }
    r
}

} // verus!
