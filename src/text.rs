//! Character-level helpers shared by the text engine.

use vstd::prelude::*;
use vstd::std_specs::iter::IteratorSpec;

verus! {

/// Unicode `White_Space` characters, the set that `char::is_whitespace` tests.
pub open spec fn is_ws(c: char) -> bool {
    c == '\t' || c == '\n' || c == '\u{0B}' || c == '\u{0C}' || c == '\r' || c == ' '
        || c == '\u{85}' || c == '\u{A0}' || c == '\u{1680}'
        || ('\u{2000}' <= c && c <= '\u{200A}')
        || c == '\u{2028}' || c == '\u{2029}' || c == '\u{202F}' || c == '\u{205F}'
        || c == '\u{3000}'
}

/// Whitespace test on one character.
pub fn is_whitespace(c: char) -> (r: bool)
    ensures
        r == is_ws(c),
{
    c == '\t' || c == '\n' || c == '\u{0B}' || c == '\u{0C}' || c == '\r' || c == ' '
        || c == '\u{85}' || c == '\u{A0}' || c == '\u{1680}'
        || ('\u{2000}' <= c && c <= '\u{200A}')
        || c == '\u{2028}' || c == '\u{2029}' || c == '\u{202F}' || c == '\u{205F}'
        || c == '\u{3000}'
}

/// The character sequences held by a sequence of strings.
pub open spec fn strs(v: Seq<String>) -> Seq<Seq<char>> {
    v.map_values(|s: String| s@)
}

/// The characters of a string slice, in order.
pub(crate) fn chars_of(s: &str) -> (r: Vec<char>)
    ensures
        r@ == s@,
{
    broadcast use vstd::string::group_string_axioms;

    let mut it = s.chars();
    let mut r: Vec<char> = Vec::new();
    loop
        invariant
            r@ + it.remaining() == s@,
            it.decrease() is Some,
        decreases it.decrease()->0,
    {
        let ghost before = it.remaining();
        match it.next() {
            Some(c) => {
                assert(before == seq![c] + it.remaining());
                r.push(c);
                assert(r@ + it.remaining() == s@);
            },
            None => {
                assert(it.remaining().len() == 0);
                assert(r@ + it.remaining() == r@);
                return r;
            },
        }
    }
}

/// A string made of the given characters, in order.
///
/// Relies on `String: FromIterator<char>`: the characters are appended in order.
#[verifier::external_body]
pub(crate) fn string_of(v: &Vec<char>) -> (r: String)
    ensures
        r@ == v@,
{
    v.iter().collect()
}

/// Character-by-character equality of two character vectors.
pub(crate) fn same_chars(a: &Vec<char>, b: &Vec<char>) -> (r: bool)
    ensures
        r == (a@ == b@),
{
    if a.len() != b.len() {
        return false;
    }
    let mut i: usize = 0;
    while i < a.len()
        invariant
            a@.len() == b@.len(),
            i <= a@.len(),
            a@.take(i as int) == b@.take(i as int),
        decreases a.len() - i,
    {
        if a[i] != b[i] {
            assert(a@[i as int] != b@[i as int]);
            return false;
        }
        assert(a@.take(i + 1) == a@.take(i as int).push(a@[i as int]));
        assert(b@.take(i + 1) == b@.take(i as int).push(b@[i as int]));
        i = i + 1;
    }
    assert(a@ == a@.take(i as int));
    assert(b@ == b@.take(i as int));
    true
}

/// Whether `a` holds `p` starting at position `at`.
pub(crate) fn occurs_at(a: &Vec<char>, p: &Vec<char>, at: usize) -> (r: bool)
    ensures
        r == (at + p@.len() <= a@.len() && a@.subrange(at as int, at + p@.len()) == p@),
{
    if at > a.len() || p.len() > a.len() - at {
        return false;
    }
    let n = a.len();
    let mut i: usize = 0;
    while i < p.len()
        invariant
            n == a@.len(),
            at + p@.len() <= a@.len(),
            i <= p@.len(),
            a@.subrange(at as int, at + i) == p@.take(i as int),
        decreases p.len() - i,
    {
        if a[at + i] != p[i] {
            assert(a@.subrange(at as int, at + p@.len())[i as int] != p@[i as int]);
            return false;
        }
        assert(a@.subrange(at as int, at + i + 1) == a@.subrange(at as int, at + i).push(
            a@[at + i],
        ));
        assert(p@.take(i + 1) == p@.take(i as int).push(p@[i as int]));
        i = i + 1;
    }
    assert(p@ == p@.take(i as int));
    true
}

/// `pat` occurs in `s`.
pub open spec fn occurs_in(s: Seq<char>, pat: Seq<char>) -> bool {
    exists|i: int| 0 <= i && i + pat.len() <= s.len() && #[trigger] s.subrange(i, i + pat.len()) == pat
}

/// Whether `p` occurs somewhere in `t`.
pub(crate) fn contains_chars(t: &Vec<char>, p: &Vec<char>) -> (r: bool)
    ensures
        r == occurs_in(t@, p@),
{
    let mut i: usize = 0;
    while i <= t.len()
        invariant
            i <= t@.len() + 1,
            forall|k: int|
                0 <= k < i && k + p@.len() <= t@.len() ==> #[trigger] t@.subrange(
                    k,
                    k + p@.len(),
                ) != p@,
        decreases t@.len() + 1 - i,
    {
        if occurs_at(t, p, i) {
            assert(t@.subrange(i as int, i + p@.len()) == p@);
            return true;
        }
        if i == t.len() {
            return false;
        }
        i = i + 1;
    }
    false
}

/// The characters of `a` from position `from` on.
pub(crate) fn chars_from(a: &Vec<char>, from: usize) -> (r: Vec<char>)
    requires
        from <= a@.len(),
    ensures
        r@ == a@.skip(from as int),
{
    let mut r: Vec<char> = Vec::new();
    let mut i: usize = from;
    while i < a.len()
        invariant
            from <= i <= a@.len(),
            r@ == a@.subrange(from as int, i as int),
        decreases a.len() - i,
    {
        r.push(a[i]);
        assert(a@.subrange(from as int, i + 1) == a@.subrange(from as int, i as int).push(
            a@[i as int],
        ));
        i = i + 1;
    }
    r
}

/// The characters of `a` before position `to`.
pub(crate) fn chars_before(a: &Vec<char>, to: usize) -> (r: Vec<char>)
    requires
        to <= a@.len(),
    ensures
        r@ == a@.take(to as int),
{
    let mut r: Vec<char> = Vec::new();
    let mut i: usize = 0;
    while i < to
        invariant
            i <= to <= a@.len(),
            r@ == a@.take(i as int),
        decreases to - i,
    {
        r.push(a[i]);
        assert(a@.take(i + 1) == a@.take(i as int).push(a@[i as int]));
        i = i + 1;
    }
    r
}

/// Appends the characters of `b` to `a`.
pub(crate) fn push_all(a: &mut Vec<char>, b: &Vec<char>)
    ensures
        final(a)@ == old(a)@ + b@,
{
    let mut i: usize = 0;
    while i < b.len()
        invariant
            i <= b@.len(),
            a@ == old(a)@ + b@.take(i as int),
        decreases b.len() - i,
    {
        a.push(b[i]);
        assert(b@.take(i + 1) == b@.take(i as int).push(b@[i as int]));
        i = i + 1;
    }
    assert(b@ == b@.take(i as int));
}

/// Lower-case form of a string, as `str::to_lowercase` gives it.
pub uninterp spec fn lower_of(s: Seq<char>) -> Seq<char>;

/// Relies on `str::to_lowercase`: the result depends on the characters alone.
#[verifier::external_body]
pub(crate) fn lowercase(s: &str) -> (r: String)
    ensures
        r@ == lower_of(s@),
{
    s.to_lowercase()
}

} // verus!
