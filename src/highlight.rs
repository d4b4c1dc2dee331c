//! The highlight overlay: a copy of the input in which only recognised
//! `@name` tokens stay visible.

use vstd::prelude::*;
use crate::text::{chars_of, occurs_at, string_of, strs};

verus! {

/// Letters, digits and `_` continue a token; anything else ends it.
pub open spec fn is_word_char(c: char) -> bool {
    ('a' <= c && c <= 'z') || ('A' <= c && c <= 'Z') || ('0' <= c && c <= '9') || c == '_'
}

fn word_char(c: char) -> (r: bool)
    ensures
        r == is_word_char(c),
{
    ('a' <= c && c <= 'z') || ('A' <= c && c <= 'Z') || ('0' <= c && c <= '9') || c == '_'
}

/// The token written for a placeholder name.
pub open spec fn token_of(name: Seq<char>) -> Seq<char> {
    seq!['@'] + name
}

/// `t` holds the token of `name` at position `i`, and the token ends at a
/// word boundary.
pub open spec fn token_at(t: Seq<char>, name: Seq<char>, i: int) -> bool {
    let end = i + 1 + name.len();
    &&& 0 <= i
    &&& end <= t.len()
    &&& t.subrange(i, end) == token_of(name)
    &&& (end == t.len() || !is_word_char(t[end]))
}

/// Position `k` of `t` lies inside a token of the `j`-th name that starts at `i`.
pub open spec fn covers(t: Seq<char>, names: Seq<Seq<char>>, j: int, i: int, k: int) -> bool {
    &&& 0 <= j < names.len()
    &&& token_at(t, names[j], i)
    &&& i <= k < i + 1 + names[j].len()
}

/// Position `k` of `t` lies inside a recognised token of one of `names`.
pub open spec fn highlighted(t: Seq<char>, names: Seq<Seq<char>>, k: int) -> bool {
    exists|j: int, i: int| #[trigger] covers(t, names, j, i, k)
}

/// What the overlay shows at position `k`.
pub open spec fn overlay_char(t: Seq<char>, names: Seq<Seq<char>>, k: int) -> char {
    if highlighted(t, names, k) {
        t[k]
    } else if t[k] == '\n' {
        '\n'
    } else {
        ' '
    }
}

/// The overlay of `t`: one character for each character of `t`.
pub open spec fn overlay(t: Seq<char>, names: Seq<Seq<char>>) -> Seq<char> {
    Seq::new(t.len(), |k: int| overlay_char(t, names, k))
}

/// Sets the flags of positions `from` to `to` (exclusive).
fn mark_range(mask: &mut Vec<bool>, from: usize, to: usize)
    requires
        from <= to <= old(mask)@.len(),
    ensures
        final(mask)@.len() == old(mask)@.len(),
        forall|k: int|
            0 <= k < old(mask)@.len() ==> final(mask)@[k] == (old(mask)@[k] || (from <= k < to)),
{
    let mut q: usize = from;
    while q < to
        invariant
            from <= q <= to <= mask@.len(),
            mask@.len() == old(mask)@.len(),
            forall|k: int|
                0 <= k < old(mask)@.len() ==> mask@[k] == (old(mask)@[k] || (from <= k < q)),
        decreases to - q,
    {
        mask.set(q, true);
        q = q + 1;
    }
}

/// Builds the overlay text of `text` for the given placeholder names: the
/// characters of each recognised `@name` token are kept, newlines are kept,
/// and every other character becomes a space.
pub fn build_highlight_text(text: &str, placeholders: &[String]) -> (r: String)
    ensures
        r@ == overlay(text@, strs(placeholders@)),
        r@.len() == text@.len(),
{
    let t = chars_of(text);
    let n = t.len();
    let ghost names = strs(placeholders@);
    let mut mask: Vec<bool> = Vec::new();
    while mask.len() < n
        invariant
            mask@.len() <= n,
            forall|k: int| 0 <= k < mask@.len() ==> !mask@[k],
        decreases n - mask.len(),
    {
        mask.push(false);
    }
    let mut j: usize = 0;
    while j < placeholders.len()
        invariant
            n == t@.len(),
            t@ == text@,
            names == strs(placeholders@),
            j <= placeholders@.len(),
            mask@.len() == n,
            forall|k: int|
                0 <= k < n ==> (mask@[k] <==> exists|j2: int, i2: int|
                    j2 < j && #[trigger] covers(t@, names, j2, i2, k)),
        decreases placeholders.len() - j,
    {
        let name = chars_of(placeholders[j].as_str());
        let mut tok: Vec<char> = vec!['@'];
        crate::text::push_all(&mut tok, &name);
        assert(tok@ == token_of(names[j as int]));
        let mut i: usize = 0;
        while i < n
            invariant
                n == t@.len(),
                names == strs(placeholders@),
                j < placeholders@.len(),
                tok@ == token_of(names[j as int]),
                i <= n,
                mask@.len() == n,
                forall|k: int|
                    0 <= k < n ==> (mask@[k] <==> exists|j2: int, i2: int|
                        (j2 < j || (j2 == j && i2 < i)) && #[trigger] covers(t@, names, j2, i2, k)),
            decreases n - i,
        {
            let end_ok = tok.len() <= n - i && occurs_at(&t, &tok, i) && (i + tok.len() == n
                || !word_char(t[i + tok.len()]));
            assert(end_ok == token_at(t@, names[j as int], i as int));
            let ghost before = mask@;
            if end_ok {
                mark_range(&mut mask, i, i + tok.len());
            }
            assert(forall|k: int|
                0 <= k < n ==> mask@[k] == (before[k] || (end_ok && i <= k < i + tok@.len())));
            assert(tok@.len() == 1 + names[j as int].len());
            assert forall|k: int| 0 <= k < n implies (mask@[k] <==> exists|j2: int, i2: int|
                (j2 < j || (j2 == j && i2 < i + 1)) && #[trigger] covers(t@, names, j2, i2, k)) by {
                if mask@[k] {
                    if before[k] {
                        let (j2, i2) = choose|j2: int, i2: int|
                            (j2 < j || (j2 == j && i2 < i)) && #[trigger] covers(t@, names, j2, i2, k);
                        assert((j2 < j || (j2 == j && i2 < i + 1)) && covers(t@, names, j2, i2, k));
                    } else {
                        assert(covers(t@, names, j as int, i as int, k));
                    }
                } else {
                    if exists|j2: int, i2: int|
                        (j2 < j || (j2 == j && i2 < i + 1)) && #[trigger] covers(t@, names, j2, i2, k) {
                        let (j2, i2) = choose|j2: int, i2: int|
                            (j2 < j || (j2 == j && i2 < i + 1)) && #[trigger] covers(t@, names, j2, i2, k);
                        if j2 == j && i2 == i {
                            assert(end_ok);
                            assert(false);
                        } else {
                            assert(before[k]);
                            assert(false);
                        }
                    }
                }
            }
            i = i + 1;
        }
        j = j + 1;
    }
    let mut out: Vec<char> = Vec::new();
    let mut k: usize = 0;
    while k < n
        invariant
            n == t@.len(),
            t@ == text@,
            names == strs(placeholders@),
            mask@.len() == n,
            j == placeholders@.len(),
            forall|k: int|
                0 <= k < n ==> (mask@[k] <==> exists|j2: int, i2: int|
                    j2 < j && #[trigger] covers(t@, names, j2, i2, k)),
            k <= n,
            out@ == overlay(t@, names).take(k as int),
        decreases n - k,
    {
        let c = if mask[k] {
            t[k]
        } else if t[k] == '\n' {
            '\n'
        } else {
            ' '
        };
        assert(mask@[k as int] == highlighted(t@, names, k as int));
        out.push(c);
        assert(out@ =~= overlay(t@, names).take(k + 1));
        k = k + 1;
    }
    assert(out@ =~= overlay(t@, names));
    string_of(&out)
}

} // verus!
