//! Inline autocompletion of the `@name` token being typed at the end of the
//! input.

use vstd::prelude::*;
use crate::highlight::token_of;
use crate::text::{chars_before, chars_from, chars_of, lower_of, lowercase, occurs_at, push_all, same_chars, string_of, strs};

verus! {

/// Position of the last `@` among the first `n` characters of `t`.
pub open spec fn last_at_before(t: Seq<char>, n: int) -> Option<int>
    decreases n,
{
    if n <= 0 {
        None
    } else if t[n - 1] == '@' {
        Some(n - 1)
    } else {
        last_at_before(t, n - 1)
    }
}

/// Position of the last `@` in `t`.
pub open spec fn last_at(t: Seq<char>) -> Option<int> {
    last_at_before(t, t.len() as int)
}

/// The text after the last `@` of `t`, unless there is no `@` or that text
/// holds a space or a newline (the token is closed).
pub open spec fn open_tail(t: Seq<char>) -> Option<Seq<char>> {
    match last_at(t) {
        None => None,
        Some(a) => {
            let tail = t.skip(a + 1);
            if tail.contains(' ') || tail.contains('\n') {
                None
            } else {
                Some(tail)
            }
        },
    }
}

/// Index of the first of `lowered` (from `i` on) that starts with `p`.
pub open spec fn first_prefixed(p: Seq<char>, lowered: Seq<Seq<char>>, i: int) -> Option<int>
    decreases lowered.len() - i,
{
    if i < 0 || i >= lowered.len() {
        None
    } else if p.len() <= lowered[i].len() && lowered[i].take(p.len() as int) == p {
        Some(i)
    } else {
        first_prefixed(p, lowered, i + 1)
    }
}

/// Lower-case forms of the names.
pub open spec fn lowered_names(names: Seq<Seq<char>>) -> Seq<Seq<char>> {
    names.map_values(|s: Seq<char>| lower_of(s))
}

/// The suggestion for a lower-cased partial name `p`, given the names and
/// their lower-case forms: none when `p` already is a name, else the token of
/// the first name whose lower-case form starts with `p`.
pub open spec fn suggestion(p: Seq<char>, names: Seq<Seq<char>>, lowered: Seq<Seq<char>>) -> (
    Seq<char>,
    bool,
) {
    if names.contains(p) {
        (seq![], false)
    } else {
        match first_prefixed(p, lowered, 0) {
            Some(i) => (token_of(names[i]), true),
            None => (seq![], false),
        }
    }
}

/// The suggestion shown for input `t`.
pub open spec fn autocomplete(t: Seq<char>, names: Seq<Seq<char>>) -> (Seq<char>, bool) {
    match open_tail(t) {
        None => (seq![], false),
        Some(tail) => suggestion(lower_of(tail), names, lowered_names(names)),
    }
}

/// Input `t` with its open token replaced by the token of the first name whose
/// lower-case form starts with `p`, followed by a space; `t` itself when there
/// is no open token or no such name.
pub open spec fn completion(t: Seq<char>, p: Seq<char>, names: Seq<Seq<char>>, lowered: Seq<Seq<char>>) -> Seq<char> {
    match last_at(t) {
        None => t,
        Some(a) => if open_tail(t) is None {
            t
        } else {
            match first_prefixed(p, lowered, 0) {
                Some(i) => t.take(a) + token_of(names[i]) + seq![' '],
                None => t,
            }
        },
    }
}

/// The input after accepting the completion.
pub open spec fn autocompleted(t: Seq<char>, names: Seq<Seq<char>>) -> Seq<char> {
    match open_tail(t) {
        None => t,
        Some(tail) => completion(t, lower_of(tail), names, lowered_names(names)),
    }
}

/// Position of the last `@` in `t`.
fn find_last_at(t: &Vec<char>) -> (r: Option<usize>)
    ensures
        r matches Some(a) ==> last_at(t@) == Some(a as int) && a < t@.len(),
        r is None ==> last_at(t@) is None,
{
    let mut n: usize = t.len();
    while n > 0
        invariant
            n <= t@.len(),
            last_at(t@) == last_at_before(t@, n as int),
        decreases n,
    {
        if t[n - 1] == '@' {
            return Some(n - 1);
        }
        n = n - 1;
    }
    None
}

/// Whether `s` holds a space or a newline.
fn has_break(s: &Vec<char>) -> (r: bool)
    ensures
        r == (s@.contains(' ') || s@.contains('\n')),
{
    let mut i: usize = 0;
    while i < s.len()
        invariant
            i <= s@.len(),
            forall|k: int| 0 <= k < i ==> s@[k] != ' ' && s@[k] != '\n',
        decreases s.len() - i,
    {
        if s[i] == ' ' || s[i] == '\n' {
            assert(s@[i as int] == ' ' ==> s@.contains(' '));
            assert(s@[i as int] == '\n' ==> s@.contains('\n'));
            return true;
        }
        i = i + 1;
    }
    false
}

/// The text after the last `@` of `t` when that token is still open.
fn find_open_tail(t: &Vec<char>) -> (r: Option<(usize, Vec<char>)>)
    ensures
        r matches Some((a, tail)) ==> last_at(t@) == Some(a as int) && a < t@.len() && open_tail(
            t@,
        ) == Some(tail@),
        r is None ==> open_tail(t@) is None,
{
    match find_last_at(t) {
        None => None,
        Some(a) => {
            let n = t.len();
            assert(a < n);
            let tail = chars_from(t, a + 1);
            if has_break(&tail) {
                None
            } else {
                Some((a, tail))
            }
        },
    }
}

/// Lower-case forms of the placeholder names.
fn lower_all(names: &[String]) -> (r: Vec<String>)
    ensures
        r@.len() == names@.len(),
        strs(r@) == lowered_names(strs(names@)),
{
    let mut r: Vec<String> = Vec::new();
    let mut i: usize = 0;
    while i < names.len()
        invariant
            i <= names@.len(),
            r@.len() == i,
            strs(r@) == lowered_names(strs(names@)).take(i as int),
        decreases names.len() - i,
    {
        let l = lowercase(names[i].as_str());
        assert(l@ == lowered_names(strs(names@))[i as int]);
        let ghost before = r@;
        r.push(l);
        assert(strs(r@) =~= strs(before).push(l@));
        assert(strs(r@) =~= lowered_names(strs(names@)).take(i + 1));
        i = i + 1;
    }
    assert(lowered_names(strs(names@)).take(i as int) =~= lowered_names(strs(names@)));
    r
}

/// Index of the first of `lowered` that starts with `p`.
fn find_prefixed(p: &Vec<char>, lowered: &[String]) -> (r: Option<usize>)
    ensures
        r matches Some(i) ==> first_prefixed(p@, strs(lowered@), 0) == Some(i as int) && i
            < lowered@.len(),
        r is None ==> first_prefixed(p@, strs(lowered@), 0) is None,
{
    let mut i: usize = 0;
    while i < lowered.len()
        invariant
            i <= lowered@.len(),
            first_prefixed(p@, strs(lowered@), 0) == first_prefixed(p@, strs(lowered@), i as int),
        decreases lowered.len() - i,
    {
        let l = chars_of(lowered[i].as_str());
        if occurs_at(&l, p, 0) {
            assert(l@.subrange(0, p@.len() as int) == l@.take(p@.len() as int));
            return Some(i);
        }
        i = i + 1;
    }
    None
}

/// Whether `p` is one of the names.
fn is_name(p: &Vec<char>, names: &[String]) -> (r: bool)
    ensures
        r == strs(names@).contains(p@),
{
    let mut i: usize = 0;
    while i < names.len()
        invariant
            i <= names@.len(),
            forall|k: int| 0 <= k < i ==> strs(names@)[k] != p@,
        decreases names.len() - i,
    {
        let c = chars_of(names[i].as_str());
        if same_chars(&c, p) {
            assert(strs(names@)[i as int] == p@);
            return true;
        }
        i = i + 1;
    }
    false
}

/// The token written for a name, as characters.
fn token_chars(name: &str) -> (r: Vec<char>)
    ensures
        r@ == token_of(name@),
{
    let mut r: Vec<char> = vec!['@'];
    let c = chars_of(name);
    push_all(&mut r, &c);
    r
}

/// The suggestion for the lower-cased partial name `partial`, where
/// `lowered` holds the lower-case form of each placeholder name.
pub fn suggest_for_partial(partial: &str, placeholders: &[String], lowered: &[String]) -> (r: (
    String,
    bool,
))
    requires
        lowered@.len() == placeholders@.len(),
    ensures
        (r.0@, r.1) == suggestion(partial@, strs(placeholders@), strs(lowered@)),
{
    let p = chars_of(partial);
    if is_name(&p, placeholders) {
        return (String::new(), false);
    }
    match find_prefixed(&p, lowered) {
        Some(i) => {
            let tok = token_chars(placeholders[i].as_str());
            (string_of(&tok), true)
        },
        None => (String::new(), false),
    }
}

/// The suggestion to show for the token being typed at the end of `text`:
/// the token of a matching placeholder name and `true`, or an empty string
/// and `false`.
pub fn find_autocomplete(text: &str, placeholders: &[String]) -> (r: (String, bool))
    ensures
        (r.0@, r.1) == autocomplete(text@, strs(placeholders@)),
{
    let t = chars_of(text);
    match find_open_tail(&t) {
        None => (String::new(), false),
        Some((_a, tail)) => {
            let tail_s = string_of(&tail);
            let partial = lowercase(tail_s.as_str());
            let lowered = lower_all(placeholders);
            suggest_for_partial(partial.as_str(), placeholders, lowered.as_slice())
        },
    }
}

/// `text` with its open token replaced by the token of the first placeholder
/// whose lower-case form starts with the lower-cased partial `partial`, and a
/// space; `text` unchanged when there is no open token or no such name.
pub fn complete_with_partial(
    text: &str,
    partial: &str,
    placeholders: &[String],
    lowered: &[String],
) -> (r: String)
    requires
        lowered@.len() == placeholders@.len(),
    ensures
        r@ == completion(text@, partial@, strs(placeholders@), strs(lowered@)),
{
    let t = chars_of(text);
    match find_open_tail(&t) {
        None => string_of(&t),
        Some((a, _tail)) => {
            let p = chars_of(partial);
            match find_prefixed(&p, lowered) {
                Some(i) => {
                    let mut out = chars_before(&t, a);
                    let tok = token_chars(placeholders[i].as_str());
                    push_all(&mut out, &tok);
                    out.push(' ');
                    proof {
                        assert(out@ =~= t@.take(a as int) + token_of(strs(placeholders@)[i as int])
                            + seq![' ']);
                    }
                    string_of(&out)
                },
                None => string_of(&t),
            }
        },
    }
}

/// Accepts the completion: the open token at the end of `text` is replaced by
/// the token of the first matching placeholder name and a space.
pub fn apply_autocomplete(text: &str, placeholders: &[String]) -> (r: String)
    ensures
        r@ == autocompleted(text@, strs(placeholders@)),
{
    let t = chars_of(text);
    match find_open_tail(&t) {
        None => string_of(&t),
        Some((_a, tail)) => {
            let tail_s = string_of(&tail);
            let partial = lowercase(tail_s.as_str());
            let lowered = lower_all(placeholders);
            complete_with_partial(text, partial.as_str(), placeholders, lowered.as_slice())
        },
    }
}

} // verus!
