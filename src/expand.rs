//! Expansion of `@name` placeholders before the prompt is sent.

use vstd::prelude::*;
use crate::highlight::token_of;
use crate::params::ParamMap;
use crate::text::{chars_of, contains_chars, occurs_at, occurs_in, push_all, string_of};

verus! {

/// `s` with each occurrence of the non-empty pattern `pat` replaced by `rep`,
/// scanning from the left and resuming after each replaced occurrence. An
/// empty pattern leaves `s` as it is; the functions here only replace
/// tokens, which are never empty.
pub open spec fn replace_all(s: Seq<char>, pat: Seq<char>, rep: Seq<char>) -> Seq<char>
    decreases s.len(),
{
    if pat.len() == 0 || s.len() < pat.len() {
        s
    } else if s.take(pat.len() as int) == pat {
        rep + replace_all(s.skip(pat.len() as int), pat, rep)
    } else {
        seq![s[0]] + replace_all(s.skip(1), pat, rep)
    }
}

/// The built-in token that stands for the clipboard's text.
pub open spec fn clipboard_token() -> Seq<char> {
    seq!['@', 'c', 'l', 'i', 'p', 'b', 'o', 'a', 'r', 'd']
}

/// `s` after replacing the tokens of the entries whose key has `len`
/// characters, among the first `n` entries, in their order.
pub open spec fn expand_level(s: Seq<char>, entries: Seq<(Seq<char>, Seq<char>)>, len: int, n: int) -> Seq<char>
    decreases n,
{
    if n <= 0 {
        s
    } else {
        let prev = expand_level(s, entries, len, n - 1);
        if entries[n - 1].0.len() == len {
            replace_all(prev, token_of(entries[n - 1].0), entries[n - 1].1)
        } else {
            prev
        }
    }
}

/// `s` after replacing the tokens of all keys of `len` characters or fewer,
/// longest keys first.
pub open spec fn expand_from(s: Seq<char>, entries: Seq<(Seq<char>, Seq<char>)>, len: int) -> Seq<char>
    decreases len + 1,
{
    if len < 0 {
        s
    } else {
        expand_from(expand_level(s, entries, len, entries.len() as int), entries, len - 1)
    }
}

/// Length of the longest key among the first `n` entries.
pub open spec fn longest_key(entries: Seq<(Seq<char>, Seq<char>)>, n: int) -> nat
    decreases n,
{
    if n <= 0 {
        0
    } else {
        let m = longest_key(entries, n - 1);
        if entries[n - 1].0.len() > m {
            entries[n - 1].0.len()
        } else {
            m
        }
    }
}

/// `s` with the token of every key replaced by its value, longest keys first.
pub open spec fn expand_params(s: Seq<char>, entries: Seq<(Seq<char>, Seq<char>)>) -> Seq<char> {
    expand_from(s, entries, longest_key(entries, entries.len() as int) as int)
}

/// The text that is sent for input `t`: the clipboard token first, then the
/// parameters.
pub open spec fn expanded(t: Seq<char>, entries: Seq<(Seq<char>, Seq<char>)>, clipboard: Seq<char>) -> Seq<char> {
    expand_params(replace_all(t, clipboard_token(), clipboard), entries)
}

/// Replaces each occurrence of `pat` in `s` by `rep`.
pub fn replace_chars(s: &Vec<char>, pat: &Vec<char>, rep: &Vec<char>) -> (r: Vec<char>)
    requires
        pat@.len() > 0,
    ensures
        r@ == replace_all(s@, pat@, rep@),
{
    let mut out: Vec<char> = Vec::new();
    let mut i: usize = 0;
    let n = s.len();
    assert(s@.skip(0) =~= s@);
    assert(out@ + replace_all(s@, pat@, rep@) =~= replace_all(s@, pat@, rep@));
    while i < n
        invariant
            n == s@.len(),
            pat@.len() > 0,
            i <= n,
            out@ + replace_all(s@.skip(i as int), pat@, rep@) == replace_all(s@, pat@, rep@),
        decreases n - i,
    {
        let ghost rest = s@.skip(i as int);
        if occurs_at(s, pat, i) {
            assert(rest.take(pat@.len() as int) == s@.subrange(i as int, i + pat@.len()));
            assert(rest.skip(pat@.len() as int) == s@.skip(i + pat@.len()));
            let ghost before = out@;
            push_all(&mut out, rep);
            assert(out@ + replace_all(s@.skip(i + pat@.len()), pat@, rep@) == before + (rep@
                + replace_all(rest.skip(pat@.len() as int), pat@, rep@)));
            i = i + pat.len();
        } else {
            proof {
                if rest.len() >= pat@.len() {
                    assert(rest.take(pat@.len() as int) == s@.subrange(i as int, i + pat@.len()));
                }
            }
            assert(rest.skip(1) == s@.skip(i + 1));
            let ghost before = out@;
            out.push(s[i]);
            proof {
                if rest.len() < pat@.len() {
                    lemma_replace_short(rest, pat@, rep@);
                    lemma_replace_short(rest.skip(1), pat@, rep@);
                    assert(rest == seq![rest[0]] + rest.skip(1));
                }
            }
            assert(out@ + replace_all(s@.skip(i + 1), pat@, rep@) == before + (seq![rest[0]]
                + replace_all(rest.skip(1), pat@, rep@)));
            i = i + 1;
        }
    }
    assert(s@.skip(n as int) == Seq::<char>::empty());
    assert(out@ + Seq::<char>::empty() == out@);
    out
}

proof fn lemma_replace_short(s: Seq<char>, pat: Seq<char>, rep: Seq<char>)
    requires
        s.len() < pat.len(),
    ensures
        replace_all(s, pat, rep) == s,
{
}

/// A text without `pat` is left as it is.
pub proof fn lemma_replace_absent(s: Seq<char>, pat: Seq<char>, rep: Seq<char>)
    requires
        !occurs_in(s, pat),
    ensures
        replace_all(s, pat, rep) == s,
    decreases s.len(),
{
    if pat.len() > 0 && s.len() >= pat.len() {
        assert(s.subrange(0, 0 + pat.len() as int) == s.take(pat.len() as int));
        assert(s.subrange(0, 0 + pat.len() as int) != pat);
        let t = s.skip(1);
        assert forall|i: int| 0 <= i && i + pat.len() <= t.len() implies #[trigger] t.subrange(
            i,
            i + pat.len(),
        ) != pat by {
            assert(t.subrange(i, i + pat.len()) == s.subrange(i + 1, i + 1 + pat.len()));
        }
        lemma_replace_absent(t, pat, rep);
        assert(s == seq![s[0]] + t);
    }
}

/// No token of any key occurs in `s`.
pub open spec fn no_param_tokens(s: Seq<char>, entries: Seq<(Seq<char>, Seq<char>)>) -> bool {
    forall|i: int| 0 <= i < entries.len() ==> !occurs_in(s, token_of(#[trigger] entries[i].0))
}

proof fn lemma_level_absent(s: Seq<char>, entries: Seq<(Seq<char>, Seq<char>)>, len: int, n: int)
    requires
        no_param_tokens(s, entries),
        n <= entries.len(),
    ensures
        expand_level(s, entries, len, n) == s,
    decreases n,
{
    if n > 0 {
        lemma_level_absent(s, entries, len, n - 1);
        let _ = entries[n - 1].0;
        if entries[n - 1].0.len() == len {
            lemma_replace_absent(s, token_of(entries[n - 1].0), entries[n - 1].1);
        }
    }
}

proof fn lemma_expand_absent(s: Seq<char>, entries: Seq<(Seq<char>, Seq<char>)>, len: int)
    requires
        no_param_tokens(s, entries),
    ensures
        expand_from(s, entries, len) == s,
    decreases len + 1,
{
    if len >= 0 {
        lemma_level_absent(s, entries, len, entries.len() as int);
        lemma_expand_absent(s, entries, len - 1);
    }
}

/// Expanding again changes nothing once the first expansion left no
/// placeholder token behind.
pub proof fn lemma_expand_idempotent(
    t: Seq<char>,
    entries: Seq<(Seq<char>, Seq<char>)>,
    clipboard: Seq<char>,
)
    requires
        !occurs_in(expanded(t, entries, clipboard), clipboard_token()),
        no_param_tokens(expanded(t, entries, clipboard), entries),
    ensures
        expanded(expanded(t, entries, clipboard), entries, clipboard) == expanded(
            t,
            entries,
            clipboard,
        ),
{
    let r = expanded(t, entries, clipboard);
    lemma_replace_absent(r, clipboard_token(), clipboard);
    lemma_expand_absent(r, entries, longest_key(entries, entries.len() as int) as int);
}

/// Whether `text` holds the clipboard token, so that the clipboard needs to be
/// read.
pub fn mentions_clipboard(text: &str) -> (r: bool)
    ensures
        r == occurs_in(text@, clipboard_token()),
{
    let t = chars_of(text);
    let tok: Vec<char> = vec!['@', 'c', 'l', 'i', 'p', 'b', 'o', 'a', 'r', 'd'];
    assert(tok@ == clipboard_token());
    contains_chars(&t, &tok)
}

/// Replaces each clipboard token of `text` by `clipboard`.
pub fn expand_builtins(text: &str, clipboard: &str) -> (r: String)
    ensures
        r@ == replace_all(text@, clipboard_token(), clipboard@),
{
    let t = chars_of(text);
    let tok: Vec<char> = vec!['@', 'c', 'l', 'i', 'p', 'b', 'o', 'a', 'r', 'd'];
    assert(tok@ == clipboard_token());
    let c = chars_of(clipboard);
    let r = replace_chars(&t, &tok, &c);
    string_of(&r)
}

fn longest(params: &ParamMap) -> (r: usize)
    ensures
        r == longest_key(params@, params@.len() as int),
{
    let mut m: usize = 0;
    let mut i: usize = 0;
    while i < params.len()
        invariant
            i <= params@.len(),
            m == longest_key(params@, i as int),
        decreases params@.len() - i,
    {
        let (k, _v) = params.entry(i);
        let kc = chars_of(k.as_str());
        if kc.len() > m {
            m = kc.len();
        }
        i = i + 1;
    }
    m
}

/// Expands the placeholders of `text`: each clipboard token becomes
/// `clipboard`, then each `@key` becomes the value of `key`, keys taken
/// longest first, and in their order among keys of one length.
pub fn expand_placeholders(text: &str, params: &ParamMap, clipboard: &str) -> (r: String)
    ensures
        r@ == expanded(text@, params@, clipboard@),
{
    let first = expand_builtins(text, clipboard);
    let mut s = chars_of(first.as_str());
    let top = longest(params);
    let ghost start = s@;
    let mut level: usize = top;
    let mut more: bool = true;
    while more
        invariant
            level <= top,
            expand_from(start, params@, top as int) == expand_from(
                s@,
                params@,
                if more {
                    level as int
                } else {
                    -1
                },
            ),
        decreases level + if more {
            1int
        } else {
            0int
        },
    {
        let ghost at_level = s@;
        let mut i: usize = 0;
        while i < params.len()
            invariant
                i <= params@.len(),
                s@ == expand_level(at_level, params@, level as int, i as int),
            decreases params@.len() - i,
        {
            let (k, v) = params.entry(i);
            let kc = chars_of(k.as_str());
            if kc.len() == level {
                let mut tok: Vec<char> = vec!['@'];
                push_all(&mut tok, &kc);
                assert(tok@ == token_of(params@[i as int].0));
                let vc = chars_of(v.as_str());
                s = replace_chars(&s, &tok, &vc);
            }
            i = i + 1;
        }
        if level == 0 {
            more = false;
        } else {
            level = level - 1;
        }
    }
    string_of(&s)
}

} // verus!
