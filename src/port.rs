//! Port numbers: reading one from a command line, and writing one in a URL.

use vstd::prelude::*;
use crate::text::{chars_from, chars_of, is_whitespace, is_ws, occurs_at, push_all, same_chars, string_of};

verus! {

/// Words of `s` (maximal runs of non-whitespace) after reading its first `n`
/// characters: the words already closed, and the word being read.
pub open spec fn word_state(s: Seq<char>, n: int) -> (Seq<Seq<char>>, Seq<char>)
    decreases n,
{
    if n <= 0 {
        (seq![], seq![])
    } else {
        let (done, cur) = word_state(s, n - 1);
        if is_ws(s[n - 1]) {
            if cur.len() > 0 {
                (done.push(cur), seq![])
            } else {
                (done, seq![])
            }
        } else {
            (done, cur.push(s[n - 1]))
        }
    }
}

/// The whitespace-separated words of `s`, in order.
pub open spec fn words(s: Seq<char>) -> Seq<Seq<char>> {
    let (done, cur) = word_state(s, s.len() as int);
    if cur.len() > 0 {
        done.push(cur)
    } else {
        done
    }
}

pub open spec fn is_digit(c: char) -> bool {
    '0' <= c && c <= '9'
}

/// Value of a decimal digit character.
pub open spec fn digit_value(c: char) -> nat {
    ((c as u32) - ('0' as u32)) as nat
}

/// Value of a string of decimal digits, most significant first.
pub open spec fn digits_value(s: Seq<char>) -> nat
    decreases s.len(),
{
    if s.len() == 0 {
        0
    } else {
        digits_value(s.drop_last()) * 10 + digit_value(s.last())
    }
}

/// The digits of an unsigned number as `str::parse` reads them: an optional
/// leading `+` is dropped.
pub open spec fn unsigned_digits(s: Seq<char>) -> Seq<char> {
    if s.len() > 0 && s[0] == '+' {
        s.skip(1)
    } else {
        s
    }
}

/// What `s.parse::<u16>()` yields: a value when `s` is an optional `+`
/// followed by one or more decimal digits whose value fits in 16 bits.
pub open spec fn parse_u16_spec(s: Seq<char>) -> Option<u16> {
    let d = unsigned_digits(s);
    if d.len() > 0 && (forall|i: int| 0 <= i < d.len() ==> is_digit(#[trigger] d[i]))
        && digits_value(d) <= 65535 {
        Some(digits_value(d) as u16)
    } else {
        None
    }
}

pub open spec fn port_flag() -> Seq<char> {
    seq!['-', '-', 'p', 'o', 'r', 't']
}

pub open spec fn port_assign() -> Seq<char> {
    port_flag().push('=')
}

/// The port named by the words from index `i` on: the first word that is
/// `--port` followed by a word that parses, or `--port=<value>` whose value
/// parses.
pub open spec fn port_in_words(ws: Seq<Seq<char>>, i: int) -> Option<u16>
    decreases ws.len() - i,
{
    if i < 0 || i >= ws.len() {
        None
    } else if ws[i] == port_flag() && i + 1 < ws.len() && parse_u16_spec(ws[i + 1]) is Some {
        parse_u16_spec(ws[i + 1])
    } else if ws[i] != port_flag() && ws[i].len() >= 7 && ws[i].take(7) == port_assign()
        && parse_u16_spec(ws[i].skip(7)) is Some {
        parse_u16_spec(ws[i].skip(7))
    } else {
        port_in_words(ws, i + 1)
    }
}

/// The port that a command line gives with `--port <n>` or `--port=<n>`.
pub open spec fn cmdline_port(s: Seq<char>) -> Option<u16> {
    port_in_words(words(s), 0)
}

/// The character sequences held by a vector of character vectors.
pub open spec fn views(v: Seq<Vec<char>>) -> Seq<Seq<char>> {
    v.map_values(|w: Vec<char>| w@)
}

/// The decimal digit character for `d` (below ten).
pub open spec fn digit_char(d: nat) -> char {
    if d == 0 {
        '0'
    } else if d == 1 {
        '1'
    } else if d == 2 {
        '2'
    } else if d == 3 {
        '3'
    } else if d == 4 {
        '4'
    } else if d == 5 {
        '5'
    } else if d == 6 {
        '6'
    } else if d == 7 {
        '7'
    } else if d == 8 {
        '8'
    } else {
        '9'
    }
}

/// The decimal form of `n`, without leading zeros.
pub open spec fn decimal(n: nat) -> Seq<char>
    decreases n,
{
    if n < 10 {
        seq![digit_char(n)]
    } else {
        decimal(n / 10).push(digit_char(n % 10))
    }
}

fn digit_to_char(d: u16) -> (r: char)
    requires
        d < 10,
    ensures
        r == digit_char(d as nat),
{
    if d == 0 {
        '0'
    } else if d == 1 {
        '1'
    } else if d == 2 {
        '2'
    } else if d == 3 {
        '3'
    } else if d == 4 {
        '4'
    } else if d == 5 {
        '5'
    } else if d == 6 {
        '6'
    } else if d == 7 {
        '7'
    } else if d == 8 {
        '8'
    } else {
        '9'
    }
}

/// The decimal digits of `n`.
pub fn decimal_chars(n: u16) -> (r: Vec<char>)
    ensures
        r@ == decimal(n as nat),
    decreases n,
{
    if n < 10 {
        vec![digit_to_char(n)]
    } else {
        let mut r = decimal_chars(n / 10);
        r.push(digit_to_char(n % 10));
        r
    }
}

/// The base URL of the server listening on `port` on this machine.
pub fn base_url(port: u16) -> (r: String)
    ensures
        r@ == "http://localhost:"@ + decimal(port as nat),
{
    let mut r: Vec<char> = vec![
        'h', 't', 't', 'p', ':', '/', '/', 'l', 'o', 'c', 'a', 'l', 'h', 'o', 's', 't', ':'
    ];
    proof {
        reveal_strlit("http://localhost:");
    }
    assert(r@ == "http://localhost:"@);
    let d = decimal_chars(port);
    push_all(&mut r, &d);
    string_of(&r)
}

/// Splits a character sequence into its whitespace-separated words.
fn split_words(s: &Vec<char>) -> (r: Vec<Vec<char>>)
    ensures
        views(r@) == words(s@),
{
    let mut done: Vec<Vec<char>> = Vec::new();
    let mut cur: Vec<char> = Vec::new();
    let mut i: usize = 0;
    while i < s.len()
        invariant
            i <= s@.len(),
            views(done@) == word_state(s@, i as int).0,
            cur@ == word_state(s@, i as int).1,
        decreases s.len() - i,
    {
        let c = s[i];
        if is_whitespace(c) {
            if cur.len() > 0 {
                let ghost before = views(done@);
                done.push(cur);
                assert(views(done@) =~= before.push(word_state(s@, i as int).1));
                cur = Vec::new();
            }
        } else {
            cur.push(c);
        }
        i = i + 1;
    }
    if cur.len() > 0 {
        let ghost before = views(done@);
        done.push(cur);
        assert(views(done@) =~= before.push(word_state(s@, s@.len() as int).1));
    }
    done
}

/// Reads an unsigned 16-bit number as `str::parse::<u16>` does.
pub fn parse_u16(s: &Vec<char>) -> (r: Option<u16>)
    ensures
        r == parse_u16_spec(s@),
{
    let start: usize = if s.len() > 0 && s[0] == '+' { 1 } else { 0 };
    let ghost d = unsigned_digits(s@);
    assert(d == s@.skip(start as int));
    if start >= s.len() {
        return None;
    }
    let mut i: usize = start;
    let mut value: u32 = 0;
    while i < s.len()
        invariant
            start <= i <= s@.len(),
            start < s@.len(),
            d == unsigned_digits(s@),
            d == s@.skip(start as int),
            forall|k: int| 0 <= k < i - start ==> is_digit(#[trigger] d[k]),
            value as nat == if digits_value(d.take(i - start)) < 65536 {
                digits_value(d.take(i - start))
            } else {
                65536
            },
        decreases s.len() - i,
    {
        let c = s[i];
        if !('0' <= c && c <= '9') {
            assert(d[i - start] == c);
            assert(!is_digit(d[i - start]));
            return None;
        }
        let ghost prev = d.take(i - start);
        assert(d.take(i - start + 1).drop_last() == prev);
        assert(d.take(i - start + 1).last() == c);
        let v = value * 10 + ((c as u32) - ('0' as u32));
        value = if v > 65536 { 65536 } else { v };
        i = i + 1;
    }
    assert(d.take(i - start) == d);
    if value > 65535 {
        None
    } else {
        Some(value as u16)
    }
}

/// The port that a command line names with `--port <n>` or `--port=<n>`;
/// the first such word whose value parses wins.
pub fn extract_port_from_cmdline(cmdline: &str) -> (r: Option<u16>)
    ensures
        r == cmdline_port(cmdline@),
{
    let chars = chars_of(cmdline);
    let ws = split_words(&chars);
    let flag: Vec<char> = vec!['-', '-', 'p', 'o', 'r', 't'];
    let assign: Vec<char> = vec!['-', '-', 'p', 'o', 'r', 't', '='];
    assert(flag@ == port_flag());
    assert(assign@ == port_assign());
    let mut i: usize = 0;
    while i < ws.len()
        invariant
            i <= ws@.len(),
            views(ws@) == words(cmdline@),
            flag@ == port_flag(),
            assign@ == port_assign(),
            port_in_words(views(ws@), i as int) == cmdline_port(cmdline@),
        decreases ws.len() - i,
    {
        assert(views(ws@)[i as int] == ws@[i as int]@);
        if same_chars(&ws[i], &flag) {
            if i + 1 < ws.len() {
                assert(views(ws@)[i + 1] == ws@[i + 1]@);
                let p = parse_u16(&ws[i + 1]);
                if p.is_some() {
                    return p;
                }
            }
        } else if occurs_at(&ws[i], &assign, 0) {
            assert(ws@[i as int]@.subrange(0, 7) == ws@[i as int]@.take(7));
            let rest = chars_from(&ws[i], 7);
            let p = parse_u16(&rest);
            if p.is_some() {
                return p;
            }
        }
        i = i + 1;
    }
    None
}

proof fn lemma_digit_char(d: nat)
    requires
        d < 10,
    ensures
        is_digit(digit_char(d)),
        digit_value(digit_char(d)) == d,
        !is_ws(digit_char(d)),
{
}

proof fn lemma_decimal(n: nat)
    ensures
        decimal(n).len() > 0,
        forall|i: int| 0 <= i < decimal(n).len() ==> is_digit(#[trigger] decimal(n)[i]),
        forall|i: int| 0 <= i < decimal(n).len() ==> !is_ws(#[trigger] decimal(n)[i]),
        digits_value(decimal(n)) == n,
    decreases n,
{
    assert(digits_value(Seq::<char>::empty()) == 0);
    if n < 10 {
        lemma_digit_char(n);
        assert(decimal(n).drop_last() =~= Seq::<char>::empty());
    } else {
        lemma_decimal(n / 10);
        lemma_digit_char(n % 10);
        assert(decimal(n).drop_last() == decimal(n / 10));
        assert(decimal(n).last() == digit_char(n % 10));
        assert(n == (n / 10) * 10 + n % 10);
    }
}

proof fn lemma_parse_decimal(p: u16)
    ensures
        parse_u16_spec(decimal(p as nat)) == Some(p),
{
    lemma_decimal(p as nat);
    assert(unsigned_digits(decimal(p as nat)) == decimal(p as nat));
}

proof fn lemma_word_state_prefix(a: Seq<char>, b: Seq<char>, n: int)
    requires
        0 <= n <= a.len(),
    ensures
        word_state(a + b, n) == word_state(a, n),
    decreases n,
{
    if n > 0 {
        lemma_word_state_prefix(a, b, n - 1);
        assert((a + b)[n - 1] == a[n - 1]);
    }
}

proof fn lemma_word_state_run(a: Seq<char>, w: Seq<char>, k: int)
    requires
        word_state(a, a.len() as int).1.len() == 0,
        forall|i: int| 0 <= i < w.len() ==> !is_ws(#[trigger] w[i]),
        0 <= k <= w.len(),
    ensures
        word_state(a + w, a.len() + k) == (word_state(a, a.len() as int).0, w.take(k)),
    decreases k,
{
    if k == 0 {
        lemma_word_state_prefix(a, w, a.len() as int);
        assert(w.take(0) =~= Seq::<char>::empty());
    } else {
        lemma_word_state_run(a, w, k - 1);
        assert((a + w)[a.len() + k - 1] == w[k - 1]);
        assert(w.take(k - 1).push(w[k - 1]) =~= w.take(k));
    }
}

proof fn lemma_words_last(a: Seq<char>, w: Seq<char>)
    requires
        word_state(a, a.len() as int).1.len() == 0,
        forall|i: int| 0 <= i < w.len() ==> !is_ws(#[trigger] w[i]),
        w.len() > 0,
    ensures
        words(a + w) == word_state(a, a.len() as int).0.push(w),
{
    lemma_word_state_run(a, w, w.len() as int);
    assert(w.take(w.len() as int) =~= w);
}

/// The word that names the program in the command lines of the round-trip law.
pub open spec fn tool_word() -> Seq<char> {
    seq!['t', 'o', 'o', 'l']
}

/// A port written as `--port <p>` or `--port=<p>` after a program name is
/// read back as `p`, for every 16-bit `p`.
pub proof fn lemma_port_round_trip(p: u16)
    ensures
        cmdline_port(tool_word() + seq![' '] + port_flag() + seq![' '] + decimal(p as nat)) == Some(p),
        cmdline_port(tool_word() + seq![' '] + port_assign() + decimal(p as nat)) == Some(p),
{
    let d = decimal(p as nat);
    lemma_decimal(p as nat);
    lemma_parse_decimal(p);
    let a1 = seq!['t', 'o', 'o', 'l', ' ', '-', '-', 'p', 'o', 'r', 't', ' '];
    assert(word_state(a1, 0).0 =~~= Seq::<Seq<char>>::empty());
    assert(word_state(a1, 0).1 =~= Seq::<char>::empty());
    assert(word_state(a1, 1).0 =~~= Seq::<Seq<char>>::empty());
    assert(word_state(a1, 1).1 =~= seq!['t']);
    assert(word_state(a1, 2).0 =~~= Seq::<Seq<char>>::empty());
    assert(word_state(a1, 2).1 =~= seq!['t', 'o']);
    assert(word_state(a1, 3).0 =~~= Seq::<Seq<char>>::empty());
    assert(word_state(a1, 3).1 =~= seq!['t', 'o', 'o']);
    assert(word_state(a1, 4).0 =~~= Seq::<Seq<char>>::empty());
    assert(word_state(a1, 4).1 =~= seq!['t', 'o', 'o', 'l']);
    assert(word_state(a1, 5).0 =~~= seq![seq!['t', 'o', 'o', 'l']]);
    assert(word_state(a1, 5).1 =~= Seq::<char>::empty());
    assert(word_state(a1, 6).0 =~~= seq![seq!['t', 'o', 'o', 'l']]);
    assert(word_state(a1, 6).1 =~= seq!['-']);
    assert(word_state(a1, 7).0 =~~= seq![seq!['t', 'o', 'o', 'l']]);
    assert(word_state(a1, 7).1 =~= seq!['-', '-']);
    assert(word_state(a1, 8).0 =~~= seq![seq!['t', 'o', 'o', 'l']]);
    assert(word_state(a1, 8).1 =~= seq!['-', '-', 'p']);
    assert(word_state(a1, 9).0 =~~= seq![seq!['t', 'o', 'o', 'l']]);
    assert(word_state(a1, 9).1 =~= seq!['-', '-', 'p', 'o']);
    assert(word_state(a1, 10).0 =~~= seq![seq!['t', 'o', 'o', 'l']]);
    assert(word_state(a1, 10).1 =~= seq!['-', '-', 'p', 'o', 'r']);
    assert(word_state(a1, 11).0 =~~= seq![seq!['t', 'o', 'o', 'l']]);
    assert(word_state(a1, 11).1 =~= seq!['-', '-', 'p', 'o', 'r', 't']);
    assert(word_state(a1, 12).0 =~~= seq![seq!['t', 'o', 'o', 'l'], seq!['-', '-', 'p', 'o', 'r', 't']]);
    assert(word_state(a1, 12).1 =~= Seq::<char>::empty());
    assert(a1 =~= tool_word() + seq![' '] + port_flag() + seq![' ']);
    lemma_words_last(a1, d);
    let ws1 = words(a1 + d);
    assert(ws1 == seq![tool_word(), port_flag(), d]);
    assert(ws1[0] != port_flag());
    assert(port_in_words(ws1, 0) == port_in_words(ws1, 1));
    let a2 = seq!['t', 'o', 'o', 'l', ' '];
    assert(word_state(a2, 0).0 =~~= Seq::<Seq<char>>::empty());
    assert(word_state(a2, 0).1 =~= Seq::<char>::empty());
    assert(word_state(a2, 1).0 =~~= Seq::<Seq<char>>::empty());
    assert(word_state(a2, 1).1 =~= seq!['t']);
    assert(word_state(a2, 2).0 =~~= Seq::<Seq<char>>::empty());
    assert(word_state(a2, 2).1 =~= seq!['t', 'o']);
    assert(word_state(a2, 3).0 =~~= Seq::<Seq<char>>::empty());
    assert(word_state(a2, 3).1 =~= seq!['t', 'o', 'o']);
    assert(word_state(a2, 4).0 =~~= Seq::<Seq<char>>::empty());
    assert(word_state(a2, 4).1 =~= seq!['t', 'o', 'o', 'l']);
    assert(word_state(a2, 5).0 =~~= seq![seq!['t', 'o', 'o', 'l']]);
    assert(word_state(a2, 5).1 =~= Seq::<char>::empty());
    assert(a2 =~= tool_word() + seq![' ']);
    let w2 = port_assign() + d;
    assert forall|i: int| 0 <= i < w2.len() implies !is_ws(#[trigger] w2[i]) by {
        if i >= 7 {
            assert(w2[i] == d[i - 7]);
        }
    }
    lemma_words_last(a2, w2);
    assert(a2 + w2 =~= tool_word() + seq![' '] + port_assign() + d);
    let ws2 = words(a2 + w2);
    assert(ws2 == seq![tool_word(), w2]);
    assert(ws2[1].len() != port_flag().len());
    assert(ws2[1].take(7) =~= port_assign());
    assert(ws2[1].skip(7) =~= d);
    assert(port_in_words(ws2, 0) == port_in_words(ws2, 1));
}

} // verus!
