//! User parameters given as `key=value` arguments, usable as `@key`
//! placeholders.

use vstd::prelude::*;
use crate::text::{chars_before, chars_from, chars_of, is_whitespace, is_ws, same_chars, string_of, strs};

verus! {

/// `s` without its leading whitespace.
pub open spec fn trim_start(s: Seq<char>) -> Seq<char>
    decreases s.len(),
{
    if s.len() > 0 && is_ws(s[0]) {
        trim_start(s.skip(1))
    } else {
        s
    }
}

/// `s` without its trailing whitespace.
pub open spec fn trim_end(s: Seq<char>) -> Seq<char>
    decreases s.len(),
{
    if s.len() > 0 && is_ws(s.last()) {
        trim_end(s.drop_last())
    } else {
        s
    }
}

/// `s` without leading and trailing whitespace, as `str::trim` gives it.
pub open spec fn trim(s: Seq<char>) -> Seq<char> {
    trim_end(trim_start(s))
}

/// Position of the first `c` in `s` at or after `from`.
pub open spec fn first_index(s: Seq<char>, c: char, from: int) -> Option<int>
    decreases s.len() - from,
{
    if from < 0 || from >= s.len() {
        None
    } else if s[from] == c {
        Some(from)
    } else {
        first_index(s, c, from + 1)
    }
}

/// Key and value of one `key=value` argument, split at the first `=` and
/// trimmed; none when there is no `=` or the key is empty.
pub open spec fn split_param(s: Seq<char>) -> Option<(Seq<char>, Seq<char>)> {
    match first_index(s, '=', 0) {
        None => None,
        Some(e) => {
            let key = trim(s.take(e));
            if key.len() == 0 {
                None
            } else {
                Some((key, trim(s.skip(e + 1))))
            }
        },
    }
}

/// Index of the entry with key `k`, from `i` on.
pub open spec fn index_of_key(entries: Seq<(Seq<char>, Seq<char>)>, k: Seq<char>, i: int) -> Option<
    int,
>
    decreases entries.len() - i,
{
    if i < 0 || i >= entries.len() {
        None
    } else if entries[i].0 == k {
        Some(i)
    } else {
        index_of_key(entries, k, i + 1)
    }
}

/// The entries after setting `k` to `v`: an existing entry is overwritten in
/// place, a new key is added at the end.
pub open spec fn inserted(entries: Seq<(Seq<char>, Seq<char>)>, k: Seq<char>, v: Seq<char>) -> Seq<
    (Seq<char>, Seq<char>),
> {
    match index_of_key(entries, k, 0) {
        Some(i) => entries.update(i, (k, v)),
        None => entries.push((k, v)),
    }
}

/// The entries made from the first `n` arguments.
pub open spec fn params_of(raw: Seq<Seq<char>>, n: int) -> Seq<(Seq<char>, Seq<char>)>
    decreases n,
{
    if n <= 0 {
        seq![]
    } else {
        let m = params_of(raw, n - 1);
        match split_param(raw[n - 1]) {
            Some((k, v)) => inserted(m, k, v),
            None => m,
        }
    }
}

/// The keys are unique.
pub open spec fn keys_unique(entries: Seq<(Seq<char>, Seq<char>)>) -> bool {
    forall|i: int, j: int|
        0 <= i < j < entries.len() ==> (#[trigger] entries[i]).0 != (#[trigger] entries[j]).0
}

/// Parameters by key, in the order their keys first appeared.
pub struct ParamMap {
    entries: Vec<(String, String)>,
}

impl View for ParamMap {
    type V = Seq<(Seq<char>, Seq<char>)>;

    closed spec fn view(&self) -> Seq<(Seq<char>, Seq<char>)> {
        self.entries@.map_values(|e: (String, String)| (e.0@, e.1@))
    }
}

impl ParamMap {
    /// No parameters.
    pub fn new() -> (r: ParamMap)
        ensures
            r@ == Seq::<(Seq<char>, Seq<char>)>::empty(),
    {
        let r = ParamMap { entries: Vec::new() };
        assert(r@ =~= Seq::<(Seq<char>, Seq<char>)>::empty());
        r
    }

    /// Number of parameters.
    pub fn len(&self) -> (r: usize)
        ensures
            r == self@.len(),
    {
        self.entries.len()
    }

    /// Whether there are no parameters.
    pub fn is_empty(&self) -> (r: bool)
        ensures
            r == (self@.len() == 0),
    {
        self.entries.len() == 0
    }

    fn find(&self, key: &Vec<char>) -> (r: Option<usize>)
        ensures
            r matches Some(i) ==> index_of_key(self@, key@, 0) == Some(i as int) && i
                < self@.len(),
            r is None ==> index_of_key(self@, key@, 0) is None,
    {
        let mut i: usize = 0;
        while i < self.entries.len()
            invariant
                i <= self@.len(),
                self@.len() == self.entries@.len(),
                index_of_key(self@, key@, 0) == index_of_key(self@, key@, i as int),
            decreases self.entries.len() - i,
        {
            let k = chars_of(self.entries[i].0.as_str());
            assert(k@ == self@[i as int].0);
            if same_chars(&k, key) {
                return Some(i);
            }
            i = i + 1;
        }
        None
    }

    /// The value of `key`, if it is set.
    pub fn get(&self, key: &str) -> (r: Option<&String>)
        ensures
            match index_of_key(self@, key@, 0) {
                Some(i) => r matches Some(v) && v@ == self@[i].1,
                None => r is None,
            },
    {
        let k = chars_of(key);
        match self.find(&k) {
            Some(i) => Some(&self.entries[i].1),
            None => None,
        }
    }

    /// Key and value of the `i`-th parameter.
    pub fn entry(&self, i: usize) -> (r: (&String, &String))
        requires
            i < self@.len(),
        ensures
            r.0@ == self@[i as int].0,
            r.1@ == self@[i as int].1,
    {
        (&self.entries[i].0, &self.entries[i].1)
    }

    /// Sets `key` to `value`.
    pub fn insert(&mut self, key: String, value: String)
        requires
            keys_unique(old(self)@),
        ensures
            final(self)@ == inserted(old(self)@, key@, value@),
            keys_unique(final(self)@),
    {
        let k = chars_of(key.as_str());
        let ghost kv = key@;
        let ghost vv = value@;
        match self.find(&k) {
            Some(i) => {
                self.entries.set(i, (key, value));
                assert(self@ =~= old(self)@.update(i as int, (kv, vv)));
                proof {
                    lemma_found_key(old(self)@, kv, 0);
                    assert(forall|j: int| 0 <= j < self@.len() ==> (#[trigger] self@[j]).0 == old(self)@[j].0);
                }
            },
            None => {
                self.entries.push((key, value));
                assert(self@ =~= old(self)@.push((kv, vv)));
                proof {
                    lemma_absent_key(old(self)@, kv, 0);
                }
            },
        }
    }
}

proof fn lemma_found_key(entries: Seq<(Seq<char>, Seq<char>)>, k: Seq<char>, i: int)
    requires
        0 <= i,
    ensures
        index_of_key(entries, k, i) matches Some(j) ==> i <= j < entries.len() && entries[j].0 == k,
    decreases entries.len() - i,
{
    if i < entries.len() && entries[i].0 != k {
        lemma_found_key(entries, k, i + 1);
    }
}

proof fn lemma_absent_key(entries: Seq<(Seq<char>, Seq<char>)>, k: Seq<char>, i: int)
    requires
        0 <= i,
        index_of_key(entries, k, i) is None,
    ensures
        forall|j: int| i <= j < entries.len() ==> (#[trigger] entries[j]).0 != k,
    decreases entries.len() - i,
{
    if i < entries.len() {
        lemma_absent_key(entries, k, i + 1);
    }
}

/// `s` without leading and trailing whitespace.
fn trimmed(s: &Vec<char>) -> (r: Vec<char>)
    ensures
        r@ == trim(s@),
{
    let mut a: usize = 0;
    assert(s@.skip(0) == s@);
    while a < s.len() && is_whitespace(s[a])
        invariant
            a <= s@.len(),
            trim_start(s@) == trim_start(s@.skip(a as int)),
        decreases s.len() - a,
    {
        assert(s@.skip(a as int).skip(1) == s@.skip(a + 1));
        a = a + 1;
    }
    let rest = chars_from(s, a);
    assert(trim_start(rest@) == rest@);
    let mut b: usize = rest.len();
    assert(rest@.take(b as int) == rest@);
    while b > 0 && is_whitespace(rest[b - 1])
        invariant
            b <= rest@.len(),
            trim_end(rest@) == trim_end(rest@.take(b as int)),
        decreases b,
    {
        assert(rest@.take(b as int).drop_last() == rest@.take(b - 1));
        b = b - 1;
    }
    chars_before(&rest, b)
}

/// Key and value of one `key=value` argument.
fn split_one(s: &Vec<char>) -> (r: Option<(Vec<char>, Vec<char>)>)
    ensures
        match split_param(s@) {
            Some((k, v)) => r matches Some((rk, rv)) && rk@ == k && rv@ == v,
            None => r is None,
        },
{
    let mut e: usize = 0;
    while e < s.len() && s[e] != '='
        invariant
            e <= s@.len(),
            first_index(s@, '=', 0) == first_index(s@, '=', e as int),
        decreases s.len() - e,
    {
        e = e + 1;
    }
    if e == s.len() {
        return None;
    }
    let key = trimmed(&chars_before(s, e));
    if key.len() == 0 {
        return None;
    }
    let value = trimmed(&chars_from(s, e + 1));
    Some((key, value))
}

/// Builds the parameter map from `key=value` arguments: each is split at
/// its first `=`, key and value are trimmed, arguments without `=` or with an
/// empty key are dropped, and a later value for a key replaces an earlier one.
pub fn parse_params(raw: &[String]) -> (r: ParamMap)
    ensures
        r@ == params_of(crate::text::strs(raw@), raw@.len() as int),
        keys_unique(r@),
{
    let ghost rs = crate::text::strs(raw@);
    let mut map = ParamMap::new();
    let mut i: usize = 0;
    while i < raw.len()
        invariant
            i <= raw@.len(),
            rs == crate::text::strs(raw@),
            map@ == params_of(rs, i as int),
            keys_unique(map@),
        decreases raw.len() - i,
    {
        let s = chars_of(raw[i].as_str());
        assert(s@ == rs[i as int]);
        match split_one(&s) {
            Some((k, v)) => {
                map.insert(string_of(&k), string_of(&v));
            },
            None => {},
        }
        i = i + 1;
    }
    map
}

/// `a` comes before `b` in lexicographic order of characters.
pub open spec fn lex_less(a: Seq<char>, b: Seq<char>) -> bool
    decreases a.len(),
{
    if a.len() == 0 {
        b.len() > 0
    } else if b.len() == 0 {
        false
    } else if a[0] != b[0] {
        a[0] < b[0]
    } else {
        lex_less(a.skip(1), b.skip(1))
    }
}

proof fn lemma_lex_total(a: Seq<char>, b: Seq<char>)
    ensures
        a != b ==> lex_less(a, b) || lex_less(b, a),
        !(lex_less(a, b) && lex_less(b, a)),
        !lex_less(a, a),
    decreases a.len(),
{
    if a.len() > 0 && b.len() > 0 && a[0] == b[0] {
        lemma_lex_total(a.skip(1), b.skip(1));
        if a != b {
            assert(a == seq![a[0]] + a.skip(1));
            assert(b == seq![b[0]] + b.skip(1));
        }
    }
    if a.len() > 0 {
        lemma_lex_total(a.skip(1), a.skip(1));
    }
    if a.len() == 0 && b.len() == 0 {
        assert(a == b);
    }
}

proof fn lemma_lex_trans(a: Seq<char>, b: Seq<char>, c: Seq<char>)
    requires
        lex_less(a, b),
        lex_less(b, c),
    ensures
        lex_less(a, c),
    decreases a.len(),
{
    if a.len() > 0 && b.len() > 0 && c.len() > 0 && a[0] == b[0] && b[0] == c[0] {
        lemma_lex_trans(a.skip(1), b.skip(1), c.skip(1));
    }
}

/// The placeholder names shown and matched: the built-in `clipboard` first,
/// then the parameter keys in ascending order.
pub open spec fn names_listed(names: Seq<Seq<char>>, entries: Seq<(Seq<char>, Seq<char>)>) -> bool {
    &&& names.len() == entries.len() + 1
    &&& names[0] == seq!['c', 'l', 'i', 'p', 'b', 'o', 'a', 'r', 'd']
    &&& forall|i: int, j: int| 1 <= i < j < names.len() ==> lex_less(#[trigger] names[i], #[trigger] names[j])
    &&& forall|j: int| 1 <= j < names.len() ==> is_key(entries, #[trigger] names[j])
    &&& forall|m: int| 0 <= m < entries.len() ==> names.skip(1).contains((#[trigger] entries[m]).0)
}

/// `s` is one of the keys.
pub open spec fn is_key(entries: Seq<(Seq<char>, Seq<char>)>, s: Seq<char>) -> bool {
    exists|m: int| 0 <= m < entries.len() && (#[trigger] entries[m]).0 == s
}

/// Whether `a` comes before `b`.
fn less_chars(a: &Vec<char>, b: &Vec<char>) -> (r: bool)
    ensures
        r == lex_less(a@, b@),
{
    let mut i: usize = 0;
    assert(a@.skip(0) == a@ && b@.skip(0) == b@);
    while i < a.len() && i < b.len() && a[i] == b[i]
        invariant
            i <= a@.len(),
            i <= b@.len(),
            lex_less(a@, b@) == lex_less(a@.skip(i as int), b@.skip(i as int)),
        decreases a.len() - i,
    {
        assert(a@.skip(i as int).skip(1) == a@.skip(i + 1));
        assert(b@.skip(i as int).skip(1) == b@.skip(i + 1));
        i = i + 1;
    }
    if i == a.len() {
        i < b.len()
    } else if i == b.len() {
        false
    } else {
        a[i] < b[i]
    }
}

/// Each sequence comes before the next.
pub open spec fn strictly_sorted(v: Seq<Seq<char>>) -> bool {
    forall|x: int, y: int| 0 <= x < y < v.len() ==> lex_less(#[trigger] v[x], #[trigger] v[y])
}

/// Inserts `k` into a sorted vector that does not hold it, keeping it sorted.
fn insert_sorted(sorted: &mut Vec<String>, k: &Vec<char>)
    requires
        strictly_sorted(strs(old(sorted)@)),
        !strs(old(sorted)@).contains(k@),
    ensures
        strictly_sorted(strs(final(sorted)@)),
        strs(final(sorted)@).len() == strs(old(sorted)@).len() + 1,
        strs(final(sorted)@).contains(k@),
        forall|x: int|
            0 <= x < strs(old(sorted)@).len() ==> strs(final(sorted)@).contains(
                #[trigger] strs(old(sorted)@)[x],
            ),
        forall|j: int|
            0 <= j < strs(final(sorted)@).len() ==> #[trigger] strs(final(sorted)@)[j] == k@
                || strs(old(sorted)@).contains(strs(final(sorted)@)[j]),
{
    let ghost old_v = strs(sorted@);
    let mut p: usize = 0;
    while p < sorted.len() && !less_chars(k, &chars_of(sorted[p].as_str()))
        invariant
            p <= sorted@.len(),
            old_v == strs(sorted@),
            forall|x: int| 0 <= x < p ==> !lex_less(k@, #[trigger] old_v[x]),
        decreases sorted.len() - p,
    {
        p = p + 1;
    }
    proof {
        assert forall|x: int| 0 <= x < p implies lex_less(#[trigger] old_v[x], k@) by {
            lemma_lex_total(old_v[x], k@);
            assert(old_v[x] != k@);
        }
        assert forall|x: int| p <= x < old_v.len() implies lex_less(k@, #[trigger] old_v[x]) by {
            if x > p {
                lemma_lex_trans(k@, old_v[p as int], old_v[x]);
            }
        }
    }
    sorted.insert(p, string_of(k));
    proof {
        let nv = strs(sorted@);
        assert(nv =~= old_v.insert(p as int, k@));
        assert forall|x: int, y: int| 0 <= x < y < nv.len() implies lex_less(#[trigger] nv[x], #[trigger] nv[y]) by {
            if y < p {
                assert(nv[x] == old_v[x] && nv[y] == old_v[y]);
            } else if y == p {
                assert(nv[x] == old_v[x]);
            } else if x == p {
                assert(nv[y] == old_v[y - 1]);
            } else if x < p {
                assert(nv[x] == old_v[x] && nv[y] == old_v[y - 1]);
            } else {
                assert(nv[x] == old_v[x - 1] && nv[y] == old_v[y - 1]);
            }
        }
        assert(nv[p as int] == k@);
        assert forall|x: int| 0 <= x < old_v.len() implies nv.contains(#[trigger] old_v[x]) by {
            if x < p {
                assert(nv[x] == old_v[x]);
            } else {
                assert(nv[x + 1] == old_v[x]);
            }
        }
        assert forall|j: int| 0 <= j < nv.len() implies #[trigger] nv[j] == k@ || old_v.contains(nv[j]) by {
            if j < p {
                assert(nv[j] == old_v[j]);
            } else if j > p {
                assert(nv[j] == old_v[j - 1]);
            }
        }
    }
}

/// The placeholder names: `clipboard`, then the keys of `params` in
/// ascending order.
pub fn placeholder_names(params: &ParamMap) -> (r: Vec<String>)
    requires
        keys_unique(params@),
    ensures
        names_listed(strs(r@), params@),
{
    let ghost e = params@;
    let mut sorted: Vec<String> = Vec::new();
    let mut i: usize = 0;
    while i < params.len()
        invariant
            e == params@,
            keys_unique(e),
            i <= e.len(),
            strs(sorted@).len() == i,
            strictly_sorted(strs(sorted@)),
            forall|j: int|
                0 <= j < strs(sorted@).len() ==> exists|m: int|
                    0 <= m < i && #[trigger] strs(sorted@)[j] == (#[trigger] e[m]).0,
            forall|m: int| 0 <= m < i ==> strs(sorted@).contains((#[trigger] e[m]).0),
        decreases e.len() - i,
    {
        let (k, _v) = params.entry(i);
        let kc = chars_of(k.as_str());
        let ghost old_v = strs(sorted@);
        proof {
            if old_v.contains(kc@) {
                let x = choose|x: int| 0 <= x < old_v.len() && old_v[x] == kc@;
                let m = choose|m: int| 0 <= m < i && #[trigger] old_v[x] == (#[trigger] e[m]).0;
                assert(e[m].0 != e[i as int].0);
            }
        }
        insert_sorted(&mut sorted, &kc);
        proof {
            let nv = strs(sorted@);
            assert forall|j: int| 0 <= j < nv.len() implies exists|m: int|
                0 <= m < i + 1 && #[trigger] nv[j] == (#[trigger] e[m]).0 by {
                if nv[j] == kc@ {
                    assert(nv[j] == e[i as int].0);
                } else {
                    let x = choose|x: int| 0 <= x < old_v.len() && old_v[x] == nv[j];
                    let m = choose|m: int| 0 <= m < i && #[trigger] old_v[x] == (#[trigger] e[m]).0;
                    assert(nv[j] == e[m].0);
                }
            }
            assert forall|m: int| 0 <= m < i + 1 implies nv.contains((#[trigger] e[m]).0) by {
                if m < i {
                    let x = choose|x: int| 0 <= x < old_v.len() && old_v[x] == e[m].0;
                    assert(nv.contains(old_v[x]));
                }
            }
        }
        i = i + 1;
    }
    let c = String::from_str("clipboard");
    proof {
        reveal_strlit("clipboard");
    }
    assert(c@ =~= seq!['c', 'l', 'i', 'p', 'b', 'o', 'a', 'r', 'd']);
    let mut r: Vec<String> = Vec::new();
    r.push(c);
    let ghost head = r@;
    let ghost tail = strs(sorted@);
    let ghost tail_raw = sorted@;
    r.append(&mut sorted);
    proof {
        assert(r@ == head + tail_raw);
        let ns = strs(r@);
        assert(ns =~= seq![seq!['c', 'l', 'i', 'p', 'b', 'o', 'a', 'r', 'd']] + tail);
        assert forall|x: int, y: int| 1 <= x < y < ns.len() implies lex_less(#[trigger] ns[x], #[trigger] ns[y]) by {
            assert(ns[x] == tail[x - 1] && ns[y] == tail[y - 1]);
        }
        assert forall|j: int| 1 <= j < ns.len() implies is_key(e, #[trigger] ns[j]) by {
            assert(ns[j] == tail[j - 1]);
            let m = choose|m: int| 0 <= m < i && #[trigger] tail[j - 1] == (#[trigger] e[m]).0;
            assert(e[m].0 == ns[j]);
        }
        assert forall|m: int| 0 <= m < e.len() implies ns.skip(1).contains((#[trigger] e[m]).0) by {
            let j = choose|j: int| 0 <= j < tail.len() && tail[j] == e[m].0;
            assert(ns.skip(1)[j] == tail[j]);
        }
        assert(ns.len() == e.len() + 1);
        assert(ns[0] == seq!['c', 'l', 'i', 'p', 'b', 'o', 'a', 'r', 'd']);
        assert(e == params@);
    }
    r
}

/// An argument without `=`, or whose key is blank, leaves the map as it was.
pub proof fn lemma_malformed_param_dropped(raw: Seq<Seq<char>>, s: Seq<char>)
    requires
        !s.contains('=') || (s.contains('=') && trim(
            s.take(first_index(s, '=', 0)->0),
        ).len() == 0),
    ensures
        params_of(raw.push(s), raw.len() + 1 as int) == params_of(raw, raw.len() as int),
{
    lemma_params_prefix(raw, s, raw.len() as int);
    if !s.contains('=') {
        lemma_no_index(s, '=', 0);
    }
}

proof fn lemma_no_index(s: Seq<char>, c: char, i: int)
    requires
        0 <= i,
        !s.contains(c),
    ensures
        first_index(s, c, i) is None,
    decreases s.len() - i,
{
    if i < s.len() {
        assert(s[i] != c);
        lemma_no_index(s, c, i + 1);
    }
}

proof fn lemma_params_prefix(raw: Seq<Seq<char>>, s: Seq<char>, n: int)
    requires
        0 <= n <= raw.len(),
    ensures
        params_of(raw.push(s), n) == params_of(raw, n),
    decreases n,
{
    if n > 0 {
        lemma_params_prefix(raw, s, n - 1);
        assert(raw.push(s)[n - 1] == raw[n - 1]);
    }
}

} // verus!
