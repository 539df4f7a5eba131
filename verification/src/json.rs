//! JSON documents as the image server exchanges them, and the lookups the bot makes in them.
use vstd::prelude::*;

use crate::text::{chars_eq, chars_of, first_where, replaced, string_from_range};

verus! {

/// A JSON value. Numbers keep the text they are written with; object members keep their
/// order.
#[derive(Debug)]
pub enum Json {
    Null,
    Bool(bool),
    Number(String),
    Str(String),
    Array(Vec<Json>),
    Object(Vec<(String, Json)>),
}

/// Index of the first member called `key`, or the number of members.
pub open spec fn key_index(es: Seq<(String, Json)>, key: Seq<char>) -> nat
    decreases es.len(),
{
    if es.len() == 0 {
        0
    } else if es[0].0@ == key {
        0
    } else {
        1 + key_index(es.drop_first(), key)
    }
}

/// `key_index` is the first index whose member is called `key`.
pub proof fn lemma_key_index(es: Seq<(String, Json)>, key: Seq<char>, m: int)
    requires
        0 <= m <= es.len(),
        forall|t: int| 0 <= t < m ==> (#[trigger] es[t]).0@ != key,
        m == es.len() || es[m].0@ == key,
    ensures
        key_index(es, key) == m,
    decreases m,
{
    if m > 0 {
        let x = es.drop_first();
        assert(es[0].0@ != key);
        assert forall|t: int| 0 <= t < m - 1 implies (#[trigger] x[t]).0@ != key by {
            assert(x[t] == es[t + 1]);
        }
        if m < es.len() {
            assert(x[m - 1] == es[m]);
        }
        lemma_key_index(x, key, m - 1);
    }
}

/// `key_index` is at most the length, and names a member called `key` when below it.
pub proof fn lemma_key_index_props(es: Seq<(String, Json)>, key: Seq<char>)
    ensures
        key_index(es, key) <= es.len(),
        key_index(es, key) < es.len() ==> es[key_index(es, key) as int].0@ == key,
        forall|t: int| 0 <= t < key_index(es, key) ==> (#[trigger] es[t]).0@ != key,
    decreases es.len(),
{
    if es.len() > 0 && es[0].0@ != key {
        let x = es.drop_first();
        lemma_key_index_props(x, key);
        assert forall|t: int| 0 <= t < key_index(es, key) implies (#[trigger] es[t]).0@ != key by {
            if t > 0 {
                assert(es[t] == x[t - 1]);
            }
        }
        if key_index(es, key) < es.len() {
            assert(es[key_index(es, key) as int] == x[key_index(x, key) as int]);
        }
    }
}

/// Members with the same names, in the same order, give the same index for every name.
pub proof fn lemma_key_index_same_keys(a: Seq<(String, Json)>, b: Seq<(String, Json)>, key: Seq<char>)
    requires
        a.len() == b.len(),
        forall|k: int| 0 <= k < a.len() ==> (#[trigger] a[k]).0@ == b[k].0@,
    ensures
        key_index(a, key) == key_index(b, key),
    decreases a.len(),
{
    if a.len() > 0 {
        assert(a[0].0@ == b[0].0@);
        let (x, y) = (a.drop_first(), b.drop_first());
        assert forall|k: int| 0 <= k < x.len() implies (#[trigger] x[k]).0@ == y[k].0@ by {
            assert(x[k] == a[k + 1] && y[k] == b[k + 1]);
        }
        lemma_key_index_same_keys(x, y, key);
    }
}

/// The first member called `key`, when `es` has one (see [`key_index`]).
pub fn find_key(es: &Vec<(String, Json)>, key: &str) -> (i: usize)
    ensures
        i == key_index(es@, key@),
{
    let k = chars_of(key);
    let mut i: usize = 0;
    while i < es.len()
        invariant
            i <= es.len(),
            k@ == key@,
            forall|t: int| 0 <= t < i ==> (#[trigger] es@[t]).0@ != key@,
        decreases es.len() - i,
    {
        let n = chars_of(es[i].0.as_str());
        if chars_eq(&n, &k) {
            proof {
                lemma_key_index(es@, key@, i as int);
            }
            return i;
        }
        i = i + 1;
    }
    proof {
        lemma_key_index(es@, key@, i as int);
    }
    i
}

/// The member `key` of an object (`Value::get` with a name): the first so called; `None` for
/// a missing member or a value that is no object.
pub open spec fn member(v: Json, key: Seq<char>) -> Option<Json> {
    match v {
        Json::Object(es) => if key_index(es@, key) < es@.len() {
            Some(es@[key_index(es@, key) as int].1)
        } else {
            None
        },
        _ => None,
    }
}

/// The member `key` of `v` (see [`member`]).
pub fn get_member<'a>(v: &'a Json, key: &str) -> (r: Option<&'a Json>)
    ensures
        match r {
            Some(x) => member(*v, key@) == Some(*x),
            None => member(*v, key@) is None,
        },
{
    match v {
        Json::Object(es) => {
            let i = find_key(es, key);
            if i < es.len() {
                Some(&es[i].1)
            } else {
                None
            }
        },
        _ => None,
    }
}

/// The array index a pointer token names (`serde_json`'s `parse_index`): decimal digits
/// without a sign and without a leading zero, whose value fits a `usize`.
pub open spec fn token_index(t: Seq<char>) -> Option<usize> {
    if t.len() > 0 && crate::config::all_digits(t) && (t[0] != '0' || t.len() == 1)
        && crate::config::digits_value(t) <= usize::MAX {
        Some(crate::config::digits_value(t) as usize)
    } else {
        None
    }
}

/// The array index a token names (see [`token_index`]).
fn parse_index(t: &Vec<char>) -> (r: Option<usize>)
    ensures
        r == token_index(t@),
{
    if t.len() == 0 || (t[0] == '0' && t.len() != 1) {
        return None;
    }
    let mut val: usize = 0;
    let mut i: usize = 0;
    assert(t@.take(0) =~= Seq::<char>::empty());
    while i < t.len()
        invariant
            i <= t.len(),
            t@.len() > 0,
            forall|k: int| 0 <= k < i ==> crate::config::is_digit(#[trigger] t@[k]),
            val == crate::config::digits_value(t@.take(i as int)),
        decreases t.len() - i,
    {
        let c = t[i];
        if !('0' <= c && c <= '9') {
            assert(!crate::config::is_digit(t@[i as int]));
            return None;
        }
        let dig = (c as u32 - '0' as u32) as usize;
        assert(t@.take(i + 1).drop_last() =~= t@.take(i as int));
        assert(t@.take(i + 1).last() == c);
        if val > (usize::MAX - dig) / 10 {
            proof {
                let m = usize::MAX as int;
                assert(val * 10 + dig > m) by (nonlinear_arith)
                    requires
                        val > (m - dig) / 10,
                        0 <= dig < 10,
                        m > 10;
                if crate::config::all_digits(t@) {
                    lemma_digits_grow(t@, i as int + 1);
                }
            }
            return None;
        }
        val = val * 10 + dig;
        i = i + 1;
    }
    assert(t@.take(t@.len() as int) =~= t@);
    Some(val)
}

/// The value of a run of digits only grows as digits are added.
proof fn lemma_digits_grow(t: Seq<char>, m: int)
    requires
        0 <= m <= t.len(),
        crate::config::all_digits(t),
    ensures
        crate::config::digits_value(t.take(m)) <= crate::config::digits_value(t),
    decreases t.len() - m,
{
    if m < t.len() {
        lemma_digits_grow(t, m + 1);
        assert(t.take(m + 1).drop_last() =~= t.take(m));
    } else {
        assert(t.take(m) =~= t);
    }
}

/// The slash predicate as a spec closure.
pub open spec fn slash_pred() -> spec_fn(char) -> bool {
    |c: char| c == '/'
}

/// The pieces of `s` between slashes (`str::split('/')`).
pub open spec fn slash_pieces(s: Seq<char>) -> Seq<Seq<char>>
    decreases s.len(),
{
    let k = first_where(s, slash_pred());
    if k < s.len() {
        seq![s.take(k as int)] + slash_pieces(s.skip(k + 1 as int))
    } else {
        seq![s]
    }
}

/// A pointer token with its escapes undone: `~1` is `/`, then `~0` is `~`.
pub open spec fn unescape(t: Seq<char>) -> Seq<char> {
    replaced(replaced(t, "~1"@, "/"@), "~0"@, "~"@)
}

/// The value that the tokens `ts` lead to from `v`: an object's member by name, an array's
/// element by index.
pub open spec fn follow(v: Json, ts: Seq<Seq<char>>) -> Option<Json>
    decreases ts.len(),
{
    if ts.len() == 0 {
        Some(v)
    } else {
        let t = unescape(ts[0]);
        match v {
            Json::Object(_) => match member(v, t) {
                Some(x) => follow(x, ts.drop_first()),
                None => None,
            },
            Json::Array(a) => match token_index(t) {
                Some(n) => if n < a@.len() {
                    follow(a@[n as int], ts.drop_first())
                } else {
                    None
                },
                None => None,
            },
            _ => None,
        }
    }
}

/// The value a JSON pointer names (`Value::pointer`): the whole value for the empty pointer;
/// otherwise the pointer starts with `/` and its slash-separated tokens are followed.
pub open spec fn pointer(v: Json, p: Seq<char>) -> Option<Json> {
    if p.len() == 0 {
        Some(v)
    } else if p[0] != '/' {
        None
    } else {
        follow(v, slash_pieces(p.drop_first()))
    }
}

/// Follows the tokens `ts` from `v` (see [`follow`]).
fn follow_tokens<'a>(v: &'a Json, ts: &Vec<Vec<char>>, from: usize) -> (r: Option<&'a Json>)
    requires
        from <= ts.len(),
    ensures
        match r {
            Some(x) => follow(*v, ts@.skip(from as int).map_values(|t: Vec<char>| t@)) == Some(*x),
            None => follow(*v, ts@.skip(from as int).map_values(|t: Vec<char>| t@)) is None,
        },
    decreases ts.len() - from,
{
    let ghost rest = ts@.skip(from as int).map_values(|t: Vec<char>| t@);
    if from == ts.len() {
        assert(rest.len() == 0);
        return Some(v);
    }
    assert(rest[0] == ts@[from as int]@);
    assert(rest.drop_first() =~= ts@.skip(from + 1).map_values(|t: Vec<char>| t@));
    proof {
        reveal_strlit("~1");
        reveal_strlit("~0");
    }
    let t1 = crate::text::replace_chars(&ts[from], &chars_of("~1"), &chars_of("/"));
    let t = crate::text::replace_chars(&t1, &chars_of("~0"), &chars_of("~"));
    assert(t@ == unescape(rest[0]));
    match v {
        Json::Object(_) => {
            let name = string_from_range(&t, 0, t.len());
            assert(t@.subrange(0, t@.len() as int) =~= t@);
            match get_member(v, name.as_str()) {
                Some(x) => follow_tokens(x, ts, from + 1),
                None => None,
            }
        },
        Json::Array(a) => {
            match parse_index(&t) {
                Some(n) => {
                    if n < a.len() {
                        follow_tokens(&a[n], ts, from + 1)
                    } else {
                        None
                    }
                },
                None => None,
            }
        },
        _ => None,
    }
}

/// The pieces of `v[i..]` between slashes.
fn split_slashes(v: &Vec<char>, i: usize) -> (r: Vec<Vec<char>>)
    requires
        i <= v.len(),
    ensures
        r@.map_values(|t: Vec<char>| t@) == slash_pieces(v@.skip(i as int)),
    decreases v.len() - i,
{
    let mut j = i;
    while j < v.len() && v[j] != '/'
        invariant
            i <= j <= v.len(),
            forall|t: int| i <= t < j ==> #[trigger] v@[t] != '/',
        decreases v.len() - j,
    {
        j = j + 1;
    }
    let ghost x = v@.skip(i as int);
    proof {
        assert forall|t: int| 0 <= t < j - i implies !(slash_pred())(#[trigger] x[t]) by {
            assert(x[t] == v@[i + t]);
        }
        if j < v.len() {
            assert(x[j - i] == v@[j as int]);
        }
        crate::text::lemma_first_where(x, slash_pred(), j - i);
    }
    let piece = crate::text::string_range_vec(v, i, j);
    assert(piece@ =~= x.take(j - i));
    let mut r: Vec<Vec<char>> = Vec::new();
    r.push(piece);
    if j < v.len() {
        let rest = split_slashes(v, j + 1);
        assert(x.skip(j - i + 1) =~= v@.skip(j + 1));
        let mut rest = rest;
        let ghost rv = rest@;
        r.append(&mut rest);
        assert(r@.map_values(|t: Vec<char>| t@) =~= seq![piece@] + rv.map_values(|t: Vec<char>| t@));
    } else {
        assert(x.take(j - i) =~= x);
        assert(r@.map_values(|t: Vec<char>| t@) =~= seq![piece@]);
    }
    r
}

/// The value the pointer `p` names in `v` (see [`pointer`]).
pub fn get_pointer<'a>(v: &'a Json, p: &str) -> (r: Option<&'a Json>)
    ensures
        match r {
            Some(x) => pointer(*v, p@) == Some(*x),
            None => pointer(*v, p@) is None,
        },
{
    let c = chars_of(p);
    if c.len() == 0 {
        return Some(v);
    }
    if c[0] != '/' {
        return None;
    }
    let ts = split_slashes(&c, 1);
    assert(c@.skip(1) =~= p@.drop_first());
    assert(ts@.skip(0) =~= ts@);
    follow_tokens(v, &ts, 0)
}

/// The text of a string value, or the empty text for any other value (`as_str().unwrap_or("")`).
pub open spec fn str_or_empty(v: Option<Json>) -> Seq<char> {
    match v {
        Some(Json::Str(s)) => s@,
        _ => Seq::empty(),
    }
}

} // verus!
