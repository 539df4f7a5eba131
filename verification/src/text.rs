//! Character-level string helpers shared by the command parsers and formatters.
use vstd::prelude::*;

verus! {

/// The characters of `s`, in order.
pub fn chars_of(s: &str) -> (v: Vec<char>)
    ensures
        v@ == s@,
{
    let mut v: Vec<char> = Vec::new();
    for c in it: s.chars()
        invariant
            v@ == it.seq().take(it.index() as int),
            it.seq() == s@,
    {
        v.push(c);
    }
    v
}

/// Appends one character to a `String` (std's `String::push`).
#[verifier::external_body]
fn push_char(s: &mut String, c: char)
    ensures
        final(s)@ == old(s)@.push(c),
{
    s.push(c);
}

/// The string made of `v[lo..hi]`.
pub fn string_from_range(v: &Vec<char>, lo: usize, hi: usize) -> (s: String)
    requires
        lo <= hi <= v.len(),
    ensures
        s@ == v@.subrange(lo as int, hi as int),
{
    let mut s = String::new();
    let mut i = lo;
    while i < hi
        invariant
            lo <= i <= hi <= v.len(),
            s@ == v@.subrange(lo as int, i as int),
        decreases hi - i,
    {
        push_char(&mut s, v[i]);
        assert(v@.subrange(lo as int, i + 1) == v@.subrange(lo as int, i as int).push(v@[i as int]));
        i = i + 1;
    }
    s
}

/// The string made of all characters of `v`.
pub fn string_from_chars(v: &Vec<char>) -> (s: String)
    ensures
        s@ == v@,
{
    let s = string_from_range(v, 0, v.len());
    assert(v@.subrange(0, v@.len() as int) == v@);
    s
}

/// Whether `a` and `b` hold the same characters.
pub fn chars_eq(a: &Vec<char>, b: &Vec<char>) -> (r: bool)
    ensures
        r == (a@ == b@),
{
    if a.len() != b.len() {
        return false;
    }
    let mut i: usize = 0;
    while i < a.len()
        invariant
            a.len() == b.len(),
            i <= a.len(),
            forall|k: int| 0 <= k < i ==> a@[k] == b@[k],
        decreases a.len() - i,
    {
        if a[i] != b[i] {
            return false;
        }
        i = i + 1;
    }
    assert(a@ =~= b@);
    true
}

/// Whether the characters `v` spell the string `lit`.
pub fn chars_eq_str(v: &Vec<char>, lit: &str) -> (r: bool)
    ensures
        r == (v@ == lit@),
{
    let w = chars_of(lit);
    chars_eq(v, &w)
}

/// Whether `v[at..]` starts with the characters of `pat`.
pub fn matches_at(v: &Vec<char>, at: usize, pat: &Vec<char>) -> (r: bool)
    requires
        at <= v.len(),
    ensures
        r == (pat@.len() <= v@.len() - at && v@.subrange(at as int, at + pat@.len()) == pat@),
{
    if pat.len() > v.len() - at {
        return false;
    }
    let mut k: usize = 0;
    while k < pat.len()
        invariant
            at + pat.len() <= v.len(),
            k <= pat.len(),
            forall|j: int| 0 <= j < k ==> v@[at + j] == pat@[j],
        decreases pat.len() - k,
    {
        if v[at + k] != pat[k] {
            assert(v@.subrange(at as int, at + pat@.len())[k as int] != pat@[k as int]);
            return false;
        }
        k = k + 1;
    }
    assert(v@.subrange(at as int, at + pat@.len()) =~= pat@);
    true
}

/// Unicode `White_Space`, the characters that `char::is_whitespace` accepts.
pub open spec fn is_ws(c: char) -> bool {
    let u = c as u32;
    ||| 0x09 <= u <= 0x0D
    ||| u == 0x20
    ||| u == 0x85
    ||| u == 0xA0
    ||| u == 0x1680
    ||| 0x2000 <= u <= 0x200A
    ||| u == 0x2028
    ||| u == 0x2029
    ||| u == 0x202F
    ||| u == 0x205F
    ||| u == 0x3000
}

/// Whether `c` is white space (see [`is_ws`]).
pub fn is_whitespace(c: char) -> (r: bool)
    ensures
        r == is_ws(c),
{
    let u = c as u32;
    (0x09 <= u && u <= 0x0D) || u == 0x20 || u == 0x85 || u == 0xA0 || u == 0x1680 || (0x2000
        <= u && u <= 0x200A) || u == 0x2028 || u == 0x2029 || u == 0x202F || u == 0x205F || u
        == 0x3000
}

/// `s` without its leading white space.
pub open spec fn trim_start(s: Seq<char>) -> Seq<char>
    decreases s.len(),
{
    if s.len() > 0 && is_ws(s[0]) {
        trim_start(s.drop_first())
    } else {
        s
    }
}

/// `s` without its trailing white space.
pub open spec fn trim_end(s: Seq<char>) -> Seq<char>
    decreases s.len(),
{
    if s.len() > 0 && is_ws(s.last()) {
        trim_end(s.drop_last())
    } else {
        s
    }
}

/// `s` without leading and trailing white space, as `str::trim` gives it.
pub open spec fn trim(s: Seq<char>) -> Seq<char> {
    trim_end(trim_start(s))
}

/// Bounds `lo..hi` of the trimmed part of `v`.
pub fn trim_bounds(v: &Vec<char>) -> (r: (usize, usize))
    ensures
        r.0 <= r.1 <= v.len(),
        v@.subrange(r.0 as int, r.1 as int) == trim(v@),
{
    let n = v.len();
    let mut lo: usize = 0;
    assert(v@.subrange(0, n as int) =~= v@);
    while lo < n && is_whitespace(v[lo])
        invariant
            lo <= n == v.len(),
            trim_start(v@) == trim_start(v@.subrange(lo as int, n as int)),
        decreases n - lo,
    {
        assert(v@.subrange(lo as int, n as int).drop_first() =~= v@.subrange(lo + 1, n as int));
        lo = lo + 1;
    }
    let ghost t = v@.subrange(lo as int, n as int);
    assert(trim_start(t) == t);
    let mut hi: usize = n;
    while hi > lo && is_whitespace(v[hi - 1])
        invariant
            lo <= hi <= n == v.len(),
            trim_end(t) == trim_end(v@.subrange(lo as int, hi as int)),
            t == v@.subrange(lo as int, n as int),
        decreases hi - lo,
    {
        assert(v@.subrange(lo as int, hi as int).drop_last() =~= v@.subrange(lo as int, hi - 1));
        hi = hi - 1;
    }
    assert(trim_end(v@.subrange(lo as int, hi as int)) == v@.subrange(lo as int, hi as int));
    (lo, hi)
}

/// `s` with leading and trailing white space removed (`str::trim`).
pub fn trim_str(s: &str) -> (r: String)
    ensures
        r@ == trim(s@),
{
    let v = chars_of(s);
    let (lo, hi) = trim_bounds(&v);
    string_from_range(&v, lo, hi)
}

/// Index of the first character of `s` that satisfies `p`, or `s.len()` if none does.
pub open spec fn first_where(s: Seq<char>, p: spec_fn(char) -> bool) -> nat
    decreases s.len(),
{
    if s.len() == 0 {
        0
    } else if p(s[0]) {
        0
    } else {
        1 + first_where(s.drop_first(), p)
    }
}

/// `first_where` is at most the length, and is the first index that matches.
pub proof fn lemma_first_where(s: Seq<char>, p: spec_fn(char) -> bool, m: int)
    requires
        0 <= m <= s.len(),
        forall|t: int| 0 <= t < m ==> !p(#[trigger] s[t]),
        m == s.len() || p(s[m]),
    ensures
        first_where(s, p) == m,
    decreases m,
{
    if m > 0 {
        assert(!p(s[0]));
        assert forall|t: int| 0 <= t < m - 1 implies !p(#[trigger] s.drop_first()[t]) by {
            assert(s.drop_first()[t] == s[t + 1]);
        }
        if m < s.len() {
            assert(s.drop_first()[m - 1] == s[m]);
        }
        lemma_first_where(s.drop_first(), p, m - 1);
    }
}

/// The white-space predicate as a spec closure.
pub open spec fn ws_pred() -> spec_fn(char) -> bool {
    |c: char| is_ws(c)
}

/// The maximal runs of non-white-space characters of `s`, as `str::split_whitespace` yields them.
pub open spec fn words(s: Seq<char>) -> Seq<Seq<char>>
    decreases s.len(),
{
    let k = first_where(s, ws_pred());
    let head = s.take(k as int);
    let here = if head.len() > 0 {
        seq![head]
    } else {
        Seq::<Seq<char>>::empty()
    };
    if k < s.len() {
        here + words(s.skip(k + 1 as int))
    } else {
        here
    }
}

/// First index `j >= i` with `v[j]` white space, or `v.len()`.
fn next_ws(v: &Vec<char>, i: usize) -> (j: usize)
    requires
        i <= v.len(),
    ensures
        i <= j <= v.len(),
        first_where(v@.skip(i as int), ws_pred()) == j - i,
{
    let mut j = i;
    while j < v.len() && !is_whitespace(v[j])
        invariant
            i <= j <= v.len(),
            forall|t: int| i <= t < j ==> !is_ws(#[trigger] v@[t]),
        decreases v.len() - j,
    {
        j = j + 1;
    }
    proof {
        let x = v@.skip(i as int);
        assert forall|t: int| 0 <= t < j - i implies !(ws_pred())(#[trigger] x[t]) by {
            assert(x[t] == v@[i + t]);
        }
        if j < v.len() {
            assert(x[j - i] == v@[j as int]);
        }
        lemma_first_where(x, ws_pred(), j - i);
    }
    j
}

/// The words of `v` (see [`words`]).
pub fn split_whitespace(v: &Vec<char>) -> (r: Vec<Vec<char>>)
    ensures
        r@.len() == words(v@).len(),
        forall|k: int| 0 <= k < r@.len() ==> #[trigger] r@[k]@ == words(v@)[k],
{
    let mut r: Vec<Vec<char>> = Vec::new();
    let ghost mut done: Seq<Seq<char>> = Seq::empty();
    let mut i: usize = 0;
    assert(v@.skip(0) =~= v@);
    assert(done + words(v@) =~= words(v@));
    loop
        invariant
            i <= v.len(),
            words(v@) == done + words(v@.skip(i as int)),
            r@.len() == done.len(),
            forall|k: int| 0 <= k < r@.len() ==> #[trigger] r@[k]@ == done[k],
        decreases v.len() - i,
    {
        let j = next_ws(v, i);
        let ghost x = v@.skip(i as int);
        assert(x.take((j - i) as int) =~= v@.subrange(i as int, j as int));
        if j > i {
            let w = string_range_vec(v, i, j);
            r.push(w);
            proof {
                done = done.push(v@.subrange(i as int, j as int));
            }
        }
        if j == v.len() {
            assert(words(v@) == done);
            return r;
        }
        assert(x.skip((j - i) + 1) =~= v@.skip(j + 1));
        i = j + 1;
    }
}

/// A copy of `v[lo..hi]`.
pub fn string_range_vec(v: &Vec<char>, lo: usize, hi: usize) -> (w: Vec<char>)
    requires
        lo <= hi <= v.len(),
    ensures
        w@ == v@.subrange(lo as int, hi as int),
{
    let mut w: Vec<char> = Vec::new();
    let mut i = lo;
    while i < hi
        invariant
            lo <= i <= hi <= v.len(),
            w@ == v@.subrange(lo as int, i as int),
        decreases hi - i,
    {
        w.push(v[i]);
        assert(v@.subrange(lo as int, i + 1) == v@.subrange(lo as int, i as int).push(v@[i as int]));
        i = i + 1;
    }
    w
}

/// The newline predicate as a spec closure.
pub open spec fn nl_pred() -> spec_fn(char) -> bool {
    |c: char| c == '\n'
}

/// `t` without one trailing carriage return.
pub open spec fn strip_cr(t: Seq<char>) -> Seq<char> {
    if t.len() > 0 && t.last() == '\r' {
        t.drop_last()
    } else {
        t
    }
}

/// The lines of `s` as `str::lines` yields them: pieces between `'\n'`, a `'\r'` right
/// before a `'\n'` dropped, and no empty piece after a final `'\n'`.
pub open spec fn lines(s: Seq<char>) -> Seq<Seq<char>>
    decreases s.len(),
{
    if s.len() == 0 {
        Seq::empty()
    } else {
        let k = first_where(s, nl_pred());
        if k < s.len() {
            seq![strip_cr(s.take(k as int))] + lines(s.skip(k + 1 as int))
        } else {
            seq![s]
        }
    }
}

/// First index `j >= i` with `v[j] == '\n'`, or `v.len()`.
fn next_newline(v: &Vec<char>, i: usize) -> (j: usize)
    requires
        i <= v.len(),
    ensures
        i <= j <= v.len(),
        first_where(v@.skip(i as int), nl_pred()) == j - i,
{
    let mut j = i;
    while j < v.len() && v[j] != '\n'
        invariant
            i <= j <= v.len(),
            forall|t: int| i <= t < j ==> #[trigger] v@[t] != '\n',
        decreases v.len() - j,
    {
        j = j + 1;
    }
    proof {
        let x = v@.skip(i as int);
        assert forall|t: int| 0 <= t < j - i implies !(nl_pred())(#[trigger] x[t]) by {
            assert(x[t] == v@[i + t]);
        }
        if j < v.len() {
            assert(x[j - i] == v@[j as int]);
        }
        lemma_first_where(x, nl_pred(), j - i);
    }
    j
}

/// The lines of `v` (see [`lines`]).
pub fn split_lines(v: &Vec<char>) -> (r: Vec<Vec<char>>)
    ensures
        r@.len() == lines(v@).len(),
        forall|k: int| 0 <= k < r@.len() ==> #[trigger] r@[k]@ == lines(v@)[k],
{
    let mut r: Vec<Vec<char>> = Vec::new();
    let ghost mut done: Seq<Seq<char>> = Seq::empty();
    let mut i: usize = 0;
    assert(v@.skip(0) =~= v@);
    assert(done + lines(v@) =~= lines(v@));
    loop
        invariant
            i <= v.len(),
            lines(v@) == done + lines(v@.skip(i as int)),
            r@.len() == done.len(),
            forall|k: int| 0 <= k < r@.len() ==> #[trigger] r@[k]@ == done[k],
        decreases v.len() - i,
    {
        let ghost x = v@.skip(i as int);
        if i == v.len() {
            assert(x.len() == 0);
            assert(done + lines(x) =~= done);
            return r;
        }
        let j = next_newline(v, i);
        if j == v.len() {
            let w = string_range_vec(v, i, j);
            assert(w@ =~= x);
            r.push(w);
            proof {
                done = done.push(x);
            }
            assert(lines(v@) == done);
            return r;
        }
        assert(x.take((j - i) as int) =~= v@.subrange(i as int, j as int));
        let end = if j > i && v[j - 1] == '\r' {
            j - 1
        } else {
            j
        };
        let w = string_range_vec(v, i, end);
        proof {
            let t = v@.subrange(i as int, j as int);
            if j > i && v@[j - 1] == '\r' {
                assert(t.drop_last() =~= v@.subrange(i as int, end as int));
            }
            assert(w@ == strip_cr(t));
        }
        r.push(w);
        proof {
            done = done.push(strip_cr(v@.subrange(i as int, j as int)));
        }
        assert(x.skip((j - i) + 1) =~= v@.skip(j + 1));
        i = j + 1;
    }
}

/// `s` with every leftmost, non-overlapping occurrence of the non-empty `from` replaced by `to`
/// (`str::replace`).
pub open spec fn replaced(s: Seq<char>, from: Seq<char>, to: Seq<char>) -> Seq<char>
    decreases s.len(),
{
    if s.len() == 0 {
        Seq::empty()
    } else if 0 < from.len() <= s.len() && s.take(from.len() as int) == from {
        to + replaced(s.skip(from.len() as int), from, to)
    } else {
        seq![s[0]] + replaced(s.drop_first(), from, to)
    }
}

/// Replaces every occurrence of `from` in `v` by `to` (see [`replaced`]).
pub fn replace_chars(v: &Vec<char>, from: &Vec<char>, to: &Vec<char>) -> (r: Vec<char>)
    requires
        from@.len() > 0,
    ensures
        r@ == replaced(v@, from@, to@),
{
    let mut r: Vec<char> = Vec::new();
    let mut i: usize = 0;
    assert(v@.skip(0) =~= v@);
    while i < v.len()
        invariant
            i <= v.len(),
            from@.len() > 0,
            replaced(v@, from@, to@) == r@ + replaced(v@.skip(i as int), from@, to@),
        decreases v.len() - i,
    {
        let ghost x = v@.skip(i as int);
        if matches_at(v, i, from) {
            assert(x.take(from@.len() as int) =~= v@.subrange(i as int, i + from@.len()));
            let mut k: usize = 0;
            let ghost r0 = r@;
            while k < to.len()
                invariant
                    k <= to.len(),
                    r@ == r0 + to@.take(k as int),
                decreases to.len() - k,
            {
                r.push(to[k]);
                assert(to@.take(k + 1) =~= to@.take(k as int).push(to@[k as int]));
                k = k + 1;
            }
            assert(to@.take(to@.len() as int) =~= to@);
            assert(x.skip(from@.len() as int) =~= v@.skip(i + from@.len()));
            assert(r0 + (to@ + replaced(x.skip(from@.len() as int), from@, to@)) =~= r@ + replaced(
                v@.skip(i + from@.len()),
                from@,
                to@,
            ));
            i = i + from.len();
        } else {
            proof {
                if 0 < from@.len() <= x.len() {
                    assert(x.take(from@.len() as int) =~= v@.subrange(i as int, i + from@.len()));
                }
            }
            r.push(v[i]);
            assert(x.drop_first() =~= v@.skip(i + 1));
            assert(r@.drop_last() + (seq![x[0]] + replaced(x.drop_first(), from@, to@)) =~= r@
                + replaced(v@.skip(i + 1), from@, to@));
            i = i + 1;
        }
    }
    assert(v@.skip(i as int).len() == 0);
    assert(r@ + replaced(v@.skip(i as int), from@, to@) =~= r@);
    r
}

/// The decimal digit character for `d < 10`.
pub open spec fn digit_char(d: nat) -> char {
    (48 + d) as char
}

/// Decimal notation of `n`, without sign or leading zeros (as `{}` prints an unsigned integer).
pub open spec fn decimal(n: nat) -> Seq<char>
    decreases n,
{
    if n < 10 {
        seq![digit_char(n)]
    } else {
        decimal(n / 10) + seq![digit_char(n % 10)]
    }
}

/// The decimal digit character of `d`.
fn digit(d: u64) -> (c: char)
    requires
        d < 10,
    ensures
        c == digit_char(d as nat),
{
    if d == 0 { '0' }
    else if d == 1 { '1' }
    else if d == 2 { '2' }
    else if d == 3 { '3' }
    else if d == 4 { '4' }
    else if d == 5 { '5' }
    else if d == 6 { '6' }
    else if d == 7 { '7' }
    else if d == 8 { '8' }
    else { '9' }
}

/// Appends the decimal notation of `n` to `out`.
pub fn push_decimal(out: &mut Vec<char>, n: u64)
    ensures
        final(out)@ == old(out)@ + decimal(n as nat),
{
    let mut rev: Vec<char> = Vec::new();
    let mut m = n;
    while m >= 10
        invariant
            decimal(n as nat) == decimal(m as nat) + rev@.reverse(),
        decreases m,
    {
        let ghost before = rev@;
        rev.push(digit(m % 10));
        assert(rev@.reverse() =~= seq![digit_char((m % 10) as nat)] + before.reverse());
        m = m / 10;
    }
    rev.push(digit(m));
    let ghost all = rev@;
    assert(all.reverse() =~= seq![digit_char(m as nat)] + all.drop_last().reverse());
    assert(decimal(n as nat) == all.reverse());
    let mut k = rev.len();
    let ghost o = out@;
    while k > 0
        invariant
            k <= rev.len(),
            rev@ == all,
            out@ == o + all.reverse().take((all.len() - k) as int),
        decreases k,
    {
        k = k - 1;
        out.push(rev[k]);
        assert(all.reverse().take((all.len() - k) as int) =~= all.reverse().take(
            (all.len() - k - 1) as int,
        ).push(all[k as int]));
    }
    assert(all.reverse().take(all.len() as int) =~= all.reverse());
}

/// Decimal notation of `n` as a `String`.
pub fn decimal_string(n: u64) -> (s: String)
    ensures
        s@ == decimal(n as nat),
{
    let mut v: Vec<char> = Vec::new();
    push_decimal(&mut v, n);
    assert(Seq::<char>::empty() + decimal(n as nat) =~= decimal(n as nat));
    string_from_chars(&v)
}

/// Appends all characters of `s` to `out`.
pub fn push_str_chars(out: &mut Vec<char>, s: &str)
    ensures
        final(out)@ == old(out)@ + s@,
{
    let w = chars_of(s);
    push_all(out, &w);
}

/// Appends all of `w` to `out`.
pub fn push_all(out: &mut Vec<char>, w: &Vec<char>)
    ensures
        final(out)@ == old(out)@ + w@,
{
    let ghost o = out@;
    let mut k: usize = 0;
    while k < w.len()
        invariant
            k <= w.len(),
            out@ == o + w@.take(k as int),
        decreases w.len() - k,
    {
        out.push(w[k]);
        assert(w@.take(k + 1) =~= w@.take(k as int).push(w@[k as int]));
        k = k + 1;
    }
    assert(w@.take(w@.len() as int) =~= w@);
}

/// `first_where` is at most the length, nothing before it matches, and it matches when it is
/// inside `s`.
pub proof fn lemma_first_where_props(s: Seq<char>, p: spec_fn(char) -> bool)
    ensures
        first_where(s, p) <= s.len(),
        forall|t: int| 0 <= t < first_where(s, p) ==> !p(#[trigger] s[t]),
        first_where(s, p) < s.len() ==> p(s[first_where(s, p) as int]),
    decreases s.len(),
{
    if s.len() > 0 && !p(s[0]) {
        lemma_first_where_props(s.drop_first(), p);
        assert forall|t: int| 0 <= t < first_where(s, p) implies !p(#[trigger] s[t]) by {
            if t > 0 {
                assert(s[t] == s.drop_first()[t - 1]);
            }
        }
    }
}

/// Every piece that `words` yields is non-empty and holds no white space.
pub proof fn lemma_words_props(s: Seq<char>)
    ensures
        forall|i: int| 0 <= i < words(s).len() ==> (#[trigger] words(s)[i]).len() > 0,
        forall|i: int, j: int|
            0 <= i < words(s).len() && 0 <= j < words(s)[i].len() ==> !is_ws(
                #[trigger] words(s)[i][j],
            ),
    decreases s.len(),
{
    let k = first_where(s, ws_pred());
    lemma_first_where_props(s, ws_pred());
    let head = s.take(k as int);
    let here = if head.len() > 0 {
        seq![head]
    } else {
        Seq::<Seq<char>>::empty()
    };
    assert forall|j: int| 0 <= j < head.len() implies !is_ws(#[trigger] head[j]) by {
        assert(!(ws_pred())(s[j]));
    }
    if k < s.len() {
        let rest = words(s.skip(k + 1 as int));
        lemma_words_props(s.skip(k + 1 as int));
        assert(words(s) == here + rest);
        assert forall|i: int| 0 <= i < words(s).len() implies (#[trigger] words(s)[i]).len() > 0 by {
            if i >= here.len() {
                assert(words(s)[i] == rest[i - here.len()]);
            }
        }
        assert forall|i: int, j: int|
            0 <= i < words(s).len() && 0 <= j < words(s)[i].len() implies !is_ws(
                #[trigger] words(s)[i][j],
            ) by {
            if i >= here.len() {
                assert(words(s)[i] == rest[i - here.len()]);
            }
        }
    } else {
        assert(words(s) == here);
    }
}

/// Every character of every word of `s` has a property that every character of `s` has.
pub proof fn lemma_words_chars(s: Seq<char>, p: spec_fn(char) -> bool)
    requires
        forall|t: int| 0 <= t < s.len() ==> p(#[trigger] s[t]),
    ensures
        forall|i: int, j: int|
            0 <= i < words(s).len() && 0 <= j < words(s)[i].len() ==> p(#[trigger] words(s)[i][j]),
    decreases s.len(),
{
    let k = first_where(s, ws_pred());
    lemma_first_where_props(s, ws_pred());
    let head = s.take(k as int);
    let here = if head.len() > 0 {
        seq![head]
    } else {
        Seq::<Seq<char>>::empty()
    };
    assert forall|j: int| 0 <= j < head.len() implies p(#[trigger] head[j]) by {
        assert(head[j] == s[j]);
    }
    if k < s.len() {
        let x = s.skip(k + 1 as int);
        assert forall|t: int| 0 <= t < x.len() implies p(#[trigger] x[t]) by {
            assert(x[t] == s[k + 1 + t]);
        }
        lemma_words_chars(x, p);
        let rest = words(x);
        assert(words(s) == here + rest);
        assert forall|i: int, j: int|
            0 <= i < words(s).len() && 0 <= j < words(s)[i].len() implies p(
                #[trigger] words(s)[i][j],
            ) by {
            if i >= here.len() {
                assert(words(s)[i] == rest[i - here.len()]);
            }
        }
    } else {
        assert(words(s) == here);
    }
}

/// Splitting at white space distributes over a concatenation joined by one white-space
/// character.
pub proof fn lemma_words_split(a: Seq<char>, c: char, b: Seq<char>)
    requires
        is_ws(c),
    ensures
        words(a + seq![c] + b) == words(a) + words(b),
    decreases a.len(),
{
    let s = a + seq![c] + b;
    let k = first_where(s, ws_pred());
    let ka = first_where(a, ws_pred());
    lemma_first_where_props(a, ws_pred());
    if ka < a.len() {
        assert forall|t: int| 0 <= t < ka implies !(ws_pred())(#[trigger] s[t]) by {
            assert(s[t] == a[t]);
        }
        assert(s[ka as int] == a[ka as int]);
        lemma_first_where(s, ws_pred(), ka as int);
        assert(s.take(k as int) =~= a.take(ka as int));
        assert(s.skip(k + 1 as int) =~= a.skip(ka + 1 as int) + seq![c] + b);
        lemma_words_split(a.skip(ka + 1 as int), c, b);
        assert(words(s) =~= words(a) + words(b));
    } else {
        assert forall|t: int| 0 <= t < a.len() implies !(ws_pred())(#[trigger] s[t]) by {
            assert(s[t] == a[t]);
        }
        assert(s[a.len() as int] == c);
        lemma_first_where(s, ws_pred(), a.len() as int);
        assert(s.take(k as int) =~= a);
        assert(s.skip(k + 1 as int) =~= b);
        assert(a.take(ka as int) =~= a);
        assert(words(s) =~= words(a) + words(b));
    }
}

/// A non-empty run without white space is a single word.
pub proof fn lemma_words_single(w: Seq<char>)
    requires
        w.len() > 0,
        forall|t: int| 0 <= t < w.len() ==> !is_ws(#[trigger] w[t]),
    ensures
        words(w) == seq![w],
{
    assert forall|t: int| 0 <= t < w.len() implies !(ws_pred())(#[trigger] w[t]) by {}
    lemma_first_where(w, ws_pred(), w.len() as int);
    assert(w.take(w.len() as int) =~= w);
}

/// Splitting into lines distributes over a concatenation whose first part is empty or ends
/// a line.
pub proof fn lemma_lines_concat(a: Seq<char>, b: Seq<char>)
    requires
        a.len() == 0 || a.last() == '\n',
    ensures
        lines(a + b) == lines(a) + lines(b),
    decreases a.len(),
{
    if a.len() == 0 {
        assert(a + b =~= b);
        assert(lines(a) + lines(b) =~= lines(b));
    } else {
        let k = first_where(a, nl_pred());
        lemma_first_where_props(a, nl_pred());
        if k >= a.len() {
            assert((nl_pred())(a[a.len() - 1]));
            assert(false);
        }
        let ab = a + b;
        assert forall|t: int| 0 <= t < k implies !(nl_pred())(#[trigger] ab[t]) by {
            assert(ab[t] == a[t]);
        }
        assert(ab[k as int] == a[k as int]);
        lemma_first_where(ab, nl_pred(), k as int);
        assert(ab.take(k as int) =~= a.take(k as int));
        let rest = a.skip(k + 1 as int);
        assert(ab.skip(k + 1 as int) =~= rest + b);
        if rest.len() > 0 {
            assert(rest.last() == a.last());
        }
        lemma_lines_concat(rest, b);
        assert(lines(ab) =~= lines(a) + lines(b));
    }
}

/// The lines of a text built from line-free pieces, each ended by `'\n'`, are those pieces
/// (a trailing `'\r'` dropped).
pub proof fn lemma_lines_terminated(us: Seq<Seq<char>>)
    requires
        forall|j: int, t: int| 0 <= j < us.len() && 0 <= t < us[j].len() ==> #[trigger] us[j][t] != '\n',
    ensures
        lines(crate::news::terminated(us)) == us.map_values(|u: Seq<char>| strip_cr(u)),
    decreases us.len(),
{
    let tu = crate::news::terminated(us);
    if us.len() == 0 {
        assert(lines(tu) =~= us.map_values(|u: Seq<char>| strip_cr(u)));
    } else {
        let pre = us.drop_last();
        let last = us.last();
        let tp = crate::news::terminated(pre);
        lemma_lines_terminated(pre);
        lemma_terminated_ends(pre);
        let x = last.push('\n');
        lemma_lines_concat(tp, x);
        assert forall|t: int| 0 <= t < last.len() implies !(nl_pred())(#[trigger] x[t]) by {
            assert(x[t] == last[t]);
            assert(us[us.len() - 1][t] != '\n');
        }
        lemma_first_where(x, nl_pred(), last.len() as int);
        assert(x.take(last.len() as int) =~= last);
        assert(x.skip(last.len() + 1 as int) =~= Seq::<char>::empty());
        assert(x.len() > 0);
        assert(first_where(x, nl_pred()) < x.len());
        assert(lines(x.skip(last.len() + 1 as int)) =~= Seq::<Seq<char>>::empty());
        assert(lines(x) == seq![strip_cr(x.take(last.len() as int))] + lines(
            x.skip(last.len() + 1 as int),
        ));
        assert(lines(x) =~= seq![strip_cr(last)]);
        assert(lines(tu) =~= us.map_values(|u: Seq<char>| strip_cr(u)));
    }
}

/// A text built from `'\n'`-ended pieces is empty or ends with `'\n'`.
pub proof fn lemma_terminated_ends(us: Seq<Seq<char>>)
    ensures
        crate::news::terminated(us).len() == 0 || crate::news::terminated(us).last() == '\n',
{
}

} // verus!
