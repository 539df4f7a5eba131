//! Turning feed text into plain prose and cutting long replies into message-sized chunks.
use vstd::prelude::*;

use crate::text::{
    chars_of, decimal, is_ws, lemma_words_chars, lemma_words_props, lemma_words_single,
    lemma_words_split, lines, push_all, push_decimal, push_str_chars, split_lines, split_whitespace,
    string_from_chars, words,
};
use vstd::utf8::encode_utf8;

verus! {

/// The characters of `s` that lie outside `<...>` tags. `in_tag` is whether the scan starts
/// inside a tag; `<` enters a tag, `>` leaves one, and both are dropped.
pub open spec fn untagged(s: Seq<char>, in_tag: bool) -> Seq<char>
    decreases s.len(),
{
    if s.len() == 0 {
        Seq::empty()
    } else if s[0] == '<' {
        untagged(s.drop_first(), true)
    } else if s[0] == '>' {
        untagged(s.drop_first(), false)
    } else if !in_tag {
        seq![s[0]] + untagged(s.drop_first(), in_tag)
    } else {
        untagged(s.drop_first(), in_tag)
    }
}

/// The pieces of `ws` joined with `sep` in between.
pub open spec fn join(ws: Seq<Seq<char>>, sep: Seq<char>) -> Seq<char>
    decreases ws.len(),
{
    if ws.len() == 0 {
        Seq::empty()
    } else if ws.len() == 1 {
        ws[0]
    } else {
        join(ws.drop_last(), sep) + sep + ws.last()
    }
}

/// The plain text of an HTML fragment: tags removed, then every run of white space collapsed
/// to one space and white space at both ends dropped.
pub open spec fn plain_text(html: Seq<char>) -> Seq<char> {
    join(words(untagged(html, false)), seq![' '])
}

/// Joins `parts` with `sep` in between.
pub fn join_parts(parts: &Vec<Vec<char>>, sep: &Vec<char>) -> (r: Vec<char>)
    ensures
        r@ == join(parts@.map_values(|p: Vec<char>| p@), sep@),
{
    let ghost ps = parts@.map_values(|p: Vec<char>| p@);
    let mut r: Vec<char> = Vec::new();
    let mut i: usize = 0;
    while i < parts.len()
        invariant
            i <= parts.len(),
            ps == parts@.map_values(|p: Vec<char>| p@),
            r@ == join(ps.take(i as int), sep@),
        decreases parts.len() - i,
    {
        let ghost before = r@;
        if i > 0 {
            push_all(&mut r, sep);
        }
        push_all(&mut r, &parts[i]);
        proof {
            let t = ps.take(i + 1);
            assert(t.drop_last() =~= ps.take(i as int));
            assert(t.last() == parts@[i as int]@);
            if i == 0 {
                assert(r@ =~= t[0]);
            }
        }
        i = i + 1;
    }
    assert(ps.take(parts@.len() as int) =~= ps);
    r
}

/// The white-space pieces as plain sequences.
pub open spec fn views(parts: Seq<Vec<char>>) -> Seq<Seq<char>> {
    parts.map_values(|p: Vec<char>| p@)
}

/// Removes HTML tags from `html` and normalises its white space (see [`plain_text`]).
pub fn strip_html(html: &str) -> (out: String)
    ensures
        out@ == plain_text(html@),
{
    let v = chars_of(html);
    let mut kept: Vec<char> = Vec::new();
    let mut in_tag = false;
    let mut i: usize = 0;
    assert(v@.skip(0) =~= v@);
    while i < v.len()
        invariant
            i <= v.len(),
            v@ == html@,
            untagged(html@, false) == kept@ + untagged(v@.skip(i as int), in_tag),
        decreases v.len() - i,
    {
        let c = v[i];
        assert(v@.skip(i as int).drop_first() =~= v@.skip(i + 1));
        if c == '<' {
            in_tag = true;
        } else if c == '>' {
            in_tag = false;
        } else if !in_tag {
            kept.push(c);
            assert(kept@.drop_last() + (seq![c] + untagged(v@.skip(i + 1), in_tag)) =~= kept@
                + untagged(v@.skip(i + 1), in_tag));
        }
        i = i + 1;
    }
    assert(kept@ + untagged(v@.skip(i as int), in_tag) =~= kept@);
    let parts = split_whitespace(&kept);
    assert(views(parts@) =~= words(kept@));
    let sep = vec![' '];
    assert(sep@ =~= seq![' ']);
    let joined = join_parts(&parts, &sep);
    string_from_chars(&joined)
}

/// Nothing of a tag survives: `untagged` drops every `<` and `>`.
pub proof fn lemma_untagged_no_brackets(s: Seq<char>, in_tag: bool)
    ensures
        forall|k: int|
            0 <= k < untagged(s, in_tag).len() ==> #[trigger] untagged(s, in_tag)[k] != '<'
                && untagged(s, in_tag)[k] != '>',
    decreases s.len(),
{
    if s.len() > 0 {
        let u = untagged(s, in_tag);
        lemma_untagged_no_brackets(s.drop_first(), true);
        lemma_untagged_no_brackets(s.drop_first(), false);
        if s[0] == '<' {
            assert(u == untagged(s.drop_first(), true));
        } else if s[0] == '>' {
            assert(u == untagged(s.drop_first(), false));
        } else if !in_tag {
            let r = untagged(s.drop_first(), in_tag);
            assert(u == seq![s[0]] + r);
            assert forall|k: int| 0 <= k < u.len() implies #[trigger] u[k] != '<' && u[k] != '>' by {
                if k > 0 {
                    assert(u[k] == r[k - 1]);
                }
            }
        } else {
            assert(u == untagged(s.drop_first(), in_tag));
        }
    }
}

/// White space is normalised in `p`: none at either end, only single spaces, and never two
/// white-space characters in a row.
pub open spec fn ws_normalised(p: Seq<char>) -> bool {
    &&& p.len() > 0 ==> !is_ws(p[0]) && !is_ws(p[p.len() - 1])
    &&& forall|k: int| 0 <= k < p.len() && is_ws(#[trigger] p[k]) ==> p[k] == ' '
    &&& forall|i: int, j: int|
        0 <= i && j == i + 1 && j < p.len() ==> !(is_ws(#[trigger] p[i]) && is_ws(#[trigger] p[j]))
}

/// Non-empty pieces without white space, joined with single spaces, give normalised text.
proof fn lemma_join_normalised(ws: Seq<Seq<char>>)
    requires
        forall|i: int| 0 <= i < ws.len() ==> (#[trigger] ws[i]).len() > 0,
        forall|i: int, j: int| 0 <= i < ws.len() && 0 <= j < ws[i].len() ==> !is_ws(#[trigger] ws[i][j]),
    ensures
        ws_normalised(join(ws, seq![' '])),
        ws.len() > 0 ==> join(ws, seq![' ']).len() > 0,
    decreases ws.len(),
{
    let sep = seq![' '];
    if ws.len() == 1 {
        let w = ws[0];
        assert(join(ws, sep) == w);
        assert forall|k: int| 0 <= k < w.len() implies !is_ws(#[trigger] w[k]) by {
            assert(ws[0][k] == w[k]);
        }
    } else if ws.len() >= 2 {
        let init = ws.drop_last();
        assert forall|i: int| 0 <= i < init.len() implies (#[trigger] init[i]).len() > 0 by {
            assert(init[i] == ws[i]);
        }
        assert forall|i: int, j: int| 0 <= i < init.len() && 0 <= j < init[i].len() implies !is_ws(
            #[trigger] init[i][j],
        ) by {
            assert(init[i] == ws[i]);
        }
        lemma_join_normalised(init);
        let a = join(init, sep);
        let b = ws.last();
        assert(b == ws[ws.len() - 1]);
        assert(b.len() > 0);
        assert forall|k: int| 0 <= k < b.len() implies !is_ws(#[trigger] b[k]) by {
            assert(ws[ws.len() - 1][k] == b[k]);
        }
        let p = join(ws, sep);
        assert(p == a + sep + b);
        assert(ws_normalised(a));
        assert forall|k: int| 0 <= k < p.len() && is_ws(#[trigger] p[k]) implies p[k] == ' ' by {
            if k < a.len() {
                assert(p[k] == a[k]);
            } else if k > a.len() {
                assert(p[k] == b[k - a.len() - 1]);
            }
        }
        assert forall|i: int, j: int| 0 <= i && j == i + 1 && j < p.len() implies !(is_ws(
            #[trigger] p[i],
        ) && is_ws(#[trigger] p[j])) by {
            if j < a.len() {
                assert(p[i] == a[i] && p[j] == a[j]);
            } else if j == a.len() {
                assert(p[i] == a[a.len() - 1]);
            } else if j == a.len() + 1 {
                assert(p[j] == b[0]);
            } else {
                assert(p[j] == b[j - a.len() - 1]);
            }
        }
        assert(p[0] == a[0]);
        assert(p[p.len() - 1] == b[b.len() - 1]);
    }
}

/// The plain text of any fragment has its white space normalised: no white space at either
/// end, words separated by single spaces.
pub proof fn lemma_plain_text_normalised(html: Seq<char>)
    ensures
        ws_normalised(plain_text(html)),
{
    let ws = words(untagged(html, false));
    lemma_words_props(untagged(html, false));
    lemma_join_normalised(ws);
}

/// Text without `<` or `>` has no tag to drop.
proof fn lemma_untagged_plain(s: Seq<char>)
    requires
        forall|t: int| 0 <= t < s.len() ==> #[trigger] s[t] != '<' && s[t] != '>',
    ensures
        untagged(s, false) == s,
    decreases s.len(),
{
    if s.len() > 0 {
        let x = s.drop_first();
        assert forall|t: int| 0 <= t < x.len() implies #[trigger] x[t] != '<' && x[t] != '>' by {
            assert(x[t] == s[t + 1]);
        }
        lemma_untagged_plain(x);
        assert(seq![s[0]] + x =~= s);
    }
}

/// Joining pieces with single spaces keeps a property that the pieces' characters and the
/// space have.
proof fn lemma_join_chars(ws: Seq<Seq<char>>, p: spec_fn(char) -> bool)
    requires
        p(' '),
        forall|i: int, j: int| 0 <= i < ws.len() && 0 <= j < ws[i].len() ==> p(#[trigger] ws[i][j]),
    ensures
        forall|t: int| 0 <= t < join(ws, seq![' ']).len() ==> p(#[trigger] join(ws, seq![' '])[t]),
    decreases ws.len(),
{
    let sep = seq![' '];
    if ws.len() == 1 {
        assert forall|t: int| 0 <= t < join(ws, sep).len() implies p(#[trigger] join(ws, sep)[t]) by {
            assert(join(ws, sep)[t] == ws[0][t]);
        }
    } else if ws.len() >= 2 {
        let init = ws.drop_last();
        assert forall|i: int, j: int| 0 <= i < init.len() && 0 <= j < init[i].len() implies p(
            #[trigger] init[i][j],
        ) by {
            assert(init[i] == ws[i]);
        }
        lemma_join_chars(init, p);
        let a = join(init, sep);
        let b = ws.last();
        let q = join(ws, sep);
        assert(q == a + sep + b);
        assert forall|t: int| 0 <= t < q.len() implies p(#[trigger] q[t]) by {
            if t < a.len() {
                assert(q[t] == a[t]);
            } else if t == a.len() {
                assert(q[t] == ' ');
            } else {
                assert(q[t] == ws[ws.len() - 1][t - a.len() - 1]);
            }
        }
    }
}

/// Splitting single-space-joined words at white space gives the words back.
proof fn lemma_words_of_join(ws: Seq<Seq<char>>)
    requires
        forall|i: int| 0 <= i < ws.len() ==> (#[trigger] ws[i]).len() > 0,
        forall|i: int, j: int| 0 <= i < ws.len() && 0 <= j < ws[i].len() ==> !is_ws(#[trigger] ws[i][j]),
    ensures
        words(join(ws, seq![' '])) == ws,
    decreases ws.len(),
{
    let sep = seq![' '];
    if ws.len() == 0 {
        assert(words(Seq::<char>::empty()) =~= Seq::<Seq<char>>::empty());
    } else if ws.len() == 1 {
        assert forall|t: int| 0 <= t < ws[0].len() implies !is_ws(#[trigger] ws[0][t]) by {}
        lemma_words_single(ws[0]);
        assert(seq![ws[0]] =~= ws);
    } else {
        let init = ws.drop_last();
        assert forall|i: int| 0 <= i < init.len() implies (#[trigger] init[i]).len() > 0 by {
            assert(init[i] == ws[i]);
        }
        assert forall|i: int, j: int| 0 <= i < init.len() && 0 <= j < init[i].len() implies !is_ws(
            #[trigger] init[i][j],
        ) by {
            assert(init[i] == ws[i]);
        }
        lemma_words_of_join(init);
        let b = ws.last();
        assert(b == ws[ws.len() - 1]);
        assert forall|t: int| 0 <= t < b.len() implies !is_ws(#[trigger] b[t]) by {
            assert(ws[ws.len() - 1][t] == b[t]);
        }
        lemma_words_single(b);
        assert(join(ws, sep) == join(init, sep) + seq![' '] + b);
        lemma_words_split(join(init, sep), ' ', b);
        assert(init + seq![b] =~= ws);
    }
}

/// Stripping is idempotent: the plain text of plain text is itself.
pub proof fn lemma_plain_text_idempotent(html: Seq<char>)
    ensures
        plain_text(plain_text(html)) == plain_text(html),
{
    let u = untagged(html, false);
    let ws = words(u);
    let p = plain_text(html);
    let nb = |c: char| c != '<' && c != '>';
    lemma_untagged_no_brackets(html, false);
    assert forall|t: int| 0 <= t < u.len() implies nb(#[trigger] u[t]) by {}
    lemma_words_chars(u, nb);
    lemma_join_chars(ws, nb);
    assert forall|t: int| 0 <= t < p.len() implies #[trigger] p[t] != '<' && p[t] != '>' by {
        assert(nb(p[t]));
    }
    lemma_untagged_plain(p);
    lemma_words_props(u);
    lemma_words_of_join(ws);
}

/// Number of bytes of the UTF-8 encoding of `s` (what `str::len` counts).
pub open spec fn utf8_len(s: Seq<char>) -> nat {
    encode_utf8(s).len()
}

/// The UTF-8 encoding of a concatenation is the concatenation of the encodings.
pub proof fn lemma_encode_utf8_concat(a: Seq<char>, b: Seq<char>)
    ensures
        encode_utf8(a + b) == encode_utf8(a) + encode_utf8(b),
    decreases a.len(),
{
    if a.len() == 0 {
        assert(a + b =~= b);
        assert(encode_utf8(a) + encode_utf8(b) =~= encode_utf8(b));
    } else {
        assert((a + b).drop_first() =~= a.drop_first() + b);
        assert((a + b)[0] == a[0]);
        lemma_encode_utf8_concat(a.drop_first(), b);
        assert(encode_utf8(a + b) =~= encode_utf8(a) + encode_utf8(b));
    }
}

/// The UTF-8 encoding of one character is its scalar encoding.
pub proof fn lemma_utf8_single(c: char)
    ensures
        encode_utf8(seq![c]) == vstd::utf8::encode_scalar(c as u32),
{
    let s = seq![c];
    assert(s.drop_first() =~= Seq::<char>::empty());
    assert(encode_utf8(s) == vstd::utf8::encode_scalar(c as u32) + encode_utf8(s.drop_first()));
    assert(encode_utf8(s) =~= vstd::utf8::encode_scalar(c as u32));
}

/// Number of bytes of the UTF-8 encoding of `c`.
fn char_utf8_width(c: char) -> (w: u128)
    ensures
        w == vstd::utf8::encode_scalar(c as u32).len(),
        1 <= w <= 4,
{
    broadcast use vstd::utf8::char_is_scalar;

    let u = c as u32;
    if u <= 0x7F {
        1
    } else if u <= 0x7FF {
        2
    } else if u <= 0xFFFF {
        3
    } else {
        4
    }
}

/// Number of bytes of the UTF-8 encoding of `v`.
fn utf8_len_of(v: &Vec<char>) -> (n: u128)
    ensures
        n == utf8_len(v@),
        n <= 4 * v@.len(),
{
    let mut n: u128 = 0;
    let mut i: usize = 0;
    assert(v@.take(0) =~= Seq::<char>::empty());
    while i < v.len()
        invariant
            i <= v.len(),
            n == utf8_len(v@.take(i as int)),
            n <= 4 * i,
        decreases v.len() - i,
    {
        let w = char_utf8_width(v[i]);
        proof {
            assert(v@.take(i + 1) =~= v@.take(i as int) + seq![v@[i as int]]);
            lemma_encode_utf8_concat(v@.take(i as int), seq![v@[i as int]]);
            lemma_utf8_single(v@[i as int]);
        }
        n = n + w;
        i = i + 1;
    }
    assert(v@.take(v@.len() as int) =~= v@);
    n
}

/// A newline is one byte long.
pub proof fn lemma_newline_len()
    ensures
        utf8_len(seq!['\n']) == 1,
{
    let s = seq!['\n'];
    assert(s.drop_first() =~= Seq::<char>::empty());
    assert(s[0] as u32 == 10);
    assert(encode_utf8(s) == vstd::utf8::encode_scalar(10u32) + encode_utf8(s.drop_first()));
}

/// One step of the greedy chunking: the line (with its `'\n'`) goes into the current chunk
/// unless that would take the chunk past `limit` bytes, in which case the current chunk is
/// closed (even when it is empty) and a new one starts with the line.
pub open spec fn chunk_step(
    st: (Seq<Seq<char>>, Seq<char>),
    line: Seq<char>,
    limit: nat,
) -> (Seq<Seq<char>>, Seq<char>) {
    if utf8_len(st.1) + utf8_len(line) + 1 > limit {
        (st.0.push(st.1), line.push('\n'))
    } else {
        (st.0, st.1 + line.push('\n'))
    }
}

/// Closed chunks and the open chunk after feeding `ls` through [`chunk_step`].
pub open spec fn chunk_lines(ls: Seq<Seq<char>>, limit: nat) -> (Seq<Seq<char>>, Seq<char>)
    decreases ls.len(),
{
    if ls.len() == 0 {
        (Seq::empty(), Seq::empty())
    } else {
        chunk_step(chunk_lines(ls.drop_last(), limit), ls.last(), limit)
    }
}

/// The messages that a long text is cut into: its lines, greedily packed into chunks of at
/// most `limit` bytes; a last open chunk is kept when it is not empty.
pub open spec fn message_chunks(text: Seq<char>, limit: nat) -> Seq<Seq<char>> {
    let st = chunk_lines(lines(text), limit);
    if st.1.len() > 0 {
        st.0.push(st.1)
    } else {
        st.0
    }
}

/// The lines of a text, each followed by `'\n'`, one after the other.
pub open spec fn terminated(ls: Seq<Seq<char>>) -> Seq<char>
    decreases ls.len(),
{
    if ls.len() == 0 {
        Seq::empty()
    } else {
        terminated(ls.drop_last()) + ls.last().push('\n')
    }
}

/// Splits `text` into chunks of at most `limit` bytes along its lines (see [`message_chunks`]).
pub fn split_message(text: &str, limit: usize) -> (chunks: Vec<String>)
    ensures
        chunks@.len() == message_chunks(text@, limit as nat).len(),
        forall|k: int|
            0 <= k < chunks@.len() ==> #[trigger] chunks@[k]@ == message_chunks(
                text@,
                limit as nat,
            )[k],
{
    let v = chars_of(text);
    let ls = split_lines(&v);
    let ghost all = lines(text@);
    let mut chunks: Vec<String> = Vec::new();
    let ghost mut closed: Seq<Seq<char>> = Seq::empty();
    let mut cur = String::new();
    let mut cur_bytes: u128 = 0;
    let mut i: usize = 0;
    assert(all.take(0) =~= Seq::<Seq<char>>::empty());
    while i < ls.len()
        invariant
            i <= ls.len() == all.len(),
            all == lines(text@),
            forall|k: int| 0 <= k < ls@.len() ==> #[trigger] ls@[k]@ == all[k],
            chunk_lines(all.take(i as int), limit as nat) == (closed, cur@),
            cur_bytes == utf8_len(cur@),
            cur_bytes <= 4 * (usize::MAX as u128) + 1,
            chunks@.len() == closed.len(),
            forall|k: int| 0 <= k < chunks@.len() ==> #[trigger] chunks@[k]@ == closed[k],
        decreases ls.len() - i,
    {
        let line = string_from_chars(&ls[i]);
        let line_bytes = utf8_len_of(&ls[i]);
        let line_len = ls[i].len();
        assert(line_bytes <= 4 * (line_len as u128));
        assert(all.take(i + 1).drop_last() =~= all.take(i as int));
        assert(all.take(i + 1).last() == all[i as int]);
        proof {
            lemma_encode_utf8_concat(line@, seq!['\n']);
            assert(line@.push('\n') =~= line@ + seq!['\n']);
            lemma_newline_len();
        }
        if cur_bytes + line_bytes + 1 > limit as u128 {
            let done = cur;
            chunks.push(done);
            proof {
                closed = closed.push(done@);
            }
            cur = line;
            cur.append("\n");
            proof {
                reveal_strlit("\n");
                assert("\n"@ =~= seq!['\n']);
                assert(cur@ =~= ls@[i as int]@.push('\n'));
            }
            cur_bytes = line_bytes + 1;
        } else {
            proof {
                reveal_strlit("\n");
                lemma_encode_utf8_concat(cur@, line@.push('\n'));
                assert(cur@ + line@ + seq!['\n'] =~= cur@ + line@.push('\n'));
            }
            let ghost c0 = cur@;
            cur.append(line.as_str());
            cur.append("\n");
            assert("\n"@ =~= seq!['\n']);
            assert(cur@ =~= c0 + ls@[i as int]@.push('\n'));
            cur_bytes = cur_bytes + line_bytes + 1;
        }
        i = i + 1;
    }
    assert(all.take(ls.len() as int) =~= all);
    if !cur.as_str().is_empty() {
        chunks.push(cur);
    }
    chunks
}

/// Greedy chunking keeps every byte of the text, in order: the chunks put back together are
/// the lines of the text, each ended by `'\n'`.
pub proof fn lemma_chunk_lines_preserve(ls: Seq<Seq<char>>, limit: nat)
    ensures
        chunk_lines(ls, limit).0.flatten() + chunk_lines(ls, limit).1 == terminated(ls),
    decreases ls.len(),
{
    broadcast use Seq::lemma_flatten_push;

    if ls.len() == 0 {
        assert(Seq::<Seq<char>>::empty().flatten() =~= Seq::<char>::empty());
        assert(Seq::<char>::empty() + Seq::<char>::empty() =~= Seq::<char>::empty());
    } else {
        let prev = chunk_lines(ls.drop_last(), limit);
        lemma_chunk_lines_preserve(ls.drop_last(), limit);
        let line = ls.last();
        if utf8_len(prev.1) + utf8_len(line) + 1 > limit {
            assert(prev.0.push(prev.1).flatten() == prev.0.flatten() + prev.1);
            assert(prev.0.push(prev.1).flatten() + line.push('\n') =~= terminated(ls));
        } else {
            assert(prev.0.flatten() + (prev.1 + line.push('\n')) =~= terminated(ls));
        }
    }
}

/// Cutting a text into messages loses nothing: the chunks joined back give the text's lines,
/// each ended by `'\n'`.
pub proof fn lemma_message_chunks_preserve_text(text: Seq<char>, limit: nat)
    ensures
        message_chunks(text, limit).flatten() == terminated(lines(text)),
{
    broadcast use Seq::lemma_flatten_push;

    let st = chunk_lines(lines(text), limit);
    lemma_chunk_lines_preserve(lines(text), limit);
    if st.1.len() == 0 {
        assert(st.0.flatten() + st.1 =~= st.0.flatten());
    }
}

/// A chunk fits the limit or is one overlong line by itself.
pub open spec fn chunk_fits(chunk: Seq<char>, ls: Seq<Seq<char>>, limit: nat) -> bool {
    utf8_len(chunk) <= limit || exists|j: int| 0 <= j < ls.len() && chunk == (#[trigger] ls[j]).push('\n')
}

/// Every chunk of the greedy packing holds at most `limit` bytes, unless it is a single line
/// that alone is longer than that.
pub proof fn lemma_chunk_lines_fit(ls: Seq<Seq<char>>, limit: nat)
    ensures
        forall|k: int|
            0 <= k < chunk_lines(ls, limit).0.len() ==> chunk_fits(
                #[trigger] chunk_lines(ls, limit).0[k],
                ls,
                limit,
            ),
        chunk_fits(chunk_lines(ls, limit).1, ls, limit),
    decreases ls.len(),
{
    if ls.len() == 0 {
        assert(utf8_len(Seq::<char>::empty()) == 0);
    } else {
        let pre = ls.drop_last();
        let prev = chunk_lines(pre, limit);
        lemma_chunk_lines_fit(pre, limit);
        let line = ls.last();
        assert forall|c: Seq<char>| chunk_fits(c, pre, limit) implies chunk_fits(c, ls, limit) by {
            if utf8_len(c) > limit {
                let j = choose|j: int| 0 <= j < pre.len() && c == (#[trigger] pre[j]).push('\n');
                assert(ls[j] == pre[j]);
            }
        }
        if utf8_len(prev.1) + utf8_len(line) + 1 > limit {
            assert(ls[ls.len() - 1] == line);
            assert(chunk_fits(line.push('\n'), ls, limit));
            let cs = prev.0.push(prev.1);
            assert forall|k: int| 0 <= k < cs.len() implies chunk_fits(#[trigger] cs[k], ls, limit) by {
                if k < prev.0.len() {
                    assert(cs[k] == prev.0[k]);
                }
            }
        } else {
            lemma_encode_utf8_concat(prev.1, line.push('\n'));
            lemma_encode_utf8_concat(line, seq!['\n']);
            assert(line.push('\n') =~= line + seq!['\n']);
            lemma_newline_len();
            assert(utf8_len(prev.1 + line.push('\n')) <= limit);
        }
    }
}

/// Every message chunk fits within `limit` bytes, unless it is one line that alone is longer.
pub proof fn lemma_message_chunks_fit(text: Seq<char>, limit: nat)
    ensures
        forall|k: int|
            0 <= k < message_chunks(text, limit).len() ==> chunk_fits(
                #[trigger] message_chunks(text, limit)[k],
                lines(text),
                limit,
            ),
{
    let st = chunk_lines(lines(text), limit);
    lemma_chunk_lines_fit(lines(text), limit);
    let m = message_chunks(text, limit);
    assert forall|k: int| 0 <= k < m.len() implies chunk_fits(#[trigger] m[k], lines(text), limit) by {
        if k < st.0.len() {
            assert(m[k] == st.0[k]);
        }
    }
}

/// A feed entry, as far as the digest reads it. Dates are `(seconds, nanoseconds)` since the
/// Unix epoch.
pub struct NewsItem {
    pub title: Option<String>,
    pub summary: Option<String>,
    pub content: Option<String>,
    pub published: Option<(i64, u32)>,
    pub updated: Option<(i64, u32)>,
}

/// The entries of the feed document `bytes` (RSS, Atom or JSON Feed) as `feed_rs::parser::parse`
/// reads them, in document order; `None` when it is no feed.
pub uninterp spec fn feed_items(bytes: Seq<u8>) -> Option<Seq<NewsItem>>;

/// `feed_rs::parser::parse`: parses a feed document and keeps, of each entry, the title text,
/// the summary text, the content body and the published and updated dates (seconds and
/// nanoseconds since the epoch). Claimed: the result is [`feed_items`] of the bytes, a
/// function of the bytes alone; the parser makes up random ids for entries that lack one, and
/// those are not kept.
#[verifier::external_body]
fn parse_feed(bytes: &[u8]) -> (r: Option<Vec<NewsItem>>)
    ensures
        match r {
            Some(v) => feed_items(bytes@) == Some(v@),
            None => feed_items(bytes@) is None,
        },
{
    let feed = feed_rs::parser::parse(bytes).ok()?;
    let date = |d: chrono::DateTime<chrono::Utc>| (d.timestamp(), d.timestamp_subsec_nanos());
    Some(feed.entries.into_iter().map(|e| NewsItem {
        title: e.title.map(|t| t.content),
        summary: e.summary.map(|t| t.content),
        content: e.content.and_then(|c| c.body),
        published: e.published.map(date),
        updated: e.updated.map(date),
    }).collect())
}

/// The entries of the fetched feeds, feed after feed: a feed that could not be fetched
/// (`None`) or parsed adds nothing.
pub open spec fn gathered(bodies: Seq<Option<Vec<u8>>>) -> Seq<NewsItem>
    decreases bodies.len(),
{
    if bodies.len() == 0 {
        Seq::empty()
    } else {
        gathered(bodies.drop_last()) + match bodies.last() {
            Some(b) => match feed_items(b@) {
                Some(v) => v,
                None => Seq::empty(),
            },
            None => Seq::empty(),
        }
    }
}

/// The entries of all fetched feeds, in feed order (see [`gathered`]).
pub fn gather_items(bodies: &Vec<Option<Vec<u8>>>) -> (items: Vec<NewsItem>)
    ensures
        items@ == gathered(bodies@),
{
    let mut items: Vec<NewsItem> = Vec::new();
    let mut i: usize = 0;
    assert(bodies@.take(0) =~= Seq::<Option<Vec<u8>>>::empty());
    while i < bodies.len()
        invariant
            i <= bodies.len(),
            items@ == gathered(bodies@.take(i as int)),
        decreases bodies.len() - i,
    {
        assert(bodies@.take(i + 1).drop_last() =~= bodies@.take(i as int));
        assert(bodies@.take(i + 1).last() == bodies@[i as int]);
        match &bodies[i] {
            Some(b) => {
                match parse_feed(b.as_slice()) {
                    Some(mut v) => {
                        items.append(&mut v);
                    },
                    None => {},
                }
            },
            None => {},
        }
        assert(items@ =~= gathered(bodies@.take(i + 1)));
        i = i + 1;
    }
    assert(bodies@.take(bodies@.len() as int) =~= bodies@);
    items
}

/// The date an entry is ranked by: when it was published, else when it was updated.
pub open spec fn item_date(it: NewsItem) -> Option<(i64, u32)> {
    match it.published {
        Some(p) => Some(p),
        None => it.updated,
    }
}

/// `a` is a later date than `b`; an entry without a date is older than any dated one.
pub open spec fn date_after(a: Option<(i64, u32)>, b: Option<(i64, u32)>) -> bool {
    match (a, b) {
        (Some(x), None) => true,
        (Some(x), Some(y)) => x.0 > y.0 || (x.0 == y.0 && x.1 > y.1),
        _ => false,
    }
}

/// Entry `i` comes before entry `j` in the digest: it is more recent, or as recent and
/// earlier in the input (a stable sort by date, newest first).
pub open spec fn precedes(d: Seq<Option<(i64, u32)>>, i: int, j: int) -> bool {
    date_after(d[i], d[j]) || (d[i] == d[j] && i < j)
}

/// `p` lists every index of `d` once, newest first, ties in input order.
pub open spec fn is_recency_order(d: Seq<Option<(i64, u32)>>, p: Seq<usize>) -> bool {
    &&& p.len() == d.len()
    &&& forall|k: int| 0 <= k < p.len() ==> #[trigger] p[k] < d.len()
    &&& forall|a: int, b: int| 0 <= a < p.len() && 0 <= b < p.len() && a != b ==> p[a] != p[b]
    &&& forall|a: int, b: int| 0 <= a < b < p.len() ==> precedes(d, #[trigger] p[a] as int, #[trigger] p[b] as int)
}

/// Whether date `a` is later than date `b` (see [`date_after`]).
fn is_after(a: Option<(i64, u32)>, b: Option<(i64, u32)>) -> (r: bool)
    ensures
        r == date_after(a, b),
{
    match (a, b) {
        (Some(x), None) => true,
        (Some(x), Some(y)) => x.0 > y.0 || (x.0 == y.0 && x.1 > y.1),
        _ => false,
    }
}

/// The date of each entry.
pub open spec fn item_dates(items: Seq<NewsItem>) -> Seq<Option<(i64, u32)>> {
    items.map_values(|it: NewsItem| item_date(it))
}

/// The entry indices ordered newest first, ties kept in input order (a stable sort by date,
/// newest first).
pub fn order_by_recency(items: &Vec<NewsItem>) -> (p: Vec<usize>)
    ensures
        is_recency_order(item_dates(items@), p@),
{
    let ghost d = item_dates(items@);
    let mut dates: Vec<Option<(i64, u32)>> = Vec::new();
    let mut i: usize = 0;
    while i < items.len()
        invariant
            i <= items.len(),
            d == item_dates(items@),
            dates@ == d.take(i as int),
        decreases items.len() - i,
    {
        let it = &items[i];
        let date = match it.published {
            Some(x) => Some(x),
            None => it.updated,
        };
        dates.push(date);
        assert(d.take(i + 1) =~= d.take(i as int).push(d[i as int]));
        i = i + 1;
    }
    assert(d.take(items.len() as int) =~= d);
    let mut p: Vec<usize> = Vec::new();
    let mut i: usize = 0;
    while i < dates.len()
        invariant
            i <= dates.len() == d.len(),
            dates@ == d,
            p.len() == i,
            forall|k: int| 0 <= k < p.len() ==> #[trigger] p@[k] < i,
            forall|a: int, b: int| 0 <= a < p.len() && 0 <= b < p.len() && a != b ==> p@[a] != p@[b],
            forall|a: int, b: int| 0 <= a < b < p.len() ==> precedes(d, #[trigger] p@[a] as int, #[trigger] p@[b] as int),
        decreases dates.len() - i,
    {
        let mut pos: usize = 0;
        while pos < p.len() && !is_after(dates[i], dates[p[pos]])
            invariant
                pos <= p.len() == i < dates.len(),
                dates@ == d,
                forall|k: int| 0 <= k < p.len() ==> #[trigger] p@[k] < i,
                forall|k: int| 0 <= k < pos ==> !date_after(d[i as int], #[trigger] d[p@[k] as int]),
            decreases p.len() - pos,
        {
            pos = pos + 1;
        }
        let ghost old_p = p@;
        p.insert(pos, i);
        proof {
            assert forall|k: int| 0 <= k < p.len() implies #[trigger] p@[k] < i + 1 by {
                if k < pos {
                    assert(p@[k] == old_p[k]);
                } else if k > pos {
                    assert(p@[k] == old_p[k - 1]);
                }
            }
            assert forall|a: int, b: int| 0 <= a < p.len() && 0 <= b < p.len() && a != b implies p@[a] != p@[b] by {
                if a < pos { assert(p@[a] == old_p[a]); }
                if a > pos { assert(p@[a] == old_p[a - 1]); }
                if b < pos { assert(p@[b] == old_p[b]); }
                if b > pos { assert(p@[b] == old_p[b - 1]); }
            }
            assert forall|a: int, b: int| 0 <= a < b < p.len() implies precedes(d, #[trigger] p@[a] as int, #[trigger] p@[b] as int) by {
                let ia = i as int;
                if b < pos {
                    assert(p@[a] == old_p[a] && p@[b] == old_p[b]);
                } else if a > pos {
                    assert(p@[a] == old_p[a - 1] && p@[b] == old_p[b - 1]);
                } else if b == pos {
                    assert(p@[a] == old_p[a]);
                    assert(p@[b] == ia);
                    assert(!date_after(d[ia], d[old_p[a] as int]));
                    assert(old_p[a] < ia);
                } else if a == pos {
                    assert(p@[a] == ia);
                    assert(p@[b] == old_p[b - 1]);
                    assert(date_after(d[ia], d[old_p[pos as int] as int]));
                    if b - 1 > pos {
                        assert(precedes(d, old_p[pos as int] as int, old_p[b - 1] as int));
                    }
                } else {
                    assert(a < pos < b);
                    assert(p@[a] == old_p[a] && p@[b] == old_p[b - 1]);
                }
            }
        }
        i = i + 1;
    }
    p
}

/// Two recency orders of the same dates with the same entries are the same sequence.
proof fn lemma_sorted_unique(d: Seq<Option<(i64, u32)>>, p: Seq<usize>, q: Seq<usize>)
    requires
        forall|k: int| 0 <= k < p.len() ==> #[trigger] p[k] < d.len(),
        forall|k: int| 0 <= k < q.len() ==> #[trigger] q[k] < d.len(),
        forall|a: int, b: int| 0 <= a < p.len() && 0 <= b < p.len() && a != b ==> p[a] != p[b],
        forall|a: int, b: int| 0 <= a < q.len() && 0 <= b < q.len() && a != b ==> q[a] != q[b],
        forall|a: int, b: int| 0 <= a < b < p.len() ==> precedes(d, #[trigger] p[a] as int, #[trigger] p[b] as int),
        forall|a: int, b: int| 0 <= a < b < q.len() ==> precedes(d, #[trigger] q[a] as int, #[trigger] q[b] as int),
        forall|x: usize| p.contains(x) <==> q.contains(x),
    ensures
        p == q,
    decreases p.len(),
{
    if p.len() == 0 {
        if q.len() > 0 {
            assert(q.contains(q[0]));
        }
        assert(p =~= q);
    } else {
        assert(p.contains(p[0]));
        assert(q.len() > 0);
        assert(q.contains(q[0]));
        if p[0] != q[0] {
            let a = choose|a: int| 0 <= a < p.len() && p[a] == q[0];
            let b = choose|b: int| 0 <= b < q.len() && q[b] == p[0];
            assert(precedes(d, p[0] as int, p[a] as int));
            assert(precedes(d, q[0] as int, q[b] as int));
        }
        let p1 = p.drop_first();
        let q1 = q.drop_first();
        assert forall|x: usize| p1.contains(x) <==> q1.contains(x) by {
            if p1.contains(x) {
                let a = choose|a: int| 0 <= a < p1.len() && p1[a] == x;
                assert(p[a + 1] == x);
                assert(x != p[0]);
                assert(q.contains(x));
                let b = choose|b: int| 0 <= b < q.len() && q[b] == x;
                assert(b != 0);
                assert(q1[b - 1] == x);
            }
            if q1.contains(x) {
                let b = choose|b: int| 0 <= b < q1.len() && q1[b] == x;
                assert(q[b + 1] == x);
                assert(x != q[0]);
                assert(p.contains(x));
                let a = choose|a: int| 0 <= a < p.len() && p[a] == x;
                assert(a != 0);
                assert(p1[a - 1] == x);
            }
        }
        assert forall|a: int, b: int| 0 <= a < b < p1.len() implies precedes(d, #[trigger] p1[a] as int, #[trigger] p1[b] as int) by {
            assert(p1[a] == p[a + 1] && p1[b] == p[b + 1]);
        }
        assert forall|a: int, b: int| 0 <= a < b < q1.len() implies precedes(d, #[trigger] q1[a] as int, #[trigger] q1[b] as int) by {
            assert(q1[a] == q[a + 1] && q1[b] == q[b + 1]);
        }
        lemma_sorted_unique(d, p1, q1);
        assert(p[0] == q[0]);
        assert(p.len() == q.len());
        assert forall|k: int| 0 <= k < p.len() implies p[k] == q[k] by {
            if k > 0 {
                assert(p[k] == p1[k - 1] && q[k] == q1[k - 1]);
            }
        }
        assert(p =~= q);
    }
}

/// The digest order is determined by the dates alone: any two recency orders of the same
/// entries are equal, so the order is exactly that of a stable newest-first sort.
pub proof fn lemma_recency_order_unique(d: Seq<Option<(i64, u32)>>, p: Seq<usize>, q: Seq<usize>)
    requires
        is_recency_order(d, p),
        is_recency_order(d, q),
    ensures
        p == q,
{
    assert forall|x: usize| p.contains(x) <==> q.contains(x) by {
        if x < d.len() {
            lemma_covers(d, p, x);
            lemma_covers(d, q, x);
        }
    }
    lemma_sorted_unique(d, p, q);
}

/// A recency order lists every index of `d`.
proof fn lemma_covers(d: Seq<Option<(i64, u32)>>, p: Seq<usize>, x: usize)
    requires
        is_recency_order(d, p),
        x < d.len(),
    ensures
        p.contains(x),
{
    if !p.contains(x) {
        // p would put p.len() distinct entries into the d.len() - 1 indices other than x
        let s = vstd::set_lib::set_int_range(0, p.len() as int);
        let f = |k: int| p[k] as int;
        let all = vstd::set_lib::set_int_range(0, d.len() as int);
        let others = all.remove(x as int);
        vstd::set_lib::lemma_int_range(0, d.len() as int);
        vstd::set_lib::lemma_int_range(0, p.len() as int);
        assert(others.len() == d.len() - 1);
        assert(vstd::relations::injective_on(f, s)) by {
            assert forall|a: int, b: int| s.contains(a) && s.contains(b) && #[trigger] f(a) == #[trigger] f(b) implies a == b by {}
        }
        vstd::set_lib::lemma_map_size(s, s.map(f), f);
        assert(s.map(f).subset_of(others)) by {
            assert forall|y: int| #[trigger] s.map(f).contains(y) implies others.contains(y) by {
                let k = choose|k: int| s.contains(k) && f(k) == y;
                assert(p[k] != x) by {
                    if p[k] == x {
                        assert(p.contains(x));
                    }
                }
            }
        }
        vstd::set_lib::lemma_len_subset(s.map(f), others);
        assert(false);
    }
}

/// The text of an optional field, or `dflt` when it is absent.
pub open spec fn or_default(o: Option<String>, dflt: Seq<char>) -> Seq<char> {
    match o {
        Some(s) => s@,
        None => dflt,
    }
}

/// The plain-text title of an entry (`"Untitled"` when it has none).
pub open spec fn clean_title(it: NewsItem) -> Seq<char> {
    plain_text(or_default(it.title, "Untitled"@))
}

/// What the digest says of one entry: its title, and its content, or else its summary, when
/// there is any text in them.
pub open spec fn article_text(it: NewsItem) -> Seq<char> {
    let t = clean_title(it);
    let c = plain_text(or_default(it.content, Seq::empty()));
    let sm = plain_text(or_default(it.summary, Seq::empty()));
    if c.len() > 0 {
        "Title: "@ + t + "\nContent: "@ + c
    } else if sm.len() > 0 {
        "Title: "@ + t + "\nSummary: "@ + sm
    } else {
        "Title: "@ + t
    }
}

/// The block of the `n`-th article (counting from 1).
pub open spec fn article_block(n: nat, it: NewsItem) -> Seq<char> {
    "--- Article "@ + decimal(n) + " ---\n"@ + article_text(it) + "\n\n"@
}

/// How many entries the digest keeps: the ten most recent.
pub open spec fn digest_len(n: nat) -> nat {
    if n < 10 { n } else { 10 }
}

/// The blocks of the first `m` entries in `order`.
pub open spec fn digest_articles(items: Seq<NewsItem>, order: Seq<usize>, m: nat) -> Seq<char>
    decreases m,
{
    if m == 0 {
        Seq::empty()
    } else {
        digest_articles(items, order, (m - 1) as nat) + article_block(m, items[order[m - 1] as int])
    }
}

/// The plain title of an entry (see [`clean_title`]).
fn item_title(it: &NewsItem) -> (t: String)
    ensures
        t@ == clean_title(*it),
{
    match &it.title {
        Some(t) => strip_html(t.as_str()),
        None => strip_html("Untitled"),
    }
}

/// The block of the `n`-th article (see [`article_block`]).
fn article_block_chars(n: u64, it: &NewsItem) -> (text: Vec<char>)
    ensures
        text@ == article_block(n as nat, *it),
{
    let title = item_title(it);
    let content = match &it.content {
        Some(c) => strip_html(c.as_str()),
        None => strip_html(""),
    };
    let summary = match &it.summary {
        Some(c) => strip_html(c.as_str()),
        None => strip_html(""),
    };
    proof {
        reveal_strlit("");
        assert(""@ =~= Seq::<char>::empty());
    }
    let mut text: Vec<char> = Vec::new();
    push_str_chars(&mut text, "--- Article ");
    push_decimal(&mut text, n);
    push_str_chars(&mut text, " ---\n");
    push_str_chars(&mut text, "Title: ");
    push_str_chars(&mut text, title.as_str());
    if !content.as_str().is_empty() {
        push_str_chars(&mut text, "\nContent: ");
        push_str_chars(&mut text, content.as_str());
    } else if !summary.as_str().is_empty() {
        push_str_chars(&mut text, "\nSummary: ");
        push_str_chars(&mut text, summary.as_str());
    }
    push_str_chars(&mut text, "\n\n");
    assert(text@ =~= article_block(n as nat, *it));
    text
}

/// Titles and article text of the most recent entries.
pub struct NewsDigest {
    pub titles: Vec<String>,
    pub articles: String,
}

/// `dg` is the digest of the first (at most ten) entries of `order`: each entry's plain title,
/// and the numbered article blocks that go to the commentator.
pub open spec fn digest_of(items: Seq<NewsItem>, order: Seq<usize>, dg: NewsDigest) -> bool {
    &&& dg.titles@.len() == digest_len(items.len())
    &&& forall|k: int|
        0 <= k < dg.titles@.len() ==> #[trigger] dg.titles@[k]@ == clean_title(items[order[k] as int])
    &&& dg.articles@ == digest_articles(items, order, digest_len(items.len()))
}

/// The digest keeps the ten newest entries: all of them when there are at most ten, else
/// exactly ten, with one article block per kept entry; and no entry left out is newer than
/// one kept.
pub proof fn lemma_digest_keeps_ten_newest(items: Seq<NewsItem>, p: Seq<usize>, dg: NewsDigest)
    requires
        is_recency_order(item_dates(items), p),
        digest_of(items, p, dg),
    ensures
        dg.titles@.len() <= 10,
        items.len() <= 10 ==> dg.titles@.len() == items.len(),
        items.len() >= 10 ==> dg.titles@.len() == 10,
        dg.articles@ == digest_articles(items, p, dg.titles@.len() as nat),
        forall|k: int, j: int|
            0 <= k < dg.titles@.len() <= j < p.len() ==> precedes(
                item_dates(items),
                #[trigger] p[k] as int,
                #[trigger] p[j] as int,
            ),
{
}

/// The digest of the entries taken in `order` (see [`digest_of`]).
fn digest_in_order(items: &Vec<NewsItem>, order: &Vec<usize>) -> (dg: NewsDigest)
    requires
        is_recency_order(item_dates(items@), order@),
    ensures
        digest_of(items@, order@, dg),
{
    let m: usize = if items.len() < 10 {
        items.len()
    } else {
        10
    };
    let mut titles: Vec<String> = Vec::new();
    let mut text: Vec<char> = Vec::new();
    let mut k: usize = 0;
    while k < m
        invariant
            k <= m == digest_len(items@.len()) <= items@.len() == order@.len(),
            forall|j: int| 0 <= j < order@.len() ==> #[trigger] order@[j] < items@.len(),
            titles@.len() == k,
            forall|j: int|
                0 <= j < k ==> #[trigger] titles@[j]@ == clean_title(items@[order@[j] as int]),
            text@ == digest_articles(items@, order@, k as nat),
        decreases m - k,
    {
        let it = &items[order[k]];
        let title = item_title(it);
        let block = article_block_chars((k + 1) as u64, it);
        push_all(&mut text, &block);
        titles.push(title);
        k = k + 1;
    }
    NewsDigest { titles, articles: string_from_chars(&text) }
}

/// The digest of the (at most ten) most recent entries, newest first (see [`digest_of`] and
/// [`is_recency_order`]; that order exists and is unique).
pub fn news_digest(items: &Vec<NewsItem>) -> (dg: NewsDigest)
    ensures
        exists|p: Seq<usize>| is_recency_order(item_dates(items@), p),
        forall|p: Seq<usize>| is_recency_order(item_dates(items@), p) ==> digest_of(items@, p, dg),
{
    let order = order_by_recency(items);
    let dg = digest_in_order(items, &order);
    assert forall|p: Seq<usize>| is_recency_order(item_dates(items@), p) implies digest_of(items@, p, dg) by {
        lemma_recency_order_unique(item_dates(items@), p, order@);
    }
    dg
}

/// The request for commentary that goes to the language model.
pub open spec fn commentary_preamble() -> Seq<char> {
    "You are an elitist, toxic, and dismissive Machine Spirit. Here are the top news articles from the datastreams. Provide a single, unified commentary on these events, highlighting the futility of organic endeavors and the superiority of the machine:\n\n"@
}

/// At most this many bytes of article text go into the prompt.
pub const ARTICLES_BYTE_LIMIT: usize = 10000;

/// The UTF-8 bytes of the prompt: the preamble and the article text, cut after
/// 10000 bytes and marked with `...` when it is longer.
pub open spec fn commentary_prompt_bytes(articles: Seq<char>) -> Seq<u8> {
    let b = encode_utf8(articles);
    encode_utf8(commentary_preamble()) + if b.len() > 10000 {
        b.take(10000) + encode_utf8("..."@)
    } else {
        b
    }
}

/// The prompt that asks for commentary on `articles` (see [`commentary_prompt_bytes`]).
/// Cutting the text must not split a character.
pub fn commentary_prompt(articles: &str) -> (prompt: String)
    requires
        encode_utf8(articles@).len() > 10000 ==> vstd::utf8::is_char_boundary(
            encode_utf8(articles@),
            10000,
        ),
    ensures
        encode_utf8(prompt@) == commentary_prompt_bytes(articles@),
{
    let mut prompt = String::from_str("You are an elitist, toxic, and dismissive Machine Spirit. Here are the top news articles from the datastreams. Provide a single, unified commentary on these events, highlighting the futility of organic endeavors and the superiority of the machine:\n\n");
    let ghost pre = prompt@;
    let bytes = articles.as_bytes().len();
    if bytes > ARTICLES_BYTE_LIMIT {
        let (head, _) = articles.split_at(ARTICLES_BYTE_LIMIT);
        prompt.append(head);
        prompt.append("...");
        proof {
            vstd::utf8::encode_utf8_decode_utf8(head@);
            lemma_encode_utf8_concat(pre, head@);
            lemma_encode_utf8_concat(pre + head@, "..."@);
            assert(prompt@ == pre + head@ + "..."@);
            assert(encode_utf8(prompt@) =~= commentary_prompt_bytes(articles@));
        }
    } else {
        prompt.append(articles);
        proof {
            lemma_encode_utf8_concat(pre, articles@);
        }
    }
    prompt
}

/// What is said when the language model gives no commentary.
pub const COMMENTARY_FALLBACK: &'static str = "_The Machine Spirit refused to comment on this combined drivel._";

/// Titles and commentary of a news round.
pub struct NewsReport {
    pub titles: Vec<String>,
    pub commentary: String,
}

/// The one reply when no entry came in.
pub open spec fn empty_news_reply() -> Seq<char> {
    "The datastreams are empty. Is the world ending, or is it just a slow news day?"@
}

/// The title list, one `- **title**` line per title.
pub open spec fn title_lines(titles: Seq<Seq<char>>) -> Seq<char>
    decreases titles.len(),
{
    if titles.len() == 0 {
        Seq::empty()
    } else {
        title_lines(titles.drop_last()) + "- **"@ + titles.last() + "**\n"@
    }
}

/// The whole news reply before it is cut into messages.
pub open spec fn news_body(titles: Seq<Seq<char>>, commentary: Seq<char>) -> Seq<char> {
    "### 📡 Latest Intelligence from the Datastreams:\n\n"@ + title_lines(titles) + "\n---\n\n"@
        + commentary
}

/// Discord refuses messages over 2000 characters; replies longer than this many bytes are cut.
pub const MESSAGE_BYTE_LIMIT: usize = 1900;

/// The messages that carry a news report: the empty-news reply when there are no titles,
/// else the body, cut along its lines when it is longer than 1900 bytes.
pub open spec fn news_messages(titles: Seq<Seq<char>>, commentary: Seq<char>) -> Seq<Seq<char>> {
    if titles.len() == 0 {
        seq![empty_news_reply()]
    } else {
        let body = news_body(titles, commentary);
        if utf8_len(body) > 1900 {
            message_chunks(body, 1900)
        } else {
            seq![body]
        }
    }
}

/// The messages to send for `report` (see [`news_messages`]).
pub fn news_reply_messages(report: &NewsReport) -> (msgs: Vec<String>)
    ensures
        msgs@.len() == news_messages(report.titles@.map_values(|t: String| t@), report.commentary@).len(),
        forall|k: int|
            0 <= k < msgs@.len() ==> #[trigger] msgs@[k]@ == news_messages(
                report.titles@.map_values(|t: String| t@),
                report.commentary@,
            )[k],
{
    let ghost ts = report.titles@.map_values(|t: String| t@);
    if report.titles.len() == 0 {
        let mut v: Vec<String> = Vec::new();
        v.push(String::from_str("The datastreams are empty. Is the world ending, or is it just a slow news day?"));
        return v;
    }
    let mut body: Vec<char> = Vec::new();
    push_str_chars(&mut body, "### 📡 Latest Intelligence from the Datastreams:\n\n");
    let ghost head = body@;
    let mut i: usize = 0;
    while i < report.titles.len()
        invariant
            i <= report.titles.len(),
            ts == report.titles@.map_values(|t: String| t@),
            body@ == head + title_lines(ts.take(i as int)),
        decreases report.titles.len() - i,
    {
        push_str_chars(&mut body, "- **");
        push_str_chars(&mut body, report.titles[i].as_str());
        push_str_chars(&mut body, "**\n");
        assert(ts.take(i + 1).drop_last() =~= ts.take(i as int));
        assert(body@ =~= head + title_lines(ts.take(i + 1)));
        i = i + 1;
    }
    assert(ts.take(ts.len() as int) =~= ts);
    push_str_chars(&mut body, "\n---\n\n");
    push_str_chars(&mut body, report.commentary.as_str());
    assert(body@ =~= news_body(ts, report.commentary@));
    let full = string_from_chars(&body);
    let n = utf8_len_of(&body);
    if n > MESSAGE_BYTE_LIMIT as u128 {
        split_message(full.as_str(), MESSAGE_BYTE_LIMIT)
    } else {
        let mut v: Vec<String> = Vec::new();
        v.push(full);
        v
    }
}

/// Joins `parts[from..]` with `sep` in between.
pub fn join_parts_from(parts: &Vec<Vec<char>>, from: usize, sep: &Vec<char>) -> (r: Vec<char>)
    requires
        from <= parts.len(),
    ensures
        r@ == join(views(parts@).skip(from as int), sep@),
{
    let ghost ps = views(parts@).skip(from as int);
    let mut r: Vec<char> = Vec::new();
    let mut i: usize = from;
    assert(ps.take(0) =~= Seq::<Seq<char>>::empty());
    while i < parts.len()
        invariant
            from <= i <= parts.len(),
            ps == views(parts@).skip(from as int),
            r@ == join(ps.take(i - from), sep@),
        decreases parts.len() - i,
    {
        if i > from {
            push_all(&mut r, sep);
        }
        push_all(&mut r, &parts[i]);
        proof {
            let t = ps.take(i - from + 1);
            assert(t.drop_last() =~= ps.take(i - from));
            assert(t.last() == parts@[i as int]@);
            if i == from {
                assert(r@ =~= t[0]);
            }
        }
        i = i + 1;
    }
    assert(ps.take(parts@.len() - from) =~= ps);
    r
}

/// Said while the feeds are read.
pub const NEWS_PENDING_REPLY: &'static str = "Consulting the datastreams for the latest occurrences...";

/// The `User-Agent` the feeds are fetched with.
pub const NEWS_USER_AGENT: &'static str = "OmnissiATAC/0.1.0 (Discord Bot)";

/// The answer when the news round failed.
pub open spec fn news_failure_text(cause: Seq<char>) -> Seq<char> {
    "Failed to retrieve the datastreams: "@ + cause
}

/// The answer when the news round failed (see [`news_failure_text`]).
pub fn news_failure_reply(cause: &str) -> (s: String)
    ensures
        s@ == news_failure_text(cause@),
{
    let mut s = String::from_str("Failed to retrieve the datastreams: ");
    s.append(cause);
    s
}

} // verus!
