//! Query string normalization and escaping.

use vstd::prelude::*;

use crate::retrieve::cjk::{alphanumeric, is_alphanumeric};
use crate::text::{chars_of, is_white_space, join, push_char, push_joined, white_space};

verus! {

/// Characters with syntactic meaning in tantivy query syntax.
pub open spec fn is_query_syntax(c: char) -> bool {
    c == '+' || c == '-' || c == '=' || c == '>' || c == '<' || c == '!' || c == '(' || c == ')'
        || c == '{' || c == '}' || c == '[' || c == ']' || c == '^' || c == '"' || c == '~' || c
        == '*' || c == '?' || c == ':' || c == '\\' || c == '/'
}

fn query_syntax(c: char) -> (r: bool)
    ensures
        r == is_query_syntax(c),
{
    c == '+' || c == '-' || c == '=' || c == '>' || c == '<' || c == '!' || c == '(' || c == ')'
        || c == '{' || c == '}' || c == '[' || c == ']' || c == '^' || c == '"' || c == '~' || c
        == '*' || c == '?' || c == ':' || c == '\\' || c == '/'
}

/// `raw` with a backslash in front of every query-syntax character.
pub open spec fn escaped(raw: Seq<char>) -> Seq<char>
    decreases raw.len(),
{
    if raw.len() == 0 {
        seq![]
    } else if is_query_syntax(raw.last()) {
        escaped(raw.drop_last()) + seq!['\\', raw.last()]
    } else {
        escaped(raw.drop_last()).push(raw.last())
    }
}

/// Prefixes each query-syntax character in `raw` with a backslash so the
/// string is parsed as literal text.
pub fn escape_query(raw: &str) -> (out: String)
    ensures
        out@ == escaped(raw@),
{
    let chars = chars_of(raw);
    let mut out = String::new();
    let mut i: usize = 0;
    while i < chars.len()
        invariant
            i <= chars@.len(),
            out@ == escaped(chars@.take(i as int)),
        decreases chars@.len() - i,
    {
        let c = chars[i];
        assert(chars@.take(i + 1).drop_last() =~= chars@.take(i as int));
        if query_syntax(c) {
            push_char(&mut out, '\\');
        }
        push_char(&mut out, c);
        assert(out@ =~= escaped(chars@.take(i + 1)));
        i = i + 1;
    }
    assert(chars@.take(chars@.len() as int) =~= raw@);
    out
}

/// `s` cut at every whitespace character; whitespace runs leave empty pieces.
pub open spec fn split_white(s: Seq<char>) -> Seq<Seq<char>>
    decreases s.len(),
{
    if s.len() == 0 {
        seq![Seq::<char>::empty()]
    } else {
        let init = split_white(s.drop_last());
        if is_white_space(s.last()) {
            init.push(Seq::<char>::empty())
        } else {
            init.update(init.len() - 1, init.last().push(s.last()))
        }
    }
}

/// The non-empty pieces, in order.
pub open spec fn nonempty_pieces(pieces: Seq<Seq<char>>) -> Seq<Seq<char>>
    decreases pieces.len(),
{
    if pieces.len() == 0 {
        seq![]
    } else if pieces.last().len() == 0 {
        nonempty_pieces(pieces.drop_last())
    } else {
        nonempty_pieces(pieces.drop_last()).push(pieces.last())
    }
}

/// The whitespace-separated words of `s`, as `str::split_whitespace` yields them.
pub open spec fn words(s: Seq<char>) -> Seq<Seq<char>> {
    nonempty_pieces(split_white(s))
}

/// The words of `s` joined by single spaces.
pub open spec fn normalized_query(s: Seq<char>) -> Seq<char> {
    join(words(s), seq![' '])
}

proof fn lemma_split_white_nonempty(s: Seq<char>)
    ensures
        split_white(s).len() >= 1,
    decreases s.len(),
{
    if s.len() > 0 {
        lemma_split_white_nonempty(s.drop_last());
    }
}

/// The words of a character slice.
pub fn words_of(chars: &[char]) -> (out: Vec<Vec<char>>)
    ensures
        out@.map_values(|w: Vec<char>| w@) == words(chars@),
{
    let mut out: Vec<Vec<char>> = Vec::new();
    let mut current: Vec<char> = Vec::new();
    let mut i: usize = 0;
    assert(chars@.take(0) =~= Seq::<char>::empty());
    while i < chars.len()
        invariant
            i <= chars@.len(),
            split_white(chars@.take(i as int)).len() >= 1,
            split_white(chars@.take(i as int)).last() == current@,
            out@.map_values(|w: Vec<char>| w@) == nonempty_pieces(
                split_white(chars@.take(i as int)).drop_last(),
            ),
        decreases chars@.len() - i,
    {
        let c = chars[i];
        let ghost before = split_white(chars@.take(i as int));
        let ghost after = split_white(chars@.take(i + 1));
        assert(chars@.take(i + 1).drop_last() =~= chars@.take(i as int));
        assert(chars@.take(i + 1).last() == c);
        if white_space(c) {
            assert(after == before.push(Seq::<char>::empty()));
            assert(after.drop_last() =~= before);
            assert(before =~= before.drop_last().push(current@));
            if current.len() > 0 {
                let ghost old_out = out@;
                out.push(current);
                assert(out@.map_values(|w: Vec<char>| w@) =~= old_out.map_values(|w: Vec<char>| w@).push(
                    before.last(),
                ));
            }
            current = Vec::new();
            assert(after.last() =~= current@);
        } else {
            proof {
                lemma_split_white_nonempty(chars@.take(i as int));
            }
            assert(after == before.update(before.len() - 1, before.last().push(c)));
            assert(after.drop_last() =~= before.drop_last());
            current.push(c);
        }
        i = i + 1;
    }
    let ghost all = split_white(chars@);
    assert(chars@.take(chars@.len() as int) =~= chars@);
    assert(all =~= all.drop_last().push(current@));
    if current.len() > 0 {
        let ghost old_out = out@;
        out.push(current);
        assert(out@.map_values(|w: Vec<char>| w@) =~= old_out.map_values(|w: Vec<char>| w@).push(
            all.last(),
        ));
    }
    out
}

/// Trims `raw` and collapses internal whitespace runs to single spaces.
pub fn normalize_query(raw: &str) -> (out: String)
    ensures
        out@ == normalized_query(raw@),
{
    let chars = chars_of(raw);
    let words = words_of(chars.as_slice());
    let mut out = String::new();
    let sep = [' '];
    assert(sep@ =~= seq![' ']);
    push_joined(&mut out, &words, &sep);
    out
}

/// Whether `s` holds at least one alphanumeric character.
pub open spec fn has_alphanumeric(s: Seq<char>) -> bool {
    exists|i: int| 0 <= i < s.len() && alphanumeric(#[trigger] s[i])
}

/// A non-whitespace character of `s` lies in one of its whitespace-split
/// pieces.
proof fn lemma_split_white_keeps(s: Seq<char>, i: int)
    requires
        0 <= i < s.len(),
        !is_white_space(s[i]),
    ensures
        exists|k: int, j: int|
            0 <= k < split_white(s).len() && 0 <= j < split_white(s)[k].len() && #[trigger] split_white(
                s,
            )[k][j] == s[i],
    decreases s.len(),
{
    let d = s.drop_last();
    lemma_split_white_nonempty(d);
    let init = split_white(d);
    let all = split_white(s);
    if i == s.len() - 1 {
        let k = init.len() - 1;
        assert(all[k] == init.last().push(s.last()));
        assert(all[k][init.last().len() as int] == s[i]);
    } else {
        assert(d[i] == s[i]);
        lemma_split_white_keeps(d, i);
        let (k, j) = choose|k: int, j: int|
            0 <= k < init.len() && 0 <= j < init[k].len() && #[trigger] init[k][j] == d[i];
        if is_white_space(s.last()) {
            assert(all[k] == init[k]);
        } else if k < init.len() - 1 {
            assert(all[k] == init[k]);
        } else {
            assert(all[k] == init.last().push(s.last()));
            assert(all[k][j] == init[k][j]);
        }
        assert(all[k][j] == s[i]);
    }
}

/// A character of a non-empty piece survives dropping the empty pieces.
proof fn lemma_nonempty_pieces_keep(ps: Seq<Seq<char>>, k: int, j: int)
    requires
        0 <= k < ps.len(),
        0 <= j < ps[k].len(),
    ensures
        exists|k2: int, j2: int|
            0 <= k2 < nonempty_pieces(ps).len() && 0 <= j2 < nonempty_pieces(ps)[k2].len()
                && #[trigger] nonempty_pieces(ps)[k2][j2] == ps[k][j],
    decreases ps.len(),
{
    let init = ps.drop_last();
    let out = nonempty_pieces(ps);
    if k == ps.len() - 1 {
        assert(ps.last().len() > 0);
        assert(out == nonempty_pieces(init).push(ps.last()));
        let k2 = nonempty_pieces(init).len() as int;
        assert(out[k2][j] == ps[k][j]);
    } else {
        assert(init[k] == ps[k]);
        lemma_nonempty_pieces_keep(init, k, j);
        let (k2, j2) = choose|k2: int, j2: int|
            0 <= k2 < nonempty_pieces(init).len() && 0 <= j2 < nonempty_pieces(init)[k2].len()
                && #[trigger] nonempty_pieces(init)[k2][j2] == init[k][j];
        assert(out[k2] == nonempty_pieces(init)[k2]);
        assert(out[k2][j2] == ps[k][j]);
    }
}

/// Joining keeps every character of every part.
proof fn lemma_join_keeps(ws: Seq<Seq<char>>, sep: Seq<char>, k: int, j: int)
    requires
        0 <= k < ws.len(),
        0 <= j < ws[k].len(),
    ensures
        join(ws, sep).contains(ws[k][j]),
    decreases ws.len(),
{
    if ws.len() == 1 {
        assert(join(ws, sep)[j] == ws[k][j]);
    } else {
        let init = ws.drop_last();
        let a = join(init, sep);
        let r = a + sep + ws.last();
        assert(join(ws, sep) == r);
        if k < ws.len() - 1 {
            assert(init[k] == ws[k]);
            lemma_join_keeps(init, sep, k, j);
            let p = choose|p: int| 0 <= p < a.len() && a[p] == ws[k][j];
            assert(r[p] == a[p]);
        } else {
            assert(r[a.len() + sep.len() + j] == ws[k][j]);
        }
    }
}

/// Law: normalizing a query keeps every character that is not whitespace;
/// only whitespace runs are trimmed or collapsed.
pub proof fn law_normalization_keeps_non_whitespace(q: Seq<char>, i: int)
    requires
        0 <= i < q.len(),
        !is_white_space(q[i]),
    ensures
        normalized_query(q).contains(q[i]),
{
    lemma_split_white_keeps(q, i);
    let (k, j) = choose|k: int, j: int|
        0 <= k < split_white(q).len() && 0 <= j < split_white(q)[k].len() && #[trigger] split_white(
            q,
        )[k][j] == q[i];
    lemma_nonempty_pieces_keep(split_white(q), k, j);
    let (k2, j2) = choose|k2: int, j2: int|
        0 <= k2 < words(q).len() && 0 <= j2 < words(q)[k2].len() && #[trigger] words(q)[k2][j2]
            == split_white(q)[k][j];
    lemma_join_keeps(words(q), seq![' '], k2, j2);
}

/// Law: a query that asks for hits and holds an alphanumeric character that
/// is not whitespace, anywhere in it, is searched: `"fourier transform"`,
/// quotes and all, runs.
pub proof fn law_query_with_alphanumeric_is_searched(q: Seq<char>, i: int)
    requires
        0 <= i < q.len(),
        alphanumeric(q[i]),
        !is_white_space(q[i]),
    ensures
        has_alphanumeric(normalized_query(q)),
{
    law_normalization_keeps_non_whitespace(q, i);
    let n = normalized_query(q);
    let p = choose|p: int| 0 <= p < n.len() && n[p] == q[i];
    assert(alphanumeric(n[p]));
}

/// Law: a query is searchable when any of its characters, not only the first,
/// is alphanumeric, and only then. A quoted phrase such as `"fourier
/// transform"` is searchable; a query of quotes and punctuation alone is not.
pub proof fn law_any_alphanumeric_character_counts(s: Seq<char>, i: int)
    ensures
        0 <= i < s.len() && alphanumeric(s[i]) ==> has_alphanumeric(s),
        has_alphanumeric(s) ==> exists|j: int| 0 <= j < s.len() && alphanumeric(#[trigger] s[j]),
        (forall|j: int| 0 <= j < s.len() ==> !alphanumeric(#[trigger] s[j])) ==> !has_alphanumeric(s),
{
}

/// Whether a search can match anything at all: it asks for at least one hit,
/// and its normalized form holds something alphanumeric. Empty and
/// punctuation-only queries answer with no hits rather than an error.
pub fn is_searchable(query: &str, top_k: usize) -> (r: bool)
    ensures
        r == (top_k > 0 && has_alphanumeric(normalized_query(query@))),
{
    if top_k == 0 {
        return false;
    }
    let normalized = normalize_query(query);
    let chars = chars_of(normalized.as_str());
    let mut i: usize = 0;
    while i < chars.len()
        invariant
            i <= chars@.len(),
            chars@ == normalized_query(query@),
            top_k > 0,
            forall|j: int| 0 <= j < i ==> !alphanumeric(#[trigger] chars@[j]),
        decreases chars@.len() - i,
    {
        if is_alphanumeric(chars[i]) {
            assert(alphanumeric(chars@[i as int]));
            return true;
        }
        i = i + 1;
    }
    false
}

/// Each word escaped and wrapped in double quotes.
pub open spec fn quoted_words(ws: Seq<Seq<char>>) -> Seq<Seq<char>> {
    ws.map_values(|w: Seq<char>| seq!['"'] + escaped(w) + seq!['"'])
}

/// The fallback form of a query whose escaped form does not parse (a bare
/// `OR`, `AND` or `NOT`): every whitespace-separated term escaped and quoted,
/// joined by single spaces.
pub fn quoted_query(normalized: &str) -> (out: String)
    ensures
        out@ == join(quoted_words(words(normalized@)), seq![' ']),
{
    let chars = chars_of(normalized);
    let ws = words_of(chars.as_slice());
    let ghost wv = ws@.map_values(|w: Vec<char>| w@);
    let mut quoted: Vec<Vec<char>> = Vec::new();
    let mut k: usize = 0;
    while k < ws.len()
        invariant
            k <= ws@.len(),
            wv == ws@.map_values(|w: Vec<char>| w@),
            quoted@.map_values(|q: Vec<char>| q@) == quoted_words(wv.take(k as int)),
        decreases ws@.len() - k,
    {
        let word = crate::text::string_of(ws[k].as_slice());
        let esc = escape_query(word.as_str());
        let mut q: Vec<char> = Vec::new();
        q.push('"');
        let ec = chars_of(esc.as_str());
        let mut j: usize = 0;
        while j < ec.len()
            invariant
                j <= ec@.len(),
                q@ == seq!['"'] + ec@.take(j as int),
            decreases ec@.len() - j,
        {
            q.push(ec[j]);
            proof {
                assert(ec@.take(j + 1) =~= ec@.take(j as int).push(ec@[j as int]));
            }
            j = j + 1;
        }
        q.push('"');
        let ghost before = quoted@;
        let ghost qv = q@;
        proof {
            assert(ec@.take(j as int) =~= ec@);
            assert(qv =~= seq!['"'] + escaped(wv[k as int]) + seq!['"']);
        }
        quoted.push(q);
        proof {
            assert(before.map_values(|q: Vec<char>| q@).len() == k);
            assert(quoted@[k as int]@ == qv);
            let now = quoted@.map_values(|q: Vec<char>| q@);
            let want = quoted_words(wv.take(k + 1));
            assert forall|i: int| 0 <= i < k implies now[i] == want[i] by {
                assert(now[i] == before.map_values(|q: Vec<char>| q@)[i]);
            }
            assert(now =~= want);
        }
        k = k + 1;
    }
    proof {
        assert(wv.take(k as int) =~= wv);
    }
    let mut out = String::new();
    let sep = [' '];
    assert(sep@ =~= seq![' ']);
    push_joined(&mut out, &quoted, &sep);
    out
}

/// No word holds whitespace and none is empty.
proof fn lemma_words_are_clean(s: Seq<char>)
    ensures
        forall|k: int|
            0 <= k < words(s).len() ==> (#[trigger] words(s)[k]).len() > 0 && forall|j: int|
                0 <= j < words(s)[k].len() ==> !is_white_space(words(s)[k][j]),
    decreases s.len(),
{
    lemma_pieces_clean(split_white(s));
    lemma_split_white_clean(s);
}

proof fn lemma_split_white_clean(s: Seq<char>)
    ensures
        forall|k: int|
            0 <= k < split_white(s).len() ==> forall|j: int|
                0 <= j < (#[trigger] split_white(s)[k]).len() ==> !is_white_space(split_white(s)[k][j]),
    decreases s.len(),
{
    if s.len() > 0 {
        lemma_split_white_clean(s.drop_last());
        lemma_split_white_nonempty(s.drop_last());
    }
}

proof fn lemma_pieces_clean(pieces: Seq<Seq<char>>)
    ensures
        forall|k: int|
            0 <= k < nonempty_pieces(pieces).len() ==> (#[trigger] nonempty_pieces(pieces)[k]).len()
                > 0,
        forall|k: int|
            0 <= k < nonempty_pieces(pieces).len() ==> exists|m: int|
                0 <= m < pieces.len() && pieces[m] == #[trigger] nonempty_pieces(pieces)[k],
    decreases pieces.len(),
{
    if pieces.len() > 0 {
        lemma_pieces_clean(pieces.drop_last());
        let init = nonempty_pieces(pieces.drop_last());
        let all = nonempty_pieces(pieces);
        assert forall|k: int| 0 <= k < all.len() implies exists|m: int|
            0 <= m < pieces.len() && pieces[m] == #[trigger] all[k] by {
            if k < init.len() {
                assert(all[k] == init[k]);
                let m = choose|m: int| 0 <= m < pieces.drop_last().len() && pieces.drop_last()[m] == init[k];
                assert(pieces[m] == all[k]);
            } else {
                assert(pieces[pieces.len() - 1] == all[k]);
            }
        }
    }
}

/// Whether `s` is clean query text: no leading or trailing whitespace, and
/// every whitespace character is a single space between two non-space
/// characters.
pub open spec fn is_collapsed(s: Seq<char>) -> bool {
    forall|i: int|
        0 <= i < s.len() && is_white_space(#[trigger] s[i]) ==> s[i] == ' ' && 0 < i < s.len() - 1
            && !is_white_space(s[i - 1]) && !is_white_space(s[i + 1])
}

proof fn lemma_join_collapsed(ws: Seq<Seq<char>>)
    requires
        forall|k: int|
            0 <= k < ws.len() ==> (#[trigger] ws[k]).len() > 0 && forall|j: int|
                0 <= j < ws[k].len() ==> !is_white_space(ws[k][j]),
    ensures
        is_collapsed(join(ws, seq![' '])),
        ws.len() > 0 ==> join(ws, seq![' ']).len() > 0 && !is_white_space(join(ws, seq![' ']).last())
            && !is_white_space(join(ws, seq![' '])[0]),
    decreases ws.len(),
{
    if ws.len() > 1 {
        let init = ws.drop_last();
        assert forall|k: int| 0 <= k < init.len() implies (#[trigger] init[k]).len() > 0 && forall|j: int|
            0 <= j < init[k].len() ==> !is_white_space(init[k][j]) by {
            assert(init[k] == ws[k]);
        }
        lemma_join_collapsed(init);
        let a = join(init, seq![' ']);
        let w = ws.last();
        let r = join(ws, seq![' ']);
        assert(r == a + seq![' '] + w);
        assert(w.len() > 0);
        assert forall|i: int| 0 <= i < r.len() && is_white_space(#[trigger] r[i]) implies r[i] == ' '
            && 0 < i < r.len() - 1 && !is_white_space(r[i - 1]) && !is_white_space(r[i + 1]) by {
            if i < a.len() {
                assert(r[i] == a[i]);
                if i + 1 < a.len() {
                    assert(r[i + 1] == a[i + 1]);
                }
                if i > 0 {
                    assert(r[i - 1] == a[i - 1]);
                }
            } else if i == a.len() {
                assert(r[i - 1] == a.last());
                assert(r[i + 1] == w[0]);
            } else {
                assert(r[i] == w[i - a.len() - 1]);
            }
        }
        assert(r.last() == w.last());
        assert(r[0] == a[0]);
    }
}

/// Law: normalized query text is collapsed — trimmed, with every whitespace
/// run reduced to one space.
pub proof fn law_normalized_query_is_collapsed(raw: Seq<char>)
    ensures
        is_collapsed(normalized_query(raw)),
{
    lemma_words_are_clean(raw);
    lemma_join_collapsed(words(raw));
}

/// Appending whitespace-free text extends the last piece.
proof fn lemma_split_extend(x: Seq<char>, y: Seq<char>)
    requires
        forall|j: int| 0 <= j < y.len() ==> !is_white_space(#[trigger] y[j]),
    ensures
        split_white(x + y) == split_white(x).update(
            split_white(x).len() - 1,
            split_white(x).last() + y,
        ),
    decreases y.len(),
{
    lemma_split_white_nonempty(x);
    if y.len() == 0 {
        assert(x + y =~= x);
        assert(split_white(x).last() + y =~= split_white(x).last());
        assert(split_white(x).update(split_white(x).len() - 1, split_white(x).last())
            =~= split_white(x));
    } else {
        let y0 = y.drop_last();
        let c = y.last();
        assert forall|j: int| 0 <= j < y0.len() implies !is_white_space(#[trigger] y0[j]) by {
            assert(y0[j] == y[j]);
        }
        lemma_split_extend(x, y0);
        assert((x + y).drop_last() =~= x + y0);
        assert((x + y).last() == c);
        assert(!is_white_space(c));
        lemma_split_white_nonempty(x + y0);
        let sx = split_white(x);
        let init = split_white(x + y0);
        assert(init.len() == sx.len());
        assert(init.last() == sx.last() + y0);
        assert(sx.last() + y0 + seq![c] =~= sx.last() + y);
        assert(init.last().push(c) =~= sx.last() + y);
        assert(split_white(x + y) =~= sx.update(sx.len() - 1, sx.last() + y));
    }
}

/// Clean words joined by single spaces split back into exactly those words.
proof fn lemma_split_join(ws: Seq<Seq<char>>)
    requires
        ws.len() > 0,
        forall|k: int|
            0 <= k < ws.len() ==> (#[trigger] ws[k]).len() > 0 && forall|j: int|
                0 <= j < ws[k].len() ==> !is_white_space(ws[k][j]),
    ensures
        split_white(join(ws, seq![' '])) == ws,
    decreases ws.len(),
{
    let w = ws.last();
    assert(w == ws[ws.len() - 1]);
    assert forall|j: int| 0 <= j < w.len() implies !is_white_space(#[trigger] w[j]) by {
        assert(w[j] == ws[ws.len() - 1][j]);
    }
    if ws.len() == 1 {
        let e = Seq::<char>::empty();
        lemma_split_extend(e, w);
        assert(e + w =~= w);
        assert(split_white(e) =~= seq![e]);
        assert(join(ws, seq![' ']) == w);
        assert(seq![e].update(0, e + w) =~= ws);
    } else {
        let init = ws.drop_last();
        assert forall|k: int| 0 <= k < init.len() implies (#[trigger] init[k]).len() > 0 && forall|j: int|
            0 <= j < init[k].len() ==> !is_white_space(init[k][j]) by {
            assert(init[k] == ws[k]);
        }
        lemma_split_join(init);
        let a = join(init, seq![' ']);
        let sp = a.push(' ');
        assert(join(ws, seq![' ']) == a + seq![' '] + w);
        assert(a + seq![' '] + w =~= sp + w);
        assert(sp.drop_last() =~= a);
        assert(is_white_space(' '));
        assert(split_white(sp) == init.push(Seq::<char>::empty()));
        lemma_split_extend(sp, w);
        assert(Seq::<char>::empty() + w =~= w);
        assert(init.push(Seq::<char>::empty()).update(init.len() as int, w) =~= ws);
    }
}

/// Pieces that are all non-empty are kept as they are.
proof fn lemma_pieces_keep(ps: Seq<Seq<char>>)
    requires
        forall|k: int| 0 <= k < ps.len() ==> (#[trigger] ps[k]).len() > 0,
    ensures
        nonempty_pieces(ps) == ps,
    decreases ps.len(),
{
    if ps.len() > 0 {
        let init = ps.drop_last();
        assert forall|k: int| 0 <= k < init.len() implies (#[trigger] init[k]).len() > 0 by {
            assert(init[k] == ps[k]);
        }
        lemma_pieces_keep(init);
        assert(ps.last() == ps[ps.len() - 1]);
        assert(init.push(ps.last()) =~= ps);
    }
}

/// Law: normalizing a normalized query changes nothing.
pub proof fn law_normalize_query_is_idempotent(raw: Seq<char>)
    ensures
        normalized_query(normalized_query(raw)) == normalized_query(raw),
{
    let ws = words(raw);
    lemma_words_are_clean(raw);
    if ws.len() == 0 {
        assert(normalized_query(raw) == Seq::<char>::empty());
        assert(split_white(Seq::<char>::empty()) =~= seq![Seq::<char>::empty()]);
        let one = seq![Seq::<char>::empty()];
        assert(one.drop_last() =~= Seq::<Seq<char>>::empty());
        assert(one.last().len() == 0);
        assert(nonempty_pieces(Seq::<Seq<char>>::empty()) =~= Seq::<Seq<char>>::empty());
        assert(nonempty_pieces(one) =~= Seq::<Seq<char>>::empty());
    } else {
        lemma_split_join(ws);
        lemma_pieces_keep(ws);
        assert(words(normalized_query(raw)) == ws);
    }
}

/// Query text read back as literal text: a backslash stands for the
/// character after it.
pub open spec fn unescaped(s: Seq<char>) -> Seq<char>
    decreases s.len(),
{
    if s.len() == 0 {
        seq![]
    } else if s[0] == '\\' && s.len() >= 2 {
        seq![s[1]] + unescaped(s.skip(2))
    } else {
        seq![s[0]] + unescaped(s.skip(1))
    }
}

/// Escaping distributes over concatenation.
proof fn lemma_escaped_concat(a: Seq<char>, b: Seq<char>)
    ensures
        escaped(a + b) == escaped(a) + escaped(b),
    decreases b.len(),
{
    if b.len() == 0 {
        assert(a + b =~= a);
        assert(escaped(a) + escaped(b) =~= escaped(a));
    } else {
        lemma_escaped_concat(a, b.drop_last());
        assert((a + b).drop_last() =~= a + b.drop_last());
        assert((a + b).last() == b.last());
        if is_query_syntax(b.last()) {
            assert(escaped(a) + escaped(b) =~= escaped(a) + escaped(b.drop_last()) + seq![
                '\\',
                b.last(),
            ]);
        } else {
            assert(escaped(a) + escaped(b) =~= (escaped(a) + escaped(b.drop_last())).push(
                b.last(),
            ));
        }
    }
}

/// Law: escaping loses nothing — reading the escaped query back as literal
/// text gives the raw query.
pub proof fn law_escape_is_literal(raw: Seq<char>)
    ensures
        unescaped(escaped(raw)) == raw,
    decreases raw.len(),
{
    if raw.len() > 0 {
        let c = raw[0];
        let rest = raw.skip(1);
        assert(raw =~= seq![c] + rest);
        lemma_escaped_concat(seq![c], rest);
        law_escape_is_literal(rest);
        let one = seq![c];
        assert(one.drop_last() =~= Seq::<char>::empty());
        assert(one.last() == c);
        assert(escaped(Seq::<char>::empty()) =~= Seq::<char>::empty());
        let e = escaped(rest);
        if is_query_syntax(c) {
            assert(escaped(one) =~= seq!['\\', c]);
            let whole = seq!['\\', c] + e;
            assert(whole.skip(2) =~= e);
            assert(whole[0] == '\\' && whole[1] == c);
            assert(unescaped(whole) == seq![c] + unescaped(e));
        } else {
            assert(escaped(one) =~= seq![c]);
            let whole = seq![c] + e;
            assert(whole.skip(1) =~= e);
            assert(c != '\\');
            assert(unescaped(whole) == seq![c] + unescaped(e));
        }
        assert(escaped(raw) == escaped(one) + e);
    }
}

} // verus!
