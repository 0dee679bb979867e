//! Title derivation from normalized Markdown.

use vstd::prelude::*;

use super::markdown::{markdown_events, parse_markdown, MdEvent};
use crate::contracts::note_scheme;
use crate::text::{chars_of, push_str, string_of, trim_chars, trimmed};

verus! {

/// The first H1's text, scanning from event `i` with the state so far; `None`
/// when the first H1 is empty or there is none.
pub open spec fn h1_scan(events: Seq<MdEvent>, i: int, in_h1: bool, text: Seq<char>) -> Option<
    Seq<char>,
>
    decreases events.len() - i,
{
    if i < 0 || i >= events.len() {
        None
    } else {
        match events[i] {
            MdEvent::HeadingStart(level) => if level == 1 {
                h1_scan(events, i + 1, true, text)
            } else {
                h1_scan(events, i + 1, in_h1, text)
            },
            MdEvent::HeadingEnd(level) => if level == 1 && in_h1 {
                if trimmed(text).len() > 0 {
                    Some(trimmed(text))
                } else {
                    None
                }
            } else {
                h1_scan(events, i + 1, in_h1, text)
            },
            MdEvent::Text(t) => if in_h1 {
                h1_scan(events, i + 1, in_h1, text + t@)
            } else {
                h1_scan(events, i + 1, in_h1, text)
            },
            _ => h1_scan(events, i + 1, in_h1, text),
        }
    }
}

/// The trimmed text of the document's first H1, when it has a non-empty one.
pub open spec fn first_h1(normalized: Seq<char>) -> Option<Seq<char>> {
    h1_scan(markdown_events(normalized), 0, false, seq![])
}

/// Index of the last `c` in `s`, or -1.
pub open spec fn last_pos(s: Seq<char>, c: char) -> int
    decreases s.len(),
{
    if s.len() == 0 {
        -1
    } else if s.last() == c {
        s.len() - 1
    } else {
        last_pos(s.drop_last(), c)
    }
}

/// `s` without the `note:` scheme, when it carries it.
pub open spec fn without_scheme(s: Seq<char>) -> Seq<char> {
    if s.len() >= 5 && s.take(5) == note_scheme() {
        s.skip(5)
    } else {
        s
    }
}

/// The last `/`-separated piece of `s`.
pub open spec fn base_name(s: Seq<char>) -> Seq<char> {
    s.skip(last_pos(s, '/') + 1)
}

/// Whether `e` is `md` in any ASCII case.
pub open spec fn is_md_extension(e: Seq<char>) -> bool {
    e.len() == 2 && (e[0] == 'm' || e[0] == 'M') && (e[1] == 'd' || e[1] == 'D')
}

/// `name` without a trailing `.md` in any ASCII case; cut at the last dot.
pub open spec fn without_md_extension(name: Seq<char>) -> Seq<char> {
    let dot = last_pos(name, '.');
    if dot >= 0 && is_md_extension(name.skip(dot + 1)) {
        name.take(dot)
    } else {
        name
    }
}

/// The file stem of a source key: scheme dropped, last piece, `.md` dropped.
pub open spec fn file_stem(source_key: Seq<char>) -> Seq<char> {
    without_md_extension(base_name(without_scheme(source_key)))
}

/// The title [`derive_title`] gives.
pub open spec fn title_of(normalized: Seq<char>, source_key: Seq<char>) -> Seq<char> {
    match first_h1(normalized) {
        Some(t) => t,
        None => file_stem(source_key),
    }
}

/// First H1 heading text, else the file stem from `source_key`.
pub fn derive_title(normalized: &str, source_key: &str) -> (title: String)
    ensures
        title@ == title_of(normalized@, source_key@),
{
    match first_h1_of(normalized) {
        Some(title) => title,
        None => {
            let key = chars_of(source_key);
            let stem = file_stem_of(key.as_slice());
            string_of(stem.as_slice())
        },
    }
}

fn first_h1_of(normalized: &str) -> (r: Option<String>)
    ensures
        match r {
            Some(t) => first_h1(normalized@) == Some(t@),
            None => first_h1(normalized@) is None,
        },
{
    let events = parse_markdown(normalized);
    first_h1_from_events(&events)
}

/// The text of the first level-1 heading in a Markdown event stream, trimmed;
/// `None` when the stream has none, or its first one is blank.
pub fn first_h1_from_events(events: &Vec<MdEvent>) -> (r: Option<String>)
    ensures
        match r {
            Some(t) => h1_scan(events@, 0, false, seq![]) == Some(t@),
            None => h1_scan(events@, 0, false, seq![]) is None,
        },
{
    let mut in_h1 = false;
    let mut text: Vec<char> = Vec::new();
    let mut i: usize = 0;
    while i < events.len()
        invariant
            i <= events@.len(),
            h1_scan(events@, i as int, in_h1, text@) == h1_scan(events@, 0, false, seq![]),
        decreases events@.len() - i,
    {
        match &events[i] {
            MdEvent::HeadingStart(level) => {
                if *level == 1 {
                    in_h1 = true;
                }
            },
            MdEvent::HeadingEnd(level) => {
                if *level == 1 && in_h1 {
                    let cut = trim_chars(text.as_slice());
                    if cut.len() > 0 {
                        return Some(string_of(cut.as_slice()));
                    }
                    return None;
                }
            },
            MdEvent::Text(t) => {
                if in_h1 {
                    let more = chars_of(t.as_str());
                    let mut k: usize = 0;
                    let ghost before = text@;
                    while k < more.len()
                        invariant
                            k <= more@.len(),
                            text@ == before + more@.take(k as int),
                        decreases more@.len() - k,
                    {
                        text.push(more[k]);
                        assert(more@.take(k + 1) =~= more@.take(k as int).push(more@[k as int]));
                        k = k + 1;
                    }
                    assert(more@.take(more@.len() as int) =~= more@);
                }
            },
            _ => {},
        }
        i = i + 1;
    }
    None
}

/// `last_pos` is -1 or an index of `c`.
pub proof fn lemma_last_pos(s: Seq<char>, c: char)
    ensures
        -1 <= last_pos(s, c) < s.len(),
        last_pos(s, c) >= 0 ==> s[last_pos(s, c)] == c,
        forall|j: int| last_pos(s, c) < j < s.len() ==> s[j] != c,
    decreases s.len(),
{
    if s.len() > 0 && s.last() != c {
        lemma_last_pos(s.drop_last(), c);
        assert forall|j: int| last_pos(s, c) < j < s.len() implies s[j] != c by {
            if j < s.len() - 1 {
                assert(s[j] == s.drop_last()[j]);
            }
        }
    }
}

fn last_index_of(s: &[char], c: char) -> (r: Option<usize>)
    ensures
        match r {
            Some(k) => k == last_pos(s@, c) && k < s@.len(),
            None => last_pos(s@, c) == -1,
        },
{
    let mut k: usize = s.len();
    assert(s@.take(k as int) =~= s@);
    while k > 0
        invariant
            k <= s@.len(),
            last_pos(s@, c) == last_pos(s@.take(k as int), c),
        decreases k,
    {
        assert(s@.take(k as int).drop_last() =~= s@.take(k - 1));
        if s[k - 1] == c {
            return Some(k - 1);
        }
        k = k - 1;
    }
    None
}

fn copy_range(s: &[char], from: usize, to: usize) -> (out: Vec<char>)
    requires
        from <= to <= s@.len(),
    ensures
        out@ == s@.subrange(from as int, to as int),
{
    let mut out: Vec<char> = Vec::new();
    let mut i = from;
    while i < to
        invariant
            from <= i <= to <= s@.len(),
            out@ == s@.subrange(from as int, i as int),
        decreases to - i,
    {
        out.push(s[i]);
        assert(s@.subrange(from as int, i + 1) =~= s@.subrange(from as int, i as int).push(s@[i as int]));
        i = i + 1;
    }
    out
}

/// The file stem of a source key.
pub fn file_stem_of(source_key: &[char]) -> (stem: Vec<char>)
    ensures
        stem@ == file_stem(source_key@),
{
    let n = source_key.len();
    let key = if n >= 5 && source_key[0] == 'n' && source_key[1] == 'o' && source_key[2] == 't'
        && source_key[3] == 'e' && source_key[4] == ':' {
        assert(source_key@.take(5) =~= note_scheme());
        copy_range(source_key, 5, n)
    } else {
        proof {
            if n >= 5 && source_key@.take(5) == note_scheme() {
                assert(source_key@.take(5)[0] == 'n');
                assert(source_key@.take(5)[1] == 'o');
                assert(source_key@.take(5)[2] == 't');
                assert(source_key@.take(5)[3] == 'e');
                assert(source_key@.take(5)[4] == ':');
            }
        }
        copy_range(source_key, 0, n)
    };
    assert(key@ =~= without_scheme(source_key@));
    let from = match last_index_of(key.as_slice(), '/') {
        Some(k) => k + 1,
        None => 0,
    };
    proof {
        lemma_last_pos(key@, '/');
    }
    let base = copy_range(key.as_slice(), from, key.len());
    assert(base@ =~= base_name(without_scheme(source_key@)));
    strip_md_extension(base.as_slice())
}

/// Strips a trailing `.md`, ignoring ASCII case; a name without a dot is
/// returned unchanged.
pub fn strip_md_extension(name: &[char]) -> (stem: Vec<char>)
    ensures
        stem@ == without_md_extension(name@),
{
    proof {
        lemma_last_pos(name@, '.');
    }
    if let Some(d) = last_index_of(name, '.') {
        let ghost dot = d as int;
        let ext_ok = name.len() - d - 1 == 2 && (name[d + 1] == 'm' || name[d + 1] == 'M')
            && (name[d + 2] == 'd' || name[d + 2] == 'D');
        assert(ext_ok == is_md_extension(name@.skip(dot + 1)));
        if ext_ok {
            let out = copy_range(name, 0, d);
            assert(out@ =~= name@.take(dot as int));
            return out;
        }
    }
    copy_range(name, 0, name.len())
}

} // verus!
