//! Newline/BOM normalization for source bytes.

use vstd::prelude::*;
use vstd::utf8::{decode_utf8, valid_utf8};

use super::IngestError;
use crate::text::{chars_of, owned, string_of};

verus! {

/// Wraps `std::str::from_utf8`: the text the bytes spell when they are valid
/// UTF-8, and nothing otherwise.
#[verifier::external_body]
pub(crate) fn utf8_str(bytes: &[u8]) -> (text: Option<&str>)
    ensures
        text is Some <==> valid_utf8(bytes@),
        text matches Some(s) ==> s@ == decode_utf8(bytes@),
{
    std::str::from_utf8(bytes).ok()
}

/// `s` without one leading byte order mark.
pub open spec fn without_bom(s: Seq<char>) -> Seq<char> {
    if s.len() > 0 && s[0] == '\u{feff}' {
        s.drop_first()
    } else {
        s
    }
}

/// `s` with every CRLF pair and every lone CR turned into one LF.
pub open spec fn lf_only(s: Seq<char>) -> Seq<char>
    decreases s.len(),
{
    if s.len() == 0 {
        seq![]
    } else if s[0] == '\r' {
        if s.len() > 1 && s[1] == '\n' {
            seq!['\n'] + lf_only(s.skip(2))
        } else {
            seq!['\n'] + lf_only(s.drop_first())
        }
    } else {
        seq![s[0]] + lf_only(s.drop_first())
    }
}

/// The normalized text of a source: BOM dropped, line ends folded to LF.
pub open spec fn normalized_text(s: Seq<char>) -> Seq<char> {
    lf_only(without_bom(s))
}

/// Law: normalization drops exactly one leading byte order mark and nothing
/// else: text behind a BOM normalizes as the text alone, and text that does
/// not start with a BOM only has its line ends folded.
pub proof fn law_only_a_leading_bom_is_dropped(s: Seq<char>)
    ensures
        normalized_text(seq!['\u{feff}'] + s) == lf_only(s),
        s.len() == 0 || s[0] != '\u{feff}' ==> normalized_text(s) == lf_only(s),
{
    assert((seq!['\u{feff}'] + s).drop_first() =~= s);
}

/// Law: normalized text holds no carriage return.
pub proof fn law_normalized_has_no_cr(s: Seq<char>)
    ensures
        !lf_only(s).contains('\r'),
    decreases s.len(),
{
    if s.len() > 0 {
        if s[0] == '\r' && s.len() > 1 && s[1] == '\n' {
            law_normalized_has_no_cr(s.skip(2));
            assert(lf_only(s) == seq!['\n'] + lf_only(s.skip(2)));
        } else {
            law_normalized_has_no_cr(s.drop_first());
        }
        let out = lf_only(s);
        if out.contains('\r') {
            let j = choose|j: int| 0 <= j < out.len() && out[j] == '\r';
            if j > 0 {
                if s[0] == '\r' && s.len() > 1 && s[1] == '\n' {
                    assert(lf_only(s.skip(2))[j - 1] == '\r');
                } else {
                    assert(lf_only(s.drop_first())[j - 1] == '\r');
                }
            }
        }
    }
}

/// Law: text that already holds no carriage return passes through unchanged.
pub proof fn law_lf_only_is_identity_without_cr(s: Seq<char>)
    requires
        !s.contains('\r'),
    ensures
        lf_only(s) == s,
    decreases s.len(),
{
    if s.len() > 0 {
        assert(s[0] != '\r');
        assert(!s.drop_first().contains('\r')) by {
            if s.drop_first().contains('\r') {
                let j = choose|j: int| 0 <= j < s.drop_first().len() && s.drop_first()[j] == '\r';
                assert(s[j + 1] == '\r');
            }
        }
        law_lf_only_is_identity_without_cr(s.drop_first());
        assert(seq![s[0]] + s.drop_first() =~= s);
    }
}

/// How many times `c` occurs in `s`.
pub open spec fn count_of(s: Seq<char>, c: char) -> nat
    decreases s.len(),
{
    if s.len() == 0 {
        0
    } else {
        (if s[0] == c {
            1nat
        } else {
            0nat
        }) + count_of(s.drop_first(), c)
    }
}

/// How many CR LF pairs `s` holds.
pub open spec fn crlf_pairs(s: Seq<char>) -> nat
    decreases s.len(),
{
    if s.len() < 2 {
        0
    } else {
        (if s[0] == '\r' && s[1] == '\n' {
            1nat
        } else {
            0nat
        }) + crlf_pairs(s.drop_first())
    }
}

/// Law: folding keeps every line end and only line ends. Each CR LF pair, each
/// lone CR and each lone LF becomes exactly one LF, so the folded text has as
/// many LFs as the source has line ends (CRs plus LFs, less the CR LF pairs
/// that end one line together), and it is shorter by one character per CR LF
/// pair. A blank line between paragraphs (`\r\n\r\n`) stays blank.
pub proof fn law_folding_keeps_every_line_end(s: Seq<char>)
    ensures
        count_of(lf_only(s), '\n') + crlf_pairs(s) == count_of(s, '\r') + count_of(s, '\n'),
        lf_only(s).len() + crlf_pairs(s) == s.len(),
    decreases s.len(),
{
    if s.len() > 0 {
        let df = s.drop_first();
        if s[0] == '\r' && s.len() > 1 && s[1] == '\n' {
            let rest = s.skip(2);
            law_folding_keeps_every_line_end(rest);
            assert(df.drop_first() =~= rest);
            assert((seq!['\n'] + lf_only(rest)).drop_first() =~= lf_only(rest));
            if df.len() < 2 {
                assert(rest.len() == 0);
            }
        } else {
            law_folding_keeps_every_line_end(df);
            let out = lf_only(s);
            if s[0] == '\r' {
                assert(out.drop_first() =~= lf_only(df));
            } else {
                assert(out.drop_first() =~= lf_only(df));
            }
            if s.len() >= 2 {
                assert(!(s[0] == '\r' && s[1] == '\n'));
            }
        }
    }
}

/// Law: folding works line end by line end. Text that does not stop on a CR
/// folds independently of what follows it, and each unit folds on its own: CR
/// LF and a lone CR give one LF, any other character stays.
pub proof fn law_folding_is_piecewise(a: Seq<char>, b: Seq<char>)
    requires
        a.len() == 0 || a.last() != '\r',
    ensures
        lf_only(a + b) == lf_only(a) + lf_only(b),
        lf_only(seq!['\r', '\n']) == seq!['\n'],
        lf_only(seq!['\r']) == seq!['\n'],
        a.len() == 1 ==> lf_only(a) == a,
    decreases a.len(),
{
    let e = Seq::<char>::empty();
    assert(lf_only(e) == e);
    assert(seq!['\r', '\n'].skip(2) =~= e);
    assert(seq!['\r'].drop_first() =~= e);
    assert(seq!['\n'] + e =~= seq!['\n']);
    assert(lf_only(seq!['\r', '\n']) == seq!['\n'] + lf_only(e));
    assert(lf_only(seq!['\r']) == seq!['\n'] + lf_only(e));
    if a.len() == 1 {
        assert(a.drop_first() =~= e);
        assert(seq![a[0]] + e =~= a);
    }
    if a.len() == 0 {
        assert(a + b =~= b);
    } else {
        let ab = a + b;
        if a[0] == '\r' {
            assert(a.len() > 1);
            assert(ab[1] == a[1]);
            if a[1] == '\n' {
                let r = a.skip(2);
                assert(r.len() == 0 || r.last() == a.last());
                law_folding_is_piecewise(r, b);
                assert(ab.skip(2) =~= r + b);
            } else {
                let r = a.drop_first();
                assert(r.last() == a.last());
                law_folding_is_piecewise(r, b);
                assert(ab.drop_first() =~= r + b);
            }
        } else {
            let r = a.drop_first();
            assert(r.len() == 0 || r.last() == a.last());
            law_folding_is_piecewise(r, b);
            assert(ab.drop_first() =~= r + b);
        }
    }
}

/// Folds CRLF and lone CR to LF.
fn fold_line_ends(s: &[char]) -> (out: Vec<char>)
    ensures
        out@ == lf_only(s@),
{
    let n = s.len();
    let mut out: Vec<char> = Vec::new();
    let mut i: usize = 0;
    assert(s@.skip(0) =~= s@);
    while i < n
        invariant
            n == s@.len(),
            i <= n,
            out@ + lf_only(s@.skip(i as int)) == lf_only(s@),
        decreases n - i,
    {
        let ghost rest = s@.skip(i as int);
        let c = s[i];
        if c == '\r' {
            if i + 1 < n && s[i + 1] == '\n' {
                assert(rest.skip(2) =~= s@.skip(i + 2));
                out.push('\n');
                assert(out@ + lf_only(s@.skip(i + 2)) =~= lf_only(s@));
                i = i + 2;
            } else {
                assert(rest.drop_first() =~= s@.skip(i + 1));
                out.push('\n');
                assert(out@ + lf_only(s@.skip(i + 1)) =~= lf_only(s@));
                i = i + 1;
            }
        } else {
            assert(rest.drop_first() =~= s@.skip(i + 1));
            out.push(c);
            assert(out@ + lf_only(s@.skip(i + 1)) =~= lf_only(s@));
            i = i + 1;
        }
    }
    assert(s@.skip(n as int) =~= Seq::<char>::empty());
    assert(out@ + Seq::<char>::empty() =~= out@);
    out
}

/// Decode bytes to UTF-8, strip a leading BOM, and normalize CRLF/CR to LF.
pub fn normalize_markdown(bytes: &[u8]) -> (r: Result<String, IngestError>)
    ensures
        match r {
            Ok(text) => valid_utf8(bytes@) && text@ == normalized_text(decode_utf8(bytes@)),
            Err(IngestError::InvalidUtf8(m)) => !valid_utf8(bytes@) && m@
                == "source bytes are not valid utf-8"@,
            Err(_) => false,
        },
{
    let decoded = match utf8_str(bytes) {
        Some(text) => text,
        None => {
            return Err(IngestError::InvalidUtf8(owned("source bytes are not valid utf-8")));
        },
    };
    let chars = chars_of(decoded);
    let mut body: Vec<char> = Vec::new();
    let start: usize = if chars.len() > 0 && chars[0] == '\u{feff}' { 1 } else { 0 };
    let mut i: usize = start;
    while i < chars.len()
        invariant
            start <= i <= chars@.len(),
            body@ == chars@.subrange(start as int, i as int),
        decreases chars@.len() - i,
    {
        body.push(chars[i]);
        assert(chars@.subrange(start as int, i + 1) =~= chars@.subrange(start as int, i as int).push(
            chars@[i as int],
        ));
        i = i + 1;
    }
    assert(body@ =~= without_bom(chars@));
    let folded = fold_line_ends(body.as_slice());
    Ok(string_of(folded.as_slice()))
}

} // verus!
