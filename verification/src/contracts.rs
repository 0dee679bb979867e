//! Versioned contracts shared by every Momotaro surface: the source-key rule,
//! the record types, the engine-version windows and the token estimator.

use vstd::prelude::*;

use crate::text::{chars_of, join, owned, push_char, push_joined, same_chars, string_of};

verus! {

/// The schema version understood by this build.
pub const CURRENT_SCHEMA_VERSION: u32 = 3;

/// A versioned SQLite schema.
#[derive(Debug, Clone, Copy, PartialEq, Eq, Structural)]
pub struct SchemaVersion(pub u32);

impl SchemaVersion {
    /// The schema version this build can open.
    pub fn current() -> (v: SchemaVersion)
        ensures
            v.0 == CURRENT_SCHEMA_VERSION,
    {
        SchemaVersion(CURRENT_SCHEMA_VERSION)
    }
}

/// The local vault a run operates against.
#[derive(Debug, Clone, PartialEq, Eq)]
pub struct VaultScope {
    /// Absolute or caller-resolved vault root, as text.
    pub root: String,
    /// Human-readable vault name.
    pub name: String,
}

/// Scheme prefix for vault notes: `note:<vault-relative NFC path>`.
pub const NOTE_SCHEME: &'static str = "note:";

/// The characters of [`NOTE_SCHEME`].
pub open spec fn note_scheme() -> Seq<char> {
    seq!['n', 'o', 't', 'e', ':']
}

/// Failure raised while building a source key from a vault-relative tail.
#[derive(Debug, Clone, PartialEq, Eq)]
pub enum SourceKeyError {
    /// The tail was empty after normalization.
    Empty,
    /// The tail was an absolute path (POSIX, UNC, or drive-absolute form).
    Absolute(String),
    /// The tail contained a `..` component.
    ParentDir,
    /// The tail contained a NUL byte.
    Nul,
}

/// The human sentence for a key failure.
pub open spec fn key_error_text(e: SourceKeyError) -> Seq<char> {
    match e {
        SourceKeyError::Empty => "source key tail is empty"@,
        SourceKeyError::Absolute(raw) => "source key tail must be vault-relative, got an absolute form: "@
            + crate::text::debug_quoted(raw@),
        SourceKeyError::ParentDir => "source key tail must not contain `..`"@,
        SourceKeyError::Nul => "source key tail contains a NUL byte"@,
    }
}

impl SourceKeyError {
    /// The human sentence for this failure.
    pub fn describe(&self) -> (text: String)
        ensures
            text@ == key_error_text(*self),
    {
        match self {
            SourceKeyError::Empty => owned("source key tail is empty"),
            SourceKeyError::Absolute(raw) => {
                let mut text = owned("source key tail must be vault-relative, got an absolute form: ");
                let quoted = crate::text::debug_text(raw.as_str());
                crate::text::push_str(&mut text, quoted.as_str());
                text
            },
            SourceKeyError::ParentDir => owned("source key tail must not contain `..`"),
            SourceKeyError::Nul => owned("source key tail contains a NUL byte"),
        }
    }
}

/// Unicode canonical composition (NFC) of `s`, as `unicode-normalization`
/// computes it.
pub uninterp spec fn nfc(s: Seq<char>) -> Seq<char>;

/// What a `/`-separated piece is, as far as key cleaning cares: empty (0),
/// `.` (1), `..` (2), or a name (3).
pub open spec fn piece_kind(piece: Seq<char>) -> int {
    if piece.len() == 0 {
        0
    } else if piece == seq!['.'] {
        1
    } else if piece == parent_part() {
        2
    } else {
        3
    }
}

/// The kinds of the `/`-separated pieces of `s`, in order.
pub open spec fn piece_kinds(s: Seq<char>) -> Seq<int> {
    split_on(s, '/').map_values(|piece: Seq<char>| piece_kind(piece))
}

/// Wraps `UnicodeNormalization::nfc` from `unicode-normalization`: the NFC form
/// of `s`, collected into a string, tied to its input through the name [`nfc`].
///
/// Three facts that Unicode Standard Annex #15, which the crate implements,
/// gives are stated of the result. NFC is idempotent: the result is its own NFC
/// form. `/`, `.` and NUL are stable code points (combining class 0, without a
/// canonical decomposition, never composed with a neighbour and never the
/// result of a composition), so NFC normalizes each `/`-separated piece on its
/// own, keeps every `/`, `.` and NUL, and makes no new one: a piece comes out
/// empty, `.` or `..` exactly when it went in so. Nothing else about NFC is
/// stated.
#[verifier::external_body]
fn nfc_string(s: &str) -> (out: String)
    ensures
        out@ == nfc(s@),
        nfc(out@) == out@,
        piece_kinds(out@) == piece_kinds(s@),
        out@.contains('\0') == s@.contains('\0'),
{
    unicode_normalization::UnicodeNormalization::nfc(s).collect()
}

/// `s` cut at every `sep`, as `str::split` cuts it: there is always at least
/// one piece, and `k` separators give `k + 1` pieces.
pub open spec fn split_on(s: Seq<char>, sep: char) -> Seq<Seq<char>>
    decreases s.len(),
{
    if s.len() == 0 {
        seq![Seq::<char>::empty()]
    } else {
        let init = split_on(s.drop_last(), sep);
        if s.last() == sep {
            init.push(Seq::<char>::empty())
        } else {
            init.update(init.len() - 1, init.last().push(s.last()))
        }
    }
}

/// The `..` component.
pub open spec fn parent_part() -> Seq<char> {
    seq!['.', '.']
}

/// Whether `c` is an ASCII letter.
pub open spec fn is_ascii_alpha(c: char) -> bool {
    ('a' <= c && c <= 'z') || ('A' <= c && c <= 'Z')
}

/// POSIX-absolute (`/x`), UNC (`\\server\share`) or drive-absolute (`C:/x`,
/// `C:\x`) tails.
pub open spec fn is_absolute_tail(raw: Seq<char>) -> bool {
    ||| raw.len() > 0 && raw[0] == '/'
    ||| raw.len() > 1 && raw[0] == '\\' && raw[1] == '\\'
    ||| raw.len() > 2 && is_ascii_alpha(raw[0]) && raw[1] == ':' && (raw[2] == '/' || raw[2]
        == '\\')
}

/// The pieces that carry a name: empty and `.` pieces are dropped.
pub open spec fn named_parts(parts: Seq<Seq<char>>) -> Seq<Seq<char>>
    decreases parts.len(),
{
    if parts.len() == 0 {
        seq![]
    } else {
        let init = named_parts(parts.drop_last());
        let p = parts.last();
        if p.len() == 0 || p == seq!['.'] {
            init
        } else {
            init.push(p)
        }
    }
}

/// Whether one of `parts` is `..`.
pub open spec fn has_parent_part(parts: Seq<Seq<char>>) -> bool {
    exists|j: int| 0 <= j < parts.len() && parts[j] == parent_part()
}

/// The `/`-joined name pieces of a vault-relative tail, before NFC.
pub open spec fn key_tail(raw: Seq<char>) -> Seq<char> {
    join(named_parts(split_on(raw, '/')), seq!['/'])
}

/// Whether the tail can become a key at all.
pub open spec fn key_tail_is_valid(raw: Seq<char>) -> bool {
    &&& !raw.contains('\0')
    &&& !is_absolute_tail(raw)
    &&& !has_parent_part(split_on(raw, '/'))
    &&& named_parts(split_on(raw, '/')).len() > 0
}

/// The key a valid vault-relative tail maps to.
pub open spec fn note_key(raw: Seq<char>) -> Seq<char> {
    note_scheme() + nfc(key_tail(raw))
}

/// Builds `note:<vault-relative NFC path>`.
///
/// The input is a `/`-joined sequence of path components. Bytes other than `/`
/// are name bytes and are never rewritten: a backslash inside a name stays a
/// backslash. The tail is NFC-normalized, case is preserved verbatim, `.` and
/// empty components are dropped, and absolute or `..`-bearing tails are
/// rejected. Checks run in this order: NUL, absolute form, `..`, emptiness.
///
/// A key's tail (the text after `note:`) is already in key form: fed back in,
/// it gives the same key, unless it reads as an absolute form (`./C:/a.md`
/// gives `note:C:/a.md`, and NFC turns a Kelvin-sign drive letter
/// `\u{212A}:/a.md` into `note:K:/a.md`).
pub fn note_source_key(vault_relative: &str) -> (r: Result<String, SourceKeyError>)
    ensures
        match r {
            Ok(key) => key_tail_is_valid(vault_relative@) && key@ == note_key(vault_relative@) && (
            !is_absolute_tail(key@.skip(note_scheme().len() as int)) ==> key_tail_is_valid(
                key@.skip(note_scheme().len() as int),
            ) && note_key(key@.skip(note_scheme().len() as int)) == key@),
            Err(SourceKeyError::Nul) => vault_relative@.contains('\0'),
            Err(SourceKeyError::Absolute(raw)) => !vault_relative@.contains('\0')
                && is_absolute_tail(vault_relative@) && raw@ == vault_relative@,
            Err(SourceKeyError::ParentDir) => !vault_relative@.contains('\0') && !is_absolute_tail(
                vault_relative@,
            ) && has_parent_part(split_on(vault_relative@, '/')),
            Err(SourceKeyError::Empty) => !vault_relative@.contains('\0') && !is_absolute_tail(
                vault_relative@,
            ) && !has_parent_part(split_on(vault_relative@, '/')) && named_parts(
                split_on(vault_relative@, '/'),
            ).len() == 0,
        },
{
    let tail = normalize_key_tail(vault_relative)?;
    let mut key = String::new();
    push_char(&mut key, 'n');
    push_char(&mut key, 'o');
    push_char(&mut key, 't');
    push_char(&mut key, 'e');
    push_char(&mut key, ':');
    crate::text::push_str(&mut key, tail.as_str());
    assert(key@ =~= note_key(vault_relative@));
    assert(key@.skip(note_scheme().len() as int) =~= tail@);
    Ok(key)
}

proof fn lemma_split_nonempty(s: Seq<char>, sep: char)
    ensures
        split_on(s, sep).len() >= 1,
    decreases s.len(),
{
    if s.len() > 0 {
        lemma_split_nonempty(s.drop_last(), sep);
    }
}

/// No piece of `split_on(s, sep)` holds `sep`, and a character `x` that `s`
/// lacks is in no piece either.
proof fn lemma_split_pieces(s: Seq<char>, sep: char, x: char)
    ensures
        split_on(s, sep).len() >= 1,
        forall|k: int, j: int|
            0 <= k < split_on(s, sep).len() && 0 <= j < split_on(s, sep)[k].len() ==> (
            #[trigger] split_on(s, sep)[k][j]) != sep && (!s.contains(x) ==> split_on(s, sep)[k][j]
                != x),
    decreases s.len(),
{
    if s.len() > 0 {
        let d = s.drop_last();
        lemma_split_pieces(d, sep, x);
        if !s.contains(x) {
            assert(!d.contains(x)) by {
                if d.contains(x) {
                    let i = choose|i: int| 0 <= i < d.len() && d[i] == x;
                    assert(s[i] == x);
                }
            }
            assert(s.last() != x) by {
                if s.last() == x {
                    assert(s[s.len() - 1] == x);
                }
            }
        }
        let init = split_on(d, sep);
        let all = split_on(s, sep);
        assert forall|k: int, j: int| 0 <= k < all.len() && 0 <= j < all[k].len() implies (
        #[trigger] all[k][j]) != sep && (!s.contains(x) ==> all[k][j] != x) by {
            if s.last() == sep {
                if k < init.len() {
                    assert(all[k] == init[k]);
                }
            } else {
                if k < init.len() - 1 {
                    assert(all[k] == init[k]);
                } else {
                    assert(all[k] == init.last().push(s.last()));
                    if j < init.last().len() {
                        assert(all[k][j] == init[init.len() - 1][j]);
                    }
                }
            }
        }
    }
}

/// Appending text without `sep` extends the last piece.
proof fn lemma_split_on_extend(x: Seq<char>, y: Seq<char>, sep: char)
    requires
        forall|j: int| 0 <= j < y.len() ==> #[trigger] y[j] != sep,
    ensures
        split_on(x + y, sep) == split_on(x, sep).update(
            split_on(x, sep).len() - 1,
            split_on(x, sep).last() + y,
        ),
    decreases y.len(),
{
    lemma_split_nonempty(x, sep);
    if y.len() == 0 {
        assert(x + y =~= x);
        assert(split_on(x, sep).last() + y =~= split_on(x, sep).last());
        assert(split_on(x, sep).update(split_on(x, sep).len() - 1, split_on(x, sep).last())
            =~= split_on(x, sep));
    } else {
        let y0 = y.drop_last();
        let c = y.last();
        assert forall|j: int| 0 <= j < y0.len() implies #[trigger] y0[j] != sep by {
            assert(y0[j] == y[j]);
        }
        lemma_split_on_extend(x, y0, sep);
        assert((x + y).drop_last() =~= x + y0);
        assert((x + y).last() == c);
        assert(c == y[y.len() - 1]);
        lemma_split_nonempty(x + y0, sep);
        let sx = split_on(x, sep);
        let init = split_on(x + y0, sep);
        assert(c != sep);
        assert(init.len() == sx.len());
        assert(init.last() == sx.last() + y0);
        assert(init.last().push(c) =~= sx.last() + y);
        assert(split_on(x + y, sep) == init.update(init.len() - 1, init.last().push(c)));
        assert(split_on(x + y, sep) =~= sx.update(sx.len() - 1, sx.last() + y));
    }
}

/// Pieces without `sep`, joined by `sep`, split back into those pieces.
proof fn lemma_split_on_join(ws: Seq<Seq<char>>, sep: char)
    requires
        ws.len() > 0,
        forall|k: int, j: int| 0 <= k < ws.len() && 0 <= j < ws[k].len() ==> #[trigger] ws[k][j] != sep,
    ensures
        split_on(join(ws, seq![sep]), sep) == ws,
    decreases ws.len(),
{
    let w = ws.last();
    assert forall|j: int| 0 <= j < w.len() implies #[trigger] w[j] != sep by {
        assert(w[j] == ws[ws.len() - 1][j]);
    }
    if ws.len() == 1 {
        let e = Seq::<char>::empty();
        lemma_split_on_extend(e, w, sep);
        assert(e + w =~= w);
        assert(split_on(e, sep) =~= seq![e]);
        assert(seq![e].update(0, e + w) =~= ws);
    } else {
        let init = ws.drop_last();
        assert forall|k: int, j: int| 0 <= k < init.len() && 0 <= j < init[k].len() implies #[trigger] init[k][j] != sep by {
            assert(init[k] == ws[k]);
        }
        lemma_split_on_join(init, sep);
        let a = join(init, seq![sep]);
        let sp = a.push(sep);
        assert(a + seq![sep] + w =~= sp + w);
        assert(sp.drop_last() =~= a);
        assert(split_on(sp, sep) == init.push(Seq::<char>::empty()));
        lemma_split_on_extend(sp, w, sep);
        assert(Seq::<char>::empty() + w =~= w);
        assert(init.push(Seq::<char>::empty()).update(init.len() as int, w) =~= ws);
    }
}

/// Named parts are non-empty, not `.`, and each is one of the parts.
proof fn lemma_named_from(ps: Seq<Seq<char>>)
    ensures
        forall|k: int|
            0 <= k < named_parts(ps).len() ==> (#[trigger] named_parts(ps)[k]).len() > 0
                && named_parts(ps)[k] != seq!['.'] && exists|m: int|
                0 <= m < ps.len() && ps[m] == named_parts(ps)[k],
    decreases ps.len(),
{
    if ps.len() > 0 {
        lemma_named_from(ps.drop_last());
        let init = named_parts(ps.drop_last());
        let all = named_parts(ps);
        assert forall|k: int| 0 <= k < all.len() implies (#[trigger] all[k]).len() > 0 && all[k]
            != seq!['.'] && exists|m: int| 0 <= m < ps.len() && ps[m] == all[k] by {
            if k < init.len() {
                assert(all[k] == init[k]);
                let m = choose|m: int| 0 <= m < ps.drop_last().len() && ps.drop_last()[m] == init[k];
                assert(ps[m] == all[k]);
            } else {
                assert(ps[ps.len() - 1] == all[k]);
            }
        }
    }
}

/// Parts that all carry a name are kept as they are.
proof fn lemma_named_keep(ps: Seq<Seq<char>>)
    requires
        forall|k: int| 0 <= k < ps.len() ==> (#[trigger] ps[k]).len() > 0 && ps[k] != seq!['.'],
    ensures
        named_parts(ps) == ps,
    decreases ps.len(),
{
    if ps.len() > 0 {
        let init = ps.drop_last();
        assert forall|k: int| 0 <= k < init.len() implies (#[trigger] init[k]).len() > 0 && init[k]
            != seq!['.'] by {
            assert(init[k] == ps[k]);
        }
        lemma_named_keep(init);
        assert(ps.last() == ps[ps.len() - 1]);
        assert(init.push(ps.last()) =~= ps);
    }
}

/// Joining parts that lack `x` with a separator other than `x` gives text
/// without `x`.
proof fn lemma_join_lacks(ws: Seq<Seq<char>>, sep: char, x: char)
    requires
        sep != x,
        forall|k: int, j: int| 0 <= k < ws.len() && 0 <= j < ws[k].len() ==> #[trigger] ws[k][j] != x,
    ensures
        !join(ws, seq![sep]).contains(x),
    decreases ws.len(),
{
    if ws.len() == 1 {
        assert forall|j: int| 0 <= j < ws[0].len() implies ws[0][j] != x by {
            assert(ws[0][j] != x);
        }
    } else if ws.len() > 1 {
        let init = ws.drop_last();
        assert forall|k: int, j: int| 0 <= k < init.len() && 0 <= j < init[k].len() implies #[trigger] init[k][j] != x by {
            assert(init[k] == ws[k]);
        }
        lemma_join_lacks(init, sep, x);
        let a = join(init, seq![sep]);
        let w = ws.last();
        let r = a + seq![sep] + w;
        assert(join(ws, seq![sep]) == r);
        assert forall|i: int| 0 <= i < r.len() implies r[i] != x by {
            if i < a.len() {
                assert(r[i] == a[i]);
            } else if i == a.len() {
                assert(r[i] == sep);
            } else {
                assert(r[i] == ws[ws.len() - 1][i - a.len() - 1]);
            }
        }
    }
}

/// Splitting at `sep` and joining back with `sep` gives the text again.
proof fn lemma_join_split(s: Seq<char>, sep: char)
    ensures
        join(split_on(s, sep), seq![sep]) == s,
    decreases s.len(),
{
    if s.len() > 0 {
        let d = s.drop_last();
        lemma_join_split(d, sep);
        lemma_split_nonempty(d, sep);
        let init = split_on(d, sep);
        let all = split_on(s, sep);
        if s.last() == sep {
            assert(all.drop_last() =~= init);
            assert(s =~= d + seq![sep] + Seq::<char>::empty());
        } else {
            let w = init.last().push(s.last());
            if init.len() == 1 {
                assert(all =~= seq![w]);
                assert(d =~= init[0]);
                assert(s =~= w);
            } else {
                assert(all.drop_last() =~= init.drop_last());
                assert(all.last() == w);
                assert(join(all, seq![sep]) == join(all.drop_last(), seq![sep]) + seq![sep] + all.last());
                assert(d == join(init.drop_last(), seq![sep]) + seq![sep] + init.last());
                assert(s =~= d.push(s.last()));
                assert(s =~= join(init.drop_last(), seq![sep]) + seq![sep] + w);
            }
        }
    }
}

/// The cleaned tail of a valid name has no NUL, and each of its pieces is a
/// name.
proof fn lemma_tail_pieces_named(raw: Seq<char>)
    requires
        key_tail_is_valid(raw),
    ensures
        !key_tail(raw).contains('\0'),
        forall|k: int|
            0 <= k < split_on(key_tail(raw), '/').len() ==> piece_kind(
                #[trigger] split_on(key_tail(raw), '/')[k],
            ) == 3,
{
    let ps = split_on(raw, '/');
    lemma_split_pieces(raw, '/', '\0');
    let ns = named_parts(ps);
    lemma_named_from(ps);
    assert forall|k: int, j: int| 0 <= k < ns.len() && 0 <= j < ns[k].len() implies #[trigger] ns[k][j]
        != '/' && ns[k][j] != '\0' by {
        let m = choose|m: int| 0 <= m < ps.len() && ps[m] == ns[k];
        assert(ps[m][j] == ns[k][j]);
    }
    lemma_split_on_join(ns, '/');
    lemma_join_lacks(ns, '/', '\0');
    assert forall|k: int| 0 <= k < ns.len() implies piece_kind(#[trigger] ns[k]) == 3 by {
        let m = choose|m: int| 0 <= m < ps.len() && ps[m] == ns[k];
        if ns[k] == parent_part() {
            assert(ps[m] == parent_part());
        }
    }
}

/// Text whose pieces are all names is its own cleaned tail, with a named piece
/// and no `..`.
proof fn lemma_named_tail(t: Seq<char>)
    requires
        forall|k: int| 0 <= k < split_on(t, '/').len() ==> piece_kind(#[trigger] split_on(t, '/')[k]) == 3,
    ensures
        key_tail(t) == t,
        !has_parent_part(split_on(t, '/')),
        named_parts(split_on(t, '/')).len() > 0,
{
    let ps = split_on(t, '/');
    lemma_split_nonempty(t, '/');
    assert forall|k: int| 0 <= k < ps.len() implies (#[trigger] ps[k]).len() > 0 && ps[k] != seq![
        '.',
    ] by {
        assert(piece_kind(ps[k]) == 3);
    }
    lemma_named_keep(ps);
    lemma_join_split(t, '/');
    if has_parent_part(ps) {
        let j = choose|j: int| 0 <= j < ps.len() && ps[j] == parent_part();
        assert(piece_kind(ps[j]) == 3);
    }
}

/// Law: cleaning is idempotent. For a valid vault-relative name whose cleaned
/// tail is not an absolute form (`./C:/a.md` cleans to `C:/a.md`, which is
/// refused), the cleaned tail reads back as itself, is valid, and yields the
/// same key. The full round trip of a key's tail, through NFC, is stated by
/// [`note_source_key`].
pub proof fn law_key_tail_maps_back(raw: Seq<char>)
    requires
        key_tail_is_valid(raw),
        !is_absolute_tail(key_tail(raw)),
    ensures
        key_tail(key_tail(raw)) == key_tail(raw),
        key_tail_is_valid(key_tail(raw)),
        note_key(key_tail(raw)) == note_key(raw),
{
    lemma_tail_pieces_named(raw);
    lemma_named_tail(key_tail(raw));
}

/// Whether `raw` holds the character `c`.
fn holds_char(raw: &[char], c: char) -> (r: bool)
    ensures
        r == raw@.contains(c),
{
    let mut i: usize = 0;
    while i < raw.len()
        invariant
            i <= raw@.len(),
            forall|j: int| 0 <= j < i ==> raw@[j] != c,
        decreases raw@.len() - i,
    {
        if raw[i] == c {
            assert(raw@[i as int] == c);
            return true;
        }
        i = i + 1;
    }
    false
}

fn ascii_alpha(c: char) -> (r: bool)
    ensures
        r == is_ascii_alpha(c),
{
    ('a' <= c && c <= 'z') || ('A' <= c && c <= 'Z')
}

fn absolute_tail(raw: &[char]) -> (r: bool)
    ensures
        r == is_absolute_tail(raw@),
{
    let n = raw.len();
    (n > 0 && raw[0] == '/') || (n > 1 && raw[0] == '\\' && raw[1] == '\\') || (n > 2
        && ascii_alpha(raw[0]) && raw[1] == ':' && (raw[2] == '/' || raw[2] == '\\'))
}

fn is_dot_piece(p: &[char]) -> (r: bool)
    ensures
        r == (p@ == seq!['.']),
{
    if p.len() == 1 && p[0] == '.' {
        assert(p@ =~= seq!['.']);
        true
    } else {
        false
    }
}

fn is_parent_piece(p: &[char]) -> (r: bool)
    ensures
        r == (p@ == parent_part()),
{
    if p.len() == 2 && p[0] == '.' && p[1] == '.' {
        assert(p@ =~= parent_part());
        true
    } else {
        false
    }
}

/// The NFC tail of a note key, or why there is none.
fn normalize_key_tail(raw: &str) -> (r: Result<String, SourceKeyError>)
    ensures
        match r {
            Ok(tail) => key_tail_is_valid(raw@) && tail@ == nfc(key_tail(raw@)) && (
            !is_absolute_tail(tail@) ==> key_tail(tail@) == tail@ && key_tail_is_valid(tail@)
                && nfc(tail@) == tail@),
            Err(SourceKeyError::Nul) => raw@.contains('\0'),
            Err(SourceKeyError::Absolute(s)) => !raw@.contains('\0') && is_absolute_tail(raw@)
                && s@ == raw@,
            Err(SourceKeyError::ParentDir) => !raw@.contains('\0') && !is_absolute_tail(raw@)
                && has_parent_part(split_on(raw@, '/')),
            Err(SourceKeyError::Empty) => !raw@.contains('\0') && !is_absolute_tail(raw@)
                && !has_parent_part(split_on(raw@, '/')) && named_parts(split_on(raw@, '/')).len()
                == 0,
        },
{
    let chars = chars_of(raw);
    if holds_char(chars.as_slice(), '\0') {
        return Err(SourceKeyError::Nul);
    }
    if absolute_tail(chars.as_slice()) {
        return Err(SourceKeyError::Absolute(owned(raw)));
    }
    let n = chars.len();
    let mut parts: Vec<Vec<char>> = Vec::new();
    let mut current: Vec<char> = Vec::new();
    let mut saw_parent = false;
    let mut i: usize = 0;
    proof {
        assert(chars@.take(0) =~= Seq::<char>::empty());
    }
    while i < n
        invariant
            n == chars@.len(),
            chars@ == raw@,
            i <= n,
            split_on(chars@.take(i as int), '/').len() >= 1,
            split_on(chars@.take(i as int), '/').last() == current@,
            parts@.map_values(|p: Vec<char>| p@) == named_parts(
                split_on(chars@.take(i as int), '/').drop_last(),
            ),
            saw_parent == has_parent_part(split_on(chars@.take(i as int), '/').drop_last()),
        decreases n - i,
    {
        let c = chars[i];
        let ghost before = split_on(chars@.take(i as int), '/');
        let ghost after = split_on(chars@.take(i + 1), '/');
        assert(chars@.take(i + 1).drop_last() =~= chars@.take(i as int));
        assert(chars@.take(i + 1).last() == c);
        if c == '/' {
            assert(after == before.push(Seq::<char>::empty()));
            assert(after.drop_last() =~= before);
            assert(before =~= before.drop_last().push(current@));
            let piece_is_parent = is_parent_piece(current.as_slice());
            proof {
                if has_parent_part(before) {
                    let j = choose|j: int| 0 <= j < before.len() && before[j] == parent_part();
                    if j < before.len() - 1 {
                        assert(before.drop_last()[j] == parent_part());
                    }
                }
                if saw_parent {
                    let j = choose|j: int|
                        0 <= j < before.drop_last().len() && before.drop_last()[j]
                            == parent_part();
                    assert(before[j] == parent_part());
                }
            }
            saw_parent = saw_parent || piece_is_parent;
            let keep = !(current.len() == 0 || is_dot_piece(current.as_slice()));
            if keep {
                let ghost old_parts = parts@;
                parts.push(current);
                assert(parts@.map_values(|p: Vec<char>| p@) =~= old_parts.map_values(
                    |p: Vec<char>| p@,
                ).push(before.last()));
            }
            current = Vec::new();
            assert(after.last() =~= current@);
        } else {
            proof {
                lemma_split_nonempty(chars@.take(i as int), '/');
            }
            assert(after == before.update(before.len() - 1, before.last().push(c)));
            assert(after.drop_last() =~= before.drop_last());
            current.push(c);
        }
        i = i + 1;
    }
    let ghost all = split_on(chars@, '/');
    assert(chars@.take(n as int) =~= chars@);
    assert(all =~= all.drop_last().push(current@));
    proof {
        if has_parent_part(all) {
            let j = choose|j: int| 0 <= j < all.len() && all[j] == parent_part();
            if j < all.len() - 1 {
                assert(all.drop_last()[j] == parent_part());
            }
        }
        if saw_parent {
            let j = choose|j: int|
                0 <= j < all.drop_last().len() && all.drop_last()[j] == parent_part();
            assert(all[j] == parent_part());
        }
    }
    if saw_parent || is_parent_piece(current.as_slice()) {
        return Err(SourceKeyError::ParentDir);
    }
    let keep = !(current.len() == 0 || is_dot_piece(current.as_slice()));
    if keep {
        let ghost old_parts = parts@;
        parts.push(current);
        assert(parts@.map_values(|p: Vec<char>| p@) =~= old_parts.map_values(|p: Vec<char>| p@).push(
            all.last(),
        ));
    }
    assert(parts@.map_values(|p: Vec<char>| p@) == named_parts(all));
    if parts.len() == 0 {
        return Err(SourceKeyError::Empty);
    }
    let mut joined = String::new();
    let sep = ['/'];
    assert(sep@ =~= seq!['/']);
    push_joined(&mut joined, &parts, &sep);
    assert(joined@ =~= key_tail(raw@));
    let tail = nfc_string(joined.as_str());
    proof {
        lemma_tail_pieces_named(raw@);
        assert forall|k: int| 0 <= k < split_on(tail@, '/').len() implies piece_kind(
            #[trigger] split_on(tail@, '/')[k],
        ) == 3 by {
            assert(piece_kinds(tail@).len() == split_on(tail@, '/').len());
            assert(k < split_on(joined@, '/').len());
            assert(piece_kinds(tail@)[k] == piece_kinds(joined@)[k]);
            assert(piece_kinds(joined@)[k] == piece_kind(split_on(joined@, '/')[k]));
            assert(piece_kind(split_on(joined@, '/')[k]) == 3);
        }
        lemma_named_tail(tail@);
    }
    Ok(tail)
}

/// Coarse workspace health state.
#[derive(Debug, Clone, Copy, PartialEq, Eq, Structural)]
pub enum WorkspaceStatus {
    /// The workspace is ready for local deterministic operations.
    Ready,
    /// The workspace has not been initialized.
    Uninitialized,
    /// The workspace is present but has a recoverable configuration problem.
    Invalid,
}

impl WorkspaceStatus {
    /// The variant name, as `Debug` prints it.
    pub fn debug_name(self) -> (s: &'static str)
        ensures
            s@ == workspace_status_name(self),
    {
        match self {
            WorkspaceStatus::Ready => "Ready",
            WorkspaceStatus::Uninitialized => "Uninitialized",
            WorkspaceStatus::Invalid => "Invalid",
        }
    }

    /// The wire spelling (`ready`, `uninitialized`, `invalid`).
    pub fn as_str(self) -> (s: &'static str)
        ensures
            s@ == workspace_status_wire(self),
    {
        match self {
            WorkspaceStatus::Ready => "ready",
            WorkspaceStatus::Uninitialized => "uninitialized",
            WorkspaceStatus::Invalid => "invalid",
        }
    }
}

/// The variant name of a status.
pub open spec fn workspace_status_name(s: WorkspaceStatus) -> Seq<char> {
    match s {
        WorkspaceStatus::Ready => "Ready"@,
        WorkspaceStatus::Uninitialized => "Uninitialized"@,
        WorkspaceStatus::Invalid => "Invalid"@,
    }
}

/// The wire spelling of a status.
pub open spec fn workspace_status_wire(s: WorkspaceStatus) -> Seq<char> {
    match s {
        WorkspaceStatus::Ready => "ready"@,
        WorkspaceStatus::Uninitialized => "uninitialized"@,
        WorkspaceStatus::Invalid => "invalid"@,
    }
}

/// Durable health facts about the local workspace.
#[derive(Debug, Clone, PartialEq, Eq)]
pub struct HealthReport {
    /// Current workspace state.
    pub status: WorkspaceStatus,
    /// Schema version when the SQLite store is initialized.
    pub schema_version: Option<SchemaVersion>,
    /// Facts about the SQLite engine this build links.
    pub sqlite: Option<SqliteFacts>,
    /// User-facing explanation for non-ready states.
    pub message: Option<String>,
}

/// Facts about the SQLite engine this build links, surfaced by `doctor`.
#[derive(Debug, Clone, PartialEq, Eq)]
pub struct SqliteFacts {
    /// `SELECT sqlite_version()`, e.g. `3.53.2`.
    pub version: String,
    /// `sqlite3_libversion_number()`, e.g. `3053002`.
    pub version_number: i32,
    /// `SELECT sqlite_source_id()`.
    pub source_id: String,
    /// Every row of `PRAGMA compile_options`.
    pub compile_options: Vec<String>,
    /// True when the engine sits inside the WAL-reset corruption window.
    pub wal_reset_window: bool,
    /// True for the withdrawn 3.52 series.
    pub withdrawn_release: bool,
}

/// 3.7.0: where WAL reset landed.
pub const FIRST_AFFECTED: i32 = 3007000;

/// 3.51.3: the first release upstream calls fixed (exclusive bound).
pub const FIRST_FIXED: i32 = 3051003;

/// 3.44.6 and 3.50.7: patched inside the window.
pub const BACKPORTED: [i32; 2] = [3044006, 3050007];

/// The WAL-reset window: 3.7.0 through 3.51.2, minus the two in-place patches.
pub open spec fn in_wal_reset_window(v: int) -> bool {
    3007000 <= v < 3051003 && v != 3044006 && v != 3050007
}

/// The withdrawn 3.52 series.
pub open spec fn in_withdrawn_series(v: int) -> bool {
    3052000 <= v < 3053000
}

/// Whether a `sqlite3_libversion_number()` value sits in the WAL-reset window.
///
/// The bug is present from 3.7.0 through 3.51.2 and fixed in 3.51.3; 3.44.6 and
/// 3.50.7 were patched in place.
pub fn is_wal_reset_window(version_number: i32) -> (r: bool)
    ensures
        r == in_wal_reset_window(version_number as int),
{
    FIRST_AFFECTED <= version_number && version_number < FIRST_FIXED && version_number
        != BACKPORTED[0] && version_number != BACKPORTED[1]
}

/// Whether the engine is a release of the withdrawn 3.52 series.
pub fn is_withdrawn_release(version_number: i32) -> (r: bool)
    ensures
        r == in_withdrawn_series(version_number as int),
{
    3052000 <= version_number && version_number < 3053000
}

/// Law: the two refusals never overlap — no engine is both inside the
/// WAL-reset window and part of the withdrawn series, so the withdrawn series is
/// never offered as the way out of the window nor the other way round.
pub proof fn law_refusal_windows_are_disjoint(version_number: i32)
    ensures
        !(in_wal_reset_window(version_number as int) && in_withdrawn_series(
            version_number as int,
        )),
{
}

/// Small stats projection for the CLI `stats` command.
#[derive(Debug, Clone, PartialEq, Eq)]
pub struct StatsReport {
    /// Current workspace state.
    pub status: WorkspaceStatus,
    /// Schema version when the SQLite store is initialized.
    pub schema_version: Option<SchemaVersion>,
    /// The local SQLite database path, as text.
    pub database_path: String,
    /// Whether the database exists and is initialized.
    pub initialized: bool,
    /// Number of current source revisions, when known.
    pub sources: Option<u64>,
    /// Number of chunks across current revisions, when known.
    pub chunks: Option<u64>,
}

/// What kind of content a source revision holds.
#[derive(Debug, Clone, Copy, PartialEq, Eq, Structural)]
pub enum SourceKind {
    /// User-authored Markdown notes.
    Note,
    /// Downloaded paper content.
    Paper,
    /// Web page captures.
    Web,
}

/// The wire spelling of a source kind.
pub open spec fn source_kind_wire(kind: SourceKind) -> Seq<char> {
    match kind {
        SourceKind::Note => "note"@,
        SourceKind::Paper => "paper"@,
        SourceKind::Web => "web"@,
    }
}

impl SourceKind {
    /// The wire spelling, as stored in SQLite.
    pub fn as_str(self) -> (s: &'static str)
        ensures
            s@ == source_kind_wire(self),
    {
        match self {
            SourceKind::Note => "note",
            SourceKind::Paper => "paper",
            SourceKind::Web => "web",
        }
    }

    /// Parses the wire spelling; anything else is [`UnknownSourceKind`].
    pub fn parse_wire(value: &str) -> (r: Result<SourceKind, UnknownSourceKind>)
        ensures
            match r {
                Ok(kind) => source_kind_wire(kind) == value@,
                Err(UnknownSourceKind(v)) => v@ == value@ && (forall|k: SourceKind|
                    source_kind_wire(k) != value@),
            },
    {
        proof {
            reveal_strlit("note");
            reveal_strlit("paper");
            reveal_strlit("web");
        }
        let chars = chars_of(value);
        if same_chars(chars.as_slice(), &['n', 'o', 't', 'e']) {
            assert(chars@ =~= "note"@);
            Ok(SourceKind::Note)
        } else if same_chars(chars.as_slice(), &['p', 'a', 'p', 'e', 'r']) {
            assert(chars@ =~= "paper"@);
            Ok(SourceKind::Paper)
        } else if same_chars(chars.as_slice(), &['w', 'e', 'b']) {
            assert(chars@ =~= "web"@);
            Ok(SourceKind::Web)
        } else {
            assert forall|k: SourceKind| source_kind_wire(k) != value@ by {
                match k {
                    SourceKind::Note => assert("note"@ =~= seq!['n', 'o', 't', 'e']),
                    SourceKind::Paper => assert("paper"@ =~= seq!['p', 'a', 'p', 'e', 'r']),
                    SourceKind::Web => assert("web"@ =~= seq!['w', 'e', 'b']),
                }
            }
            Err(UnknownSourceKind(owned(value)))
        }
    }
}

/// Failure to parse a [`SourceKind`] from its wire spelling.
#[derive(Debug, Clone, PartialEq, Eq)]
pub struct UnknownSourceKind(pub String);

impl std::str::FromStr for SourceKind {
    type Err = UnknownSourceKind;

    fn from_str(value: &str) -> (r: Result<SourceKind, UnknownSourceKind>)
        ensures
            match r {
                Ok(kind) => source_kind_wire(kind) == value@,
                Err(UnknownSourceKind(v)) => v@ == value@ && (forall|k: SourceKind|
                    source_kind_wire(k) != value@),
            },
    {
        SourceKind::parse_wire(value)
    }
}

/// Where a source revision came from and how much it can be trusted.
#[derive(Debug, Clone, Copy, PartialEq, Eq, Structural)]
pub enum OriginClass {
    /// User-written notes and annotations; trusted facts.
    Owner,
    /// Paper originals; external but structured.
    Paper,
    /// Web content; untrusted.
    Web,
    /// AI-generated content; always `proposed` until confirmed.
    Agent,
    /// System-generated explanation.
    System,
}

/// The wire spelling of an origin class.
pub open spec fn origin_wire(class: OriginClass) -> Seq<char> {
    match class {
        OriginClass::Owner => "owner"@,
        OriginClass::Paper => "paper"@,
        OriginClass::Web => "web"@,
        OriginClass::Agent => "agent"@,
        OriginClass::System => "system"@,
    }
}

/// Whether text of this class may ever be evidence: owner notes, papers and
/// web pages are searched; agent and system text never is.
pub open spec fn origin_retrievable(class: OriginClass) -> bool {
    match class {
        OriginClass::Owner | OriginClass::Paper | OriginClass::Web => true,
        OriginClass::Agent | OriginClass::System => false,
    }
}

impl OriginClass {
    /// Whether a query may match chunks of this class. Every class is either
    /// retrievable or deliberately excluded; the search weights each
    /// retrievable class.
    pub fn is_retrievable(self) -> (r: bool)
        ensures
            r == origin_retrievable(self),
    {
        match self {
            OriginClass::Owner | OriginClass::Paper | OriginClass::Web => true,
            OriginClass::Agent | OriginClass::System => false,
        }
    }

    /// The wire spelling of this class (`owner`, `paper`, ...).
    pub fn as_str(self) -> (s: &'static str)
        ensures
            s@ == origin_wire(self),
    {
        match self {
            OriginClass::Owner => "owner",
            OriginClass::Paper => "paper",
            OriginClass::Web => "web",
            OriginClass::Agent => "agent",
            OriginClass::System => "system",
        }
    }

    /// Parses the wire spelling; anything else is [`UnknownOriginClass`].
    pub fn parse_wire(value: &str) -> (r: Result<OriginClass, UnknownOriginClass>)
        ensures
            match r {
                Ok(class) => origin_wire(class) == value@,
                Err(UnknownOriginClass(v)) => v@ == value@ && (forall|k: OriginClass|
                    origin_wire(k) != value@),
            },
    {
        proof {
            reveal_strlit("owner");
            reveal_strlit("paper");
            reveal_strlit("web");
            reveal_strlit("agent");
            reveal_strlit("system");
        }
        let chars = chars_of(value);
        if same_chars(chars.as_slice(), &['o', 'w', 'n', 'e', 'r']) {
            assert(chars@ =~= "owner"@);
            Ok(OriginClass::Owner)
        } else if same_chars(chars.as_slice(), &['p', 'a', 'p', 'e', 'r']) {
            assert(chars@ =~= "paper"@);
            Ok(OriginClass::Paper)
        } else if same_chars(chars.as_slice(), &['w', 'e', 'b']) {
            assert(chars@ =~= "web"@);
            Ok(OriginClass::Web)
        } else if same_chars(chars.as_slice(), &['a', 'g', 'e', 'n', 't']) {
            assert(chars@ =~= "agent"@);
            Ok(OriginClass::Agent)
        } else if same_chars(chars.as_slice(), &['s', 'y', 's', 't', 'e', 'm']) {
            assert(chars@ =~= "system"@);
            Ok(OriginClass::System)
        } else {
            assert forall|k: OriginClass| origin_wire(k) != value@ by {
                match k {
                    OriginClass::Owner => assert("owner"@ =~= seq!['o', 'w', 'n', 'e', 'r']),
                    OriginClass::Paper => assert("paper"@ =~= seq!['p', 'a', 'p', 'e', 'r']),
                    OriginClass::Web => assert("web"@ =~= seq!['w', 'e', 'b']),
                    OriginClass::Agent => assert("agent"@ =~= seq!['a', 'g', 'e', 'n', 't']),
                    OriginClass::System => assert("system"@ =~= seq!['s', 'y', 's', 't', 'e', 'm']),
                }
            }
            Err(UnknownOriginClass(owned(value)))
        }
    }
}

/// Failure to parse an [`OriginClass`] from its wire spelling.
#[derive(Debug, Clone, PartialEq, Eq)]
pub struct UnknownOriginClass(pub String);

impl std::str::FromStr for OriginClass {
    type Err = UnknownOriginClass;

    fn from_str(value: &str) -> (r: Result<OriginClass, UnknownOriginClass>)
        ensures
            match r {
                Ok(class) => origin_wire(class) == value@,
                Err(UnknownOriginClass(v)) => v@ == value@ && (forall|c: OriginClass|
                    origin_wire(c) != value@),
            },
    {
        OriginClass::parse_wire(value)
    }
}

/// Law: the wire spelling round-trips — parsing what `as_str` writes gives the
/// class back, and distinct classes never share a spelling.
pub proof fn law_origin_spelling_round_trips(a: OriginClass, b: OriginClass)
    ensures
        origin_wire(a) == origin_wire(b) ==> a == b,
{
    reveal_strlit("owner");
    reveal_strlit("paper");
    reveal_strlit("web");
    reveal_strlit("agent");
    reveal_strlit("system");
    if origin_wire(a) == origin_wire(b) && a != b {
        assert(origin_wire(a).len() != origin_wire(b).len() || origin_wire(a)[0] != origin_wire(
            b,
        )[0] || origin_wire(a)[1] != origin_wire(b)[1]);
    }
}

/// Law: the kind spelling round-trips the same way.
pub proof fn law_kind_spelling_round_trips(a: SourceKind, b: SourceKind)
    ensures
        source_kind_wire(a) == source_kind_wire(b) ==> a == b,
{
    reveal_strlit("note");
    reveal_strlit("paper");
    reveal_strlit("web");
    if source_kind_wire(a) == source_kind_wire(b) && a != b {
        assert(source_kind_wire(a)[0] != source_kind_wire(b)[0]);
    }
}

/// One immutable version of a source.
#[derive(Debug, Clone, PartialEq)]
pub struct SourceRevision {
    /// Canonical identity.
    pub source_key: String,
    /// `sha256` over normalized source bytes.
    pub revision_hash: String,
    /// Content kind.
    pub kind: SourceKind,
    /// Display title, when derivable.
    pub title: Option<String>,
    /// Remote URI, when the source has one.
    pub uri: Option<String>,
    /// Workspace-relative, `/`-joined path when the source lives on disk.
    pub local_path: Option<String>,
    /// The file name exactly as the vault spelled it.
    pub raw_name: Option<String>,
    /// Trust origin.
    pub origin_class: OriginClass,
    /// JSON metadata blob (fingerprint, tool tag, provider data).
    pub metadata_json: String,
    /// Unix epoch seconds at ingestion.
    pub ingested_at: i64,
    /// Whether this is the newest revision for the source key.
    pub is_current: bool,
}

/// The searchable unit derived from one source revision.
#[derive(Debug, Clone, PartialEq)]
pub struct Chunk {
    /// Deterministic global identifier.
    pub chunk_id: String,
    /// Owning source key.
    pub source_key: String,
    /// Owning revision hash.
    pub revision_hash: String,
    /// Position within the revision.
    pub ordinal: u32,
    /// Heading path rendered top-down, when the chunk sits under headings.
    pub heading_path: Option<String>,
    /// Verbatim source text.
    pub text: String,
    /// JSON locator (`start_byte`/`end_byte`/`start_line`/`end_line`/`truncated`).
    pub locator_json: String,
    /// Deterministic content hash.
    pub chunk_hash: String,
    /// Estimated token count.
    pub token_estimate: u32,
}

/// Index-time policy knobs, frozen per ingest run.
#[derive(Debug, Clone, PartialEq, Eq)]
pub struct IndexPolicy {
    /// Lexical engine selector; only `tantivy_bm25` is supported.
    pub lexical: String,
    /// Hybrid retrieval toggle; must stay off until a dense baseline exists.
    pub hybrid: bool,
    /// CJK tokenizer selector; only `cjk` (bigram) is supported.
    pub cjk_tokenizer: String,
    /// Maximum estimated tokens per chunk.
    pub max_chunk_tokens: u32,
    /// Overlap tokens between consecutive text chunks.
    pub chunk_overlap_tokens: u32,
}

/// The default lexical engine name.
pub fn default_lexical() -> (s: String)
    ensures
        s@ == "tantivy_bm25"@,
{
    owned("tantivy_bm25")
}

/// The default CJK tokenizer name.
pub fn default_cjk_tokenizer() -> (s: String)
    ensures
        s@ == "cjk"@,
{
    owned("cjk")
}

/// The default chunk budget.
pub fn default_max_chunk_tokens() -> (n: u32)
    ensures
        n == 512,
{
    512
}

/// The default overlap budget.
pub fn default_chunk_overlap_tokens() -> (n: u32)
    ensures
        n == 64,
{
    64
}

impl Default for IndexPolicy {
    fn default() -> (policy: IndexPolicy)
        ensures
            policy.lexical@ == "tantivy_bm25"@,
            !policy.hybrid,
            policy.cjk_tokenizer@ == "cjk"@,
            policy.max_chunk_tokens == 512,
            policy.chunk_overlap_tokens == 64,
    {
        IndexPolicy {
            lexical: default_lexical(),
            hybrid: false,
            cjk_tokenizer: default_cjk_tokenizer(),
            max_chunk_tokens: default_max_chunk_tokens(),
            chunk_overlap_tokens: default_chunk_overlap_tokens(),
        }
    }
}

/// Why one file failed during an index run.
#[derive(Debug, Clone, Copy, PartialEq, Eq, Structural)]
pub enum IndexFileErrorKind {
    /// Two distinct files in one batch derived the same source key.
    KeyCollision,
    /// The file name is not valid UTF-8.
    InvalidUtf8,
    /// The path is not a name inside the vault root.
    OutsideVault,
    /// The derived source key violated the key contract.
    InvalidSourceKey,
    /// Anything else: IO, store, chunking.
    Other,
}

/// The terminal and wire spelling of an error kind.
pub open spec fn error_kind_wire(kind: IndexFileErrorKind) -> Seq<char> {
    match kind {
        IndexFileErrorKind::KeyCollision => "key_collision"@,
        IndexFileErrorKind::InvalidUtf8 => "invalid_utf8"@,
        IndexFileErrorKind::OutsideVault => "outside_vault"@,
        IndexFileErrorKind::InvalidSourceKey => "invalid_source_key"@,
        IndexFileErrorKind::Other => "other"@,
    }
}

impl IndexFileErrorKind {
    /// The spelling a terminal line and the JSON form both use.
    pub fn as_str(self) -> (s: &'static str)
        ensures
            s@ == error_kind_wire(self),
    {
        match self {
            IndexFileErrorKind::KeyCollision => "key_collision",
            IndexFileErrorKind::InvalidUtf8 => "invalid_utf8",
            IndexFileErrorKind::OutsideVault => "outside_vault",
            IndexFileErrorKind::InvalidSourceKey => "invalid_source_key",
            IndexFileErrorKind::Other => "other",
        }
    }
}

/// Per-file failure recorded during an index run.
#[derive(Debug, Clone, PartialEq, Eq)]
pub struct IndexFileError {
    /// Source key of the file that failed, when one could be derived.
    pub source_key: Option<String>,
    /// Machine-readable failure kind.
    pub kind: IndexFileErrorKind,
    /// Human-readable detail; never parse this.
    pub message: String,
}

/// Aggregate outcome of one `momotaro index` invocation.
#[derive(Debug, Clone, PartialEq, Eq)]
pub struct IndexReport {
    /// Markdown files discovered under the vault root.
    pub files_scanned: u64,
    /// Files skipped because the fingerprint was unchanged.
    pub files_skipped: u64,
    /// Files that produced a new revision or refresh.
    pub files_indexed: u64,
    /// New revisions written to canonical storage.
    pub revisions_created: u64,
    /// Chunks written (replaces count, not net-new count).
    pub chunks_written: u64,
    /// Per-file failures; the batch never aborts on a single file.
    pub errors: Vec<IndexFileError>,
    /// Wall-clock duration of the run.
    pub duration_ms: u64,
}

/// The CJK ranges: Han, kana, Hangul, CJK punctuation, fullwidth forms and
/// the CJK extensions.
pub open spec fn is_cjk_code(u: u32) -> bool {
    ||| 0x3000 <= u <= 0x303f
    ||| 0x3040 <= u <= 0x30ff
    ||| 0x3130 <= u <= 0x318f
    ||| 0x3400 <= u <= 0x4dbf
    ||| 0x4e00 <= u <= 0x9fff
    ||| 0xac00 <= u <= 0xd7af
    ||| 0xf900 <= u <= 0xfaff
    ||| 0xff00 <= u <= 0xffef
    ||| 0x20000 <= u <= 0x2fa1f
}

/// Whether `c` falls in a CJK range.
pub fn is_cjk(c: char) -> (r: bool)
    ensures
        r == is_cjk_code(c as u32),
{
    let u = c as u32;
    (0x3000 <= u && u <= 0x303f) || (0x3040 <= u && u <= 0x30ff) || (0x3130 <= u && u <= 0x318f)
        || (0x3400 <= u && u <= 0x4dbf) || (0x4e00 <= u && u <= 0x9fff) || (0xac00 <= u && u
        <= 0xd7af) || (0xf900 <= u && u <= 0xfaff) || (0xff00 <= u && u <= 0xffef) || (0x20000
        <= u && u <= 0x2fa1f)
}

/// Number of CJK characters in `s`.
pub open spec fn cjk_count(s: Seq<char>) -> nat
    decreases s.len(),
{
    if s.len() == 0 {
        0
    } else {
        cjk_count(s.drop_last()) + if is_cjk_code(s.last() as u32) {
            1nat
        } else {
            0nat
        }
    }
}

/// The token estimate: one token per CJK character plus one token per four
/// other characters, rounded up.
pub open spec fn token_estimate(s: Seq<char>) -> nat {
    cjk_count(s) + ((s.len() - cjk_count(s)) as nat + 3) / 4
}

/// `cjk_count` never exceeds the length.
pub proof fn lemma_cjk_count_bound(s: Seq<char>)
    ensures
        cjk_count(s) <= s.len(),
    decreases s.len(),
{
    if s.len() > 0 {
        lemma_cjk_count_bound(s.drop_last());
    }
}

/// Law: the estimate never exceeds the character count.
pub proof fn law_estimate_at_most_length(s: Seq<char>)
    ensures
        token_estimate(s) <= s.len(),
{
    lemma_cjk_count_bound(s);
}

/// Law: the blocks that count as CJK. CJK punctuation, Hiragana and
/// Katakana, Hangul compatibility jamo, CJK extension A, the unified
/// ideographs, Hangul syllables, compatibility ideographs, fullwidth forms and
/// extensions B to F all do; nothing below U+3000 (ASCII, Latin, Greek,
/// Cyrillic, ...) does.
pub proof fn law_cjk_blocks(u: u32)
    ensures
        0x3000 <= u <= 0x303f ==> is_cjk_code(u),
        0x3040 <= u <= 0x30ff ==> is_cjk_code(u),
        0x3130 <= u <= 0x318f ==> is_cjk_code(u),
        0x3400 <= u <= 0x4dbf ==> is_cjk_code(u),
        0x4e00 <= u <= 0x9fff ==> is_cjk_code(u),
        0xac00 <= u <= 0xd7af ==> is_cjk_code(u),
        0xf900 <= u <= 0xfaff ==> is_cjk_code(u),
        0xff00 <= u <= 0xffef ==> is_cjk_code(u),
        0x20000 <= u <= 0x2fa1f ==> is_cjk_code(u),
        u < 0x3000 ==> !is_cjk_code(u),
{
}

/// Law: text made only of CJK characters costs one token per character.
pub proof fn law_cjk_text_one_token_per_char(s: Seq<char>)
    requires
        forall|i: int| 0 <= i < s.len() ==> is_cjk_code(#[trigger] s[i] as u32),
    ensures
        cjk_count(s) == s.len(),
        token_estimate(s) == s.len(),
    decreases s.len(),
{
    if s.len() > 0 {
        let d = s.drop_last();
        assert forall|i: int| 0 <= i < d.len() implies is_cjk_code(#[trigger] d[i] as u32) by {
            assert(d[i] == s[i]);
        }
        law_cjk_text_one_token_per_char(d);
        assert(is_cjk_code(s[s.len() - 1] as u32));
    }
}

/// Law: Korean text in Hangul syllables costs one token per syllable, as the
/// ideographs do (`한국어` is three tokens).
pub proof fn law_hangul_one_token_per_syllable(s: Seq<char>)
    requires
        forall|i: int| 0 <= i < s.len() ==> 0xac00 <= #[trigger] s[i] as u32 <= 0xd7af,
    ensures
        token_estimate(s) == s.len(),
{
    assert forall|i: int| 0 <= i < s.len() implies is_cjk_code(#[trigger] s[i] as u32) by {
        law_cjk_blocks(s[i] as u32);
    }
    law_cjk_text_one_token_per_char(s);
}

/// Law: text with no CJK character costs one token per four characters,
/// rounded up.
pub proof fn law_text_below_cjk_one_token_per_four(s: Seq<char>)
    requires
        forall|i: int| 0 <= i < s.len() ==> (#[trigger] s[i] as u32) < 0x3000,
    ensures
        cjk_count(s) == 0,
        token_estimate(s) == (s.len() + 3) / 4,
    decreases s.len(),
{
    if s.len() > 0 {
        let d = s.drop_last();
        assert forall|i: int| 0 <= i < d.len() implies (#[trigger] d[i] as u32) < 0x3000 by {
            assert(d[i] == s[i]);
        }
        law_text_below_cjk_one_token_per_four(d);
        assert((s[s.len() - 1] as u32) < 0x3000);
        law_cjk_blocks(s.last() as u32);
    }
}

/// The token estimate of a character slice, without any bound on its size.
pub fn estimate_chars(chars: &[char]) -> (n: u64)
    ensures
        n == token_estimate(chars@),
{
    let mut cjk: u64 = 0;
    let mut other: u64 = 0;
    let mut i: usize = 0;
    while i < chars.len()
        invariant
            i <= chars@.len(),
            cjk == cjk_count(chars@.take(i as int)),
            cjk + other == i,
        decreases chars@.len() - i,
    {
        assert(chars@.take(i + 1).drop_last() =~= chars@.take(i as int));
        if is_cjk(chars[i]) {
            cjk = cjk + 1;
        } else {
            other = other + 1;
        }
        i = i + 1;
    }
    assert(chars@.take(chars@.len() as int) =~= chars@);
    let rounded_up = other / 4 + if other % 4 != 0 { 1u64 } else { 0u64 };
    assert(rounded_up == (other as nat + 3) / 4);
    cjk + rounded_up
}

/// Rough token estimate used for chunking and budgeting.
///
/// CJK characters count as one token each; other characters count as one token
/// per four characters, rounded up. The counters are `u32`, so the text holds at
/// most `u32::MAX` characters.
pub fn estimate_tokens(text: &str) -> (n: u32)
    requires
        text@.len() <= u32::MAX,
    ensures
        n == token_estimate(text@),
{
    let chars = chars_of(text);
    proof {
        law_estimate_at_most_length(text@);
    }
    estimate_chars(chars.as_slice()) as u32
}

} // verus!
