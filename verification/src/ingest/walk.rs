//! Vault-relative names and source-key derivation.
//!
//! The filesystem walk itself lives with the command layer; what is decided
//! here is which entries the walk keeps, and how a file's path below the vault
//! root becomes a name and a key. Paths arrive as their components.

use vstd::prelude::*;
use vstd::utf8::{decode_utf8, valid_utf8};

use super::path::{is_within, segment_views, starts_with, Segment, SegmentKind, SegmentView};
use super::IngestError;
use crate::contracts::{
    has_parent_part, is_absolute_tail, key_error_text, key_tail_is_valid, note_key, note_source_key,
    split_on,
};
use crate::text::{debug_quoted, join, push_joined, push_str};

verus! {

/// Whether a directory entry is hidden: its name starts with `.` and is not
/// `.` itself. A name that is not UTF-8 is not hidden.
pub open spec fn hidden_name(name: Option<Seq<char>>) -> bool {
    match name {
        Some(n) => n.len() >= 1 && n[0] == '.' && n != seq!['.'],
        None => false,
    }
}

/// Decides whether the walk prunes an entry (and its subtree) by its own
/// file name, given as text when it is UTF-8.
pub fn is_hidden(file_name: Option<&str>) -> (r: bool)
    ensures
        r == hidden_name(
            match file_name {
                Some(n) => Some(n@),
                None => None,
            },
        ),
{
    match file_name {
        Some(name) => {
            let chars = crate::text::chars_of(name);
            let r = chars.len() >= 1 && chars[0] == '.' && chars.len() != 1;
            proof {
                if chars@.len() == 1 && chars@[0] == '.' {
                    assert(chars@ =~= seq!['.']);
                }
            }
            r
        },
        None => false,
    }
}

/// Decides whether a file is Markdown from its extension, given as text when
/// it is UTF-8: `md`, ignoring ASCII case.
pub fn is_markdown_extension(extension: Option<&str>) -> (r: bool)
    ensures
        r == match extension {
            Some(e) => crate::ingest::title::is_md_extension(e@),
            None => false,
        },
{
    match extension {
        Some(e) => {
            let c = crate::text::chars_of(e);
            c.len() == 2 && (c[0] == 'm' || c[0] == 'M') && (c[1] == 'd' || c[1] == 'D')
        },
        None => false,
    }
}

/// The first component that is not a usable name: `Some(true)` when it is a
/// name that is not UTF-8, `Some(false)` when it is a root, prefix or `..`.
pub open spec fn first_unusable(parts: Seq<SegmentView>, i: int) -> Option<bool>
    decreases parts.len() - i,
{
    if i < 0 || i >= parts.len() {
        None
    } else {
        match parts[i].kind {
            SegmentKind::Name => if valid_utf8(parts[i].text) {
                first_unusable(parts, i + 1)
            } else {
                Some(true)
            },
            SegmentKind::Current => first_unusable(parts, i + 1),
            _ => Some(false),
        }
    }
}

/// The names among `parts`, decoded, in order.
pub open spec fn part_names(parts: Seq<SegmentView>) -> Seq<Seq<char>>
    decreases parts.len(),
{
    if parts.len() == 0 {
        seq![]
    } else if parts.last().kind == SegmentKind::Name {
        part_names(parts.drop_last()).push(decode_utf8(parts.last().text))
    } else {
        part_names(parts.drop_last())
    }
}

/// The vault-relative name the components spell, `/`-joined.
pub open spec fn name_of_parts(parts: Seq<SegmentView>) -> Seq<char> {
    join(part_names(parts), seq!['/'])
}

/// Builds the `/`-joined vault-relative name from path components.
///
/// `.` components are skipped. A name that is not valid UTF-8 is refused
/// rather than folded (two files would share one identity); a root, prefix or
/// `..` component means the caller did not hand over a vault-relative name;
/// and no name at all is refused too. Each refusal names `shown`, the path as
/// messages render it.
pub fn relative_name(parts: &[Segment], shown: &str) -> (r: Result<String, IngestError>)
    ensures
        ({
            let v = segment_views(parts@);
            match r {
                Ok(name) => first_unusable(v, 0) is None && part_names(v).len() > 0 && name@
                    == name_of_parts(v),
                Err(IngestError::InvalidUtf8(m)) => first_unusable(v, 0) == Some(true) && m@
                    == shown@,
                Err(IngestError::OutsideVault(m)) => (first_unusable(v, 0) == Some(false) || (
                first_unusable(v, 0) is None && part_names(v).len() == 0)) && m@ == shown@,
                Err(_) => false,
            }
        }),
{
    let ghost v = segment_views(parts@);
    let mut names: Vec<Vec<char>> = Vec::new();
    let mut i: usize = 0;
    while i < parts.len()
        invariant
            i <= parts@.len(),
            v == segment_views(parts@),
            first_unusable(v, 0) == first_unusable(v, i as int),
            names@.map_values(|n: Vec<char>| n@) == part_names(v.take(i as int)),
        decreases parts@.len() - i,
    {
        assert(v.take(i + 1).drop_last() =~= v.take(i as int));
        assert(v.take(i + 1).last() == v[i as int]);
        assert(v[i as int].text == parts@[i as int].text@);
        match parts[i].kind {
            SegmentKind::Name => {
                match crate::ingest::normalize::utf8_str(parts[i].text.as_slice()) {
                    Some(text) => {
                        let ghost before = names@;
                        let chars = crate::text::chars_of(text);
                        let ghost cv = chars@;
                        names.push(chars);
                        proof {
                            let now = names@.map_values(|n: Vec<char>| n@);
                            let want = before.map_values(|n: Vec<char>| n@).push(cv);
                            assert forall|j: int| 0 <= j < now.len() implies now[j] == want[j] by {
                                if j < before.len() {
                                    assert(now[j] == before.map_values(|n: Vec<char>| n@)[j]);
                                }
                            }
                            assert(now =~= want);
                        }
                    },
                    None => {
                        return Err(IngestError::InvalidUtf8(crate::text::owned(shown)));
                    },
                }
            },
            SegmentKind::Current => {},
            _ => {
                return Err(IngestError::OutsideVault(crate::text::owned(shown)));
            },
        }
        i = i + 1;
    }
    assert(v.take(v.len() as int) =~= v);
    if names.len() == 0 {
        return Err(IngestError::OutsideVault(crate::text::owned(shown)));
    }
    let mut name = String::new();
    let sep = ['/'];
    assert(sep@ =~= seq!['/']);
    push_joined(&mut name, &names, &sep);
    Ok(name)
}

/// The components of `path` below `vault_root`.
pub open spec fn below_root(vault_root: Seq<SegmentView>, path: Seq<SegmentView>) -> Seq<SegmentView> {
    path.skip(vault_root.len() as int)
}

/// The raw name of the file at `path` below `vault_root`, when it has one.
pub open spec fn raw_name_of(vault_root: Seq<SegmentView>, path: Seq<SegmentView>) -> Option<Seq<char>> {
    let below = below_root(vault_root, path);
    if starts_with(vault_root, path) && first_unusable(below, 0) is None && part_names(below).len()
        > 0 {
        Some(name_of_parts(below))
    } else {
        None
    }
}

/// The message of a file that does not lie below the vault root.
pub open spec fn outside_vault_text(path_shown: Seq<char>, root_shown: Seq<char>) -> Seq<char> {
    path_shown + " is outside vault root "@ + root_shown
}

/// What naming the file at `path` below `vault_root` gives: the raw name; an
/// `OutsideVault` naming both paths when the path is not below the root; an
/// `InvalidUtf8` naming the path when the first unusable component below the
/// root is a name that is not UTF-8; an `OutsideVault` naming the path when it
/// is a root, prefix or `..`, or when no name is left.
pub open spec fn raw_name_outcome(
    rv: Seq<SegmentView>,
    pv: Seq<SegmentView>,
    path_shown: Seq<char>,
    root_shown: Seq<char>,
    r: Result<String, IngestError>,
) -> bool {
    let below = below_root(rv, pv);
    match r {
        Ok(name) => raw_name_of(rv, pv) == Some(name@),
        Err(IngestError::OutsideVault(m)) => if !starts_with(rv, pv) {
            m@ == outside_vault_text(path_shown, root_shown)
        } else {
            (first_unusable(below, 0) == Some(false) || (first_unusable(below, 0) is None
                && part_names(below).len() == 0)) && m@ == path_shown
        },
        Err(IngestError::InvalidUtf8(m)) => starts_with(rv, pv) && first_unusable(below, 0)
            == Some(true) && m@ == path_shown,
        Err(_) => false,
    }
}

/// Derives the vault-relative `raw_name` exactly as the file spells it
/// (original case, `/` separators). Never an identity: the key is.
///
/// `path_shown` and `root_shown` are the two paths as messages render them.
pub fn raw_name_for(vault_root: &[Segment], path: &[Segment], path_shown: &str, root_shown: &str) -> (r:
    Result<String, IngestError>)
    ensures
        raw_name_outcome(
            segment_views(vault_root@),
            segment_views(path@),
            path_shown@,
            root_shown@,
            r,
        ),
{
    if !is_within(vault_root, path) {
        let mut message = crate::text::owned(path_shown);
        push_str(&mut message, " is outside vault root ");
        push_str(&mut message, root_shown);
        return Err(IngestError::OutsideVault(message));
    }
    let ghost rv = segment_views(vault_root@);
    let ghost pv = segment_views(path@);
    let rest = path.split_at(vault_root.len()).1;
    proof {
        assert(segment_views(rest@) =~= below_root(rv, pv));
    }
    relative_name(rest, path_shown)
}

/// The message of the first key rule a tail breaks: NUL, absolute form,
/// `..`, emptiness.
pub open spec fn key_refusal_text(raw: Seq<char>) -> Seq<char> {
    if raw.contains('\0') {
        "source key tail contains a NUL byte"@
    } else if is_absolute_tail(raw) {
        "source key tail must be vault-relative, got an absolute form: "@ + debug_quoted(raw)
    } else if has_parent_part(split_on(raw, '/')) {
        "source key tail must not contain `..`"@
    } else {
        "source key tail is empty"@
    }
}

/// The source key for a vault-relative name, or the key error as an
/// `InvalidSourceKey` failure naming `shown`.
pub fn key_for_name(name: &str, shown: &str) -> (r: Result<String, IngestError>)
    ensures
        match r {
            Ok(key) => key_tail_is_valid(name@) && key@ == note_key(name@),
            Err(IngestError::InvalidSourceKey(m)) => !key_tail_is_valid(name@) && m@ == shown@
                + ": "@ + key_refusal_text(name@),
            Err(_) => false,
        },
{
    match note_source_key(name) {
        Ok(key) => Ok(key),
        Err(error) => {
            let mut message = crate::text::owned(shown);
            push_str(&mut message, ": ");
            let described = error.describe();
            proof {
                assert(key_error_text(error) == key_refusal_text(name@));
            }
            push_str(&mut message, described.as_str());
            Err(IngestError::InvalidSourceKey(message))
        },
    }
}

/// Derives the scheme-prefixed source key for one vault file: NFC on the tail
/// only, case preserved verbatim, `/` the only separator, and absolute or
/// `..`-bearing tails rejected.
pub fn source_key_for(vault_root: &[Segment], path: &[Segment], path_shown: &str, root_shown: &str) -> (r:
    Result<String, IngestError>)
    ensures
        ({
            let rv = segment_views(vault_root@);
            let pv = segment_views(path@);
            match raw_name_of(rv, pv) {
                Some(name) => match r {
                    Ok(key) => key_tail_is_valid(name) && key@ == note_key(name),
                    Err(IngestError::InvalidSourceKey(m)) => !key_tail_is_valid(name) && m@
                        == path_shown@ + ": "@ + key_refusal_text(name),
                    Err(_) => false,
                },
                None => r is Err && raw_name_outcome(rv, pv, path_shown@, root_shown@, r),
            }
        }),
{
    let raw = raw_name_for(vault_root, path, path_shown, root_shown)?;
    key_for_name(raw.as_str(), path_shown)
}

} // verus!
