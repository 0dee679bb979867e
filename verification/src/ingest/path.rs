//! Workspace-relative path facts.
//!
//! Containment is only ever decided between two canonicalized paths, compared
//! component by component: a lexical prefix check does not resolve `..`.
//! Canonicalizing is filesystem work and happens in the command layer; it
//! hands over each canonical path as its components, and what is decided from
//! them lives here.

use vstd::prelude::*;
use vstd::utf8::{decode_utf8, valid_utf8};

use super::IngestError;
use crate::text::{join, owned, push_joined, push_str};

verus! {

/// The kind of one path component.
#[derive(Debug, Clone, Copy, PartialEq, Eq, Structural)]
pub enum SegmentKind {
    /// A Windows path prefix such as `C:`.
    Prefix,
    /// The root directory.
    Root,
    /// `.`.
    Current,
    /// `..`.
    Parent,
    /// A name.
    Name,
}

/// One path component as plain values: its kind and the bytes of its
/// `OsStr` spelling.
#[derive(Debug, Clone)]
pub struct Segment {
    /// What the component is.
    pub kind: SegmentKind,
    /// The component's spelling, as encoded bytes.
    pub text: Vec<u8>,
}

/// A component as plain values.
pub struct SegmentView {
    pub kind: SegmentKind,
    pub text: Seq<u8>,
}

impl View for Segment {
    type V = SegmentView;

    open spec fn view(&self) -> SegmentView {
        SegmentView { kind: self.kind, text: self.text@ }
    }
}

/// The views of a component list.
pub open spec fn segment_views(s: Seq<Segment>) -> Seq<SegmentView> {
    s.map_values(|x: Segment| x@)
}

/// Whether `root` is a leading run of components of `candidate`, compared
/// whole component by whole component.
pub open spec fn starts_with(root: Seq<SegmentView>, candidate: Seq<SegmentView>) -> bool {
    root.len() <= candidate.len() && forall|i: int| 0 <= i < root.len() ==> #[trigger] root[i]
        == candidate[i]
}

fn same_bytes(a: &Vec<u8>, b: &Vec<u8>) -> (r: bool)
    ensures
        r == (a@ == b@),
{
    if a.len() != b.len() {
        return false;
    }
    let mut i: usize = 0;
    while i < a.len()
        invariant
            a@.len() == b@.len(),
            i <= a@.len(),
            forall|j: int| 0 <= j < i ==> a@[j] == b@[j],
        decreases a@.len() - i,
    {
        if a[i] != b[i] {
            return false;
        }
        i = i + 1;
    }
    assert(a@ =~= b@);
    true
}

/// Whether the canonical `candidate` lies inside the canonical
/// `workspace_root`; the root itself is within.
pub fn is_within(workspace_root: &[Segment], candidate: &[Segment]) -> (r: bool)
    ensures
        r == starts_with(segment_views(workspace_root@), segment_views(candidate@)),
{
    let ghost rv = segment_views(workspace_root@);
    let ghost cv = segment_views(candidate@);
    if workspace_root.len() > candidate.len() {
        return false;
    }
    let mut i: usize = 0;
    while i < workspace_root.len()
        invariant
            i <= workspace_root@.len() <= candidate@.len(),
            rv == segment_views(workspace_root@),
            cv == segment_views(candidate@),
            forall|j: int| 0 <= j < i ==> #[trigger] rv[j] == cv[j],
        decreases workspace_root@.len() - i,
    {
        let a = &workspace_root[i];
        let b = &candidate[i];
        if a.kind != b.kind || !same_bytes(&a.text, &b.text) {
            assert(rv[i as int] != cv[i as int]);
            return false;
        }
        assert(rv[i as int] == cv[i as int]);
        i = i + 1;
    }
    true
}

/// What `String::from_utf8_lossy` renders for `bytes`.
pub uninterp spec fn utf8_lossy(bytes: Seq<u8>) -> Seq<char>;

/// `String::from_utf8_lossy`, owned; its result is named [`utf8_lossy`], and
/// on valid UTF-8 it is the text the bytes spell, as its documentation says.
#[verifier::external_body]
fn lossy_text(bytes: &[u8]) -> (text: String)
    ensures
        text@ == utf8_lossy(bytes@),
        valid_utf8(bytes@) ==> text@ == decode_utf8(bytes@),
{
    String::from_utf8_lossy(bytes).into_owned()
}

/// The index of the first component at or after `i` whose spelling is not
/// UTF-8.
pub open spec fn first_non_utf8(parts: Seq<SegmentView>, i: int) -> Option<int>
    decreases parts.len() - i,
{
    if i < 0 || i >= parts.len() {
        None
    } else if !valid_utf8(parts[i].text) {
        Some(i)
    } else {
        first_non_utf8(parts, i + 1)
    }
}

/// The texts of `parts`, decoded.
pub open spec fn decoded_texts(parts: Seq<SegmentView>) -> Seq<Seq<char>> {
    parts.map_values(|p: SegmentView| decode_utf8(p.text))
}

/// The `local_path` value of a canonical path below the canonical root: its
/// components below the root, `/`-joined.
pub open spec fn local_path_text(root: Seq<SegmentView>, resolved: Seq<SegmentView>) -> Seq<char> {
    join(decoded_texts(resolved.skip(root.len() as int)), seq!['/'])
}

/// Renders the canonical `resolved` path relative to the canonical workspace
/// root for the `local_path` column: `/`-joined, never leaving the workspace,
/// and the root itself renders as the empty string.
///
/// A path outside the root is refused as `OutsideWorkspace` with a message
/// naming `path_shown` and `root_shown`; a component whose name is not UTF-8
/// is refused as `InvalidUtf8` with its lossy rendering, never folded (two
/// names could collapse onto one stored path).
pub fn local_path_in(
    workspace_root: &[Segment],
    resolved: &[Segment],
    path_shown: &str,
    root_shown: &str,
) -> (r: Result<String, IngestError>)
    ensures
        ({
            let root = segment_views(workspace_root@);
            let cand = segment_views(resolved@);
            let below = cand.skip(root.len() as int);
            match r {
                Ok(text) => starts_with(root, cand) && first_non_utf8(below, 0) is None && text@
                    == local_path_text(root, cand),
                Err(IngestError::OutsideWorkspace(m)) => !starts_with(root, cand) && m@
                    == path_shown@ + " is outside workspace "@ + root_shown@,
                Err(IngestError::InvalidUtf8(m)) => {
                    &&& starts_with(root, cand)
                    &&& first_non_utf8(below, 0) matches Some(k)
                    &&& m@ == utf8_lossy(below[k].text)
                },
                Err(_) => false,
            }
        }),
{
    if !is_within(workspace_root, resolved) {
        let mut message = owned(path_shown);
        push_str(&mut message, " is outside workspace ");
        push_str(&mut message, root_shown);
        return Err(IngestError::OutsideWorkspace(message));
    }
    let ghost root = segment_views(workspace_root@);
    let ghost cand = segment_views(resolved@);
    let ghost below = cand.skip(root.len() as int);
    let start = workspace_root.len();
    let mut parts: Vec<Vec<char>> = Vec::new();
    let mut i: usize = start;
    while i < resolved.len()
        invariant
            start == root.len(),
            start <= i <= resolved@.len(),
            root == segment_views(workspace_root@),
            cand == segment_views(resolved@),
            below == cand.skip(start as int),
            starts_with(root, cand),
            first_non_utf8(below, 0) == first_non_utf8(below, i - start),
            parts@.map_values(|p: Vec<char>| p@) == decoded_texts(below.take(i - start)),
        decreases resolved@.len() - i,
    {
        let k = i - start;
        assert(below[k as int] == cand[i as int]);
        assert(below[k as int].text == resolved@[i as int].text@);
        assert(below.len() == resolved@.len() - start);
        match crate::ingest::normalize::utf8_str(resolved[i].text.as_slice()) {
            Some(text) => {
                let ghost before = parts@;
                let chars = crate::text::chars_of(text);
                let ghost cv = chars@;
                assert(cv == decode_utf8(below[k as int].text));
                parts.push(chars);
                proof {
                    assert(first_non_utf8(below, k as int) == first_non_utf8(below, k + 1));
                    assert(before.map_values(|p: Vec<char>| p@).len() == k);
                    assert(parts@[k as int]@ == cv);
                    assert(below.take(k + 1) =~= below.take(k as int).push(below[k as int]));
                    let now = parts@.map_values(|p: Vec<char>| p@);
                    let want = decoded_texts(below.take(k + 1));
                    assert forall|j: int| 0 <= j < k implies now[j] == want[j] by {
                        assert(now[j] == before.map_values(|p: Vec<char>| p@)[j]);
                        assert(before.map_values(|p: Vec<char>| p@)[j] == decoded_texts(
                            below.take(k as int),
                        )[j]);
                    }
                    assert(now =~= want);
                }
            },
            None => {
                assert(first_non_utf8(below, k as int) == Some(k as int));
                let lossy = lossy_text(resolved[i].text.as_slice());
                return Err(IngestError::InvalidUtf8(lossy));
            },
        }
        i = i + 1;
    }
    proof {
        assert(below.take(i - start) =~= below);
    }
    let mut text = String::new();
    let sep = ['/'];
    assert(sep@ =~= seq!['/']);
    push_joined(&mut text, &parts, &sep);
    Ok(text)
}

/// Whether a stored `local_path` is relative and never climbs: only names and
/// `.` are allowed.
pub open spec fn relative_form(parts: Seq<SegmentView>) -> bool {
    forall|i: int|
        0 <= i < parts.len() ==> (#[trigger] parts[i]).kind == SegmentKind::Name || parts[i].kind
            == SegmentKind::Current
}

/// Checks a stored `local_path` before anything is resolved: an absolute
/// value, a prefix, or any `..` is refused outright as `OutsideWorkspace`
/// naming the value. `segments` are the components the value parses into.
pub fn check_local_path(local_path: &str, segments: &[Segment]) -> (r: Result<(), IngestError>)
    ensures
        match r {
            Ok(()) => relative_form(segment_views(segments@)),
            Err(IngestError::OutsideWorkspace(m)) => !relative_form(segment_views(segments@))
                && m@ == local_path@,
            Err(_) => false,
        },
{
    let ghost v = segment_views(segments@);
    let mut i: usize = 0;
    while i < segments.len()
        invariant
            i <= segments@.len(),
            v == segment_views(segments@),
            forall|j: int|
                0 <= j < i ==> (#[trigger] v[j]).kind == SegmentKind::Name || v[j].kind
                    == SegmentKind::Current,
        decreases segments@.len() - i,
    {
        match segments[i].kind {
            SegmentKind::Name | SegmentKind::Current => {},
            _ => {
                assert(!(v[i as int].kind == SegmentKind::Name || v[i as int].kind
                    == SegmentKind::Current));
                return Err(IngestError::OutsideWorkspace(owned(local_path)));
            },
        }
        i = i + 1;
    }
    Ok(())
}

/// Law: the workspace root is within itself, and what it renders as is the
/// empty `local_path`.
pub proof fn law_root_renders_empty(root: Seq<SegmentView>)
    ensures
        starts_with(root, root),
        local_path_text(root, root) == Seq::<char>::empty(),
{
    assert(root.skip(root.len() as int) =~= Seq::<SegmentView>::empty());
    assert(decoded_texts(root.skip(root.len() as int)) =~= Seq::<Seq<char>>::empty());
}

} // verus!
