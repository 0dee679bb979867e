use momotaro::ingest::path::{check_local_path, is_within, local_path_in, Segment, SegmentKind};
use momotaro::ingest::IngestError;

fn name(s: &[u8]) -> Segment {
    Segment { kind: SegmentKind::Name, text: s.to_vec() }
}

fn root() -> Segment {
    Segment { kind: SegmentKind::Root, text: b"/".to_vec() }
}

fn ws() -> Vec<Segment> {
    vec![root(), name(b"tmp"), name(b"ws")]
}

#[test]
fn local_path_is_workspace_relative() {
    let file = vec![root(), name(b"tmp"), name(b"ws"), name(b"notes"), name(b"a.md")];
    assert_eq!(local_path_in(&ws(), &file, "\"/tmp/ws/notes/a.md\"", "\"/tmp/ws\"").unwrap(), "notes/a.md");
}

#[test]
fn local_path_for_the_workspace_root_itself_is_empty() {
    assert_eq!(local_path_in(&ws(), &ws(), "\"/tmp/ws\"", "\"/tmp/ws\"").unwrap(), "");
}

#[test]
fn file_outside_the_workspace_is_rejected() {
    let other = vec![root(), name(b"tmp"), name(b"other"), name(b"a.md")];
    match local_path_in(&ws(), &other, "\"/tmp/other/a.md\"", "\"/tmp/ws\"") {
        Err(IngestError::OutsideWorkspace(m)) => {
            assert_eq!(m, "\"/tmp/other/a.md\" is outside workspace \"/tmp/ws\"")
        }
        other => panic!("{other:?}"),
    }
    // A lexical prefix is not a component prefix.
    let sibling = vec![root(), name(b"tmp"), name(b"wsx"), name(b"a.md")];
    assert!(!is_within(&ws(), &sibling));
}

#[test]
fn a_name_that_is_not_utf8_is_refused_not_folded() {
    let file = vec![root(), name(b"tmp"), name(b"ws"), name(b"caf\xff.md")];
    match local_path_in(&ws(), &file, "p", "r") {
        Err(IngestError::InvalidUtf8(m)) => assert_eq!(m, "caf\u{fffd}.md"),
        other => panic!("{other:?}"),
    }
}

#[test]
fn the_workspace_root_itself_is_within_the_workspace() {
    assert!(is_within(&ws(), &ws()));
}

#[test]
fn nothing_outside_the_workspace_is_within_it() {
    let other = vec![root(), name(b"tmp"), name(b"other")];
    assert!(!is_within(&ws(), &other));
    assert!(!is_within(&ws(), &[root(), name(b"tmp")]));
}

#[test]
fn resolve_rejects_absolute_and_parent_dir_values() {
    let parent = Segment { kind: SegmentKind::Parent, text: b"..".to_vec() };
    for (value, parts) in [
        ("/etc/passwd", vec![root(), name(b"etc"), name(b"passwd")]),
        ("..", vec![parent.clone()]),
        ("a/../../b.md", vec![name(b"a"), parent.clone(), parent.clone(), name(b"b.md")]),
    ] {
        match check_local_path(value, &parts) {
            Err(IngestError::OutsideWorkspace(m)) => assert_eq!(m, value),
            other => panic!("{value} must be rejected: {other:?}"),
        }
    }
}

#[test]
fn resolve_accepts_well_formed_relative_values() {
    let current = Segment { kind: SegmentKind::Current, text: b".".to_vec() };
    assert!(check_local_path("notes/a.md", &[name(b"notes"), name(b"a.md")]).is_ok());
    assert!(check_local_path("./a.md", &[current, name(b"a.md")]).is_ok());
    assert!(check_local_path("", &[]).is_ok());
}

#[test]
fn resolve_accepts_the_workspace_root_as_the_empty_value() {
    // The root renders empty, and the empty value resolves back to it.
    assert_eq!(local_path_in(&ws(), &ws(), "r", "r").unwrap(), "");
    assert!(check_local_path("", &[]).is_ok());
    assert!(is_within(&ws(), &ws()));
}
