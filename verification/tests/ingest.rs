use momotaro::ingest::walk::is_hidden;
use momotaro::ingest::walk::is_markdown_extension;
use momotaro::contracts::IndexFileErrorKind;
use momotaro::ingest::path::{Segment, SegmentKind};
use momotaro::ingest::walk::{raw_name_for, relative_name, source_key_for};
use momotaro::ingest::IngestError;

#[test]
fn every_failure_maps_onto_a_typed_kind() {
    assert_eq!(
        IngestError::InvalidUtf8("x".to_owned()).kind(),
        IndexFileErrorKind::InvalidUtf8
    );
    assert_eq!(
        IngestError::OutsideVault("x".to_owned()).kind(),
        IndexFileErrorKind::OutsideVault
    );
    assert_eq!(
        IngestError::InvalidSourceKey("x".to_owned()).kind(),
        IndexFileErrorKind::InvalidSourceKey
    );
    assert_eq!(
        IngestError::VaultMissing("x".to_owned()).kind(),
        IndexFileErrorKind::Other
    );
    assert_eq!(
        IngestError::Io(std::io::Error::other("x")).kind(),
        IndexFileErrorKind::Other
    );
}

fn seg(kind: SegmentKind, text: &[u8]) -> Segment {
    Segment { kind, text: text.to_vec() }
}

fn name(text: &str) -> Segment {
    seg(SegmentKind::Name, text.as_bytes())
}

fn vault() -> Vec<Segment> {
    vec![seg(SegmentKind::Root, b"/"), name("v")]
}

#[test]
fn relative_names_join_components_with_slashes() {
    let parts = vec![name("Notes"), seg(SegmentKind::Current, b"."), name("A.md")];
    assert_eq!(relative_name(&parts, "p").unwrap(), "Notes/A.md");
}

#[test]
fn relative_names_refuse_what_is_not_a_name() {
    let root = seg(SegmentKind::Root, b"/");
    let bad = seg(SegmentKind::Name, b"caf\xff.md");
    match relative_name(&[root.clone(), bad.clone()], "p") {
        Err(IngestError::OutsideVault(m)) => assert_eq!(m, "p"),
        other => panic!("{other:?}"),
    }
    match relative_name(&[bad, root], "p") {
        Err(IngestError::InvalidUtf8(m)) => assert_eq!(m, "p"),
        other => panic!("{other:?}"),
    }
    assert!(matches!(
        relative_name(&[seg(SegmentKind::Current, b".")], "p"),
        Err(IngestError::OutsideVault(_))
    ));
}

#[test]
fn source_keys_come_from_the_path_below_the_vault() {
    let mut file = vault();
    file.extend([name("a"), name("inner.MD")]);
    assert_eq!(raw_name_for(&vault(), &file, "f", "r").unwrap(), "a/inner.MD");
    assert_eq!(source_key_for(&vault(), &file, "f", "r").unwrap(), "note:a/inner.MD");
    let mut nfd = vault();
    nfd.push(name("cafe\u{301}.md"));
    assert_eq!(raw_name_for(&vault(), &nfd, "f", "r").unwrap(), "cafe\u{301}.md");
    assert_eq!(source_key_for(&vault(), &nfd, "f", "r").unwrap(), "note:caf\u{e9}.md");
}

#[test]
fn a_file_outside_the_vault_is_refused() {
    let other = vec![seg(SegmentKind::Root, b"/"), name("w"), name("a.md")];
    match raw_name_for(&vault(), &other, "\"/w/a.md\"", "\"/v\"") {
        Err(IngestError::OutsideVault(m)) => assert_eq!(m, "\"/w/a.md\" is outside vault root \"/v\""),
        other => panic!("{other:?}"),
    }
    // The vault root itself names no file.
    assert!(matches!(raw_name_for(&vault(), &vault(), "p", "r"), Err(IngestError::OutsideVault(_))));
}

#[test]
fn source_key_rejects_non_normal_path_components() {
    // An empty root is a vacuous prefix: the root component is not a name.
    let etc = vec![seg(SegmentKind::Root, b"/"), name("etc"), name("passwd")];
    assert!(matches!(source_key_for(&[], &etc, "p", "r"), Err(IngestError::OutsideVault(_))));
    let mut climbing = vault();
    climbing.extend([seg(SegmentKind::Parent, b".."), name("x.md")]);
    assert!(matches!(
        source_key_for(&vault(), &climbing, "p", "r"),
        Err(IngestError::OutsideVault(_))
    ));
    let mut nul = vault();
    nul.push(name("a\0b.md"));
    match source_key_for(&vault(), &nul, "p", "r") {
        Err(IngestError::InvalidSourceKey(m)) => {
            assert_eq!(m, "p: source key tail contains a NUL byte")
        }
        other => panic!("{other:?}"),
    }
}

#[test]
fn source_key_rejects_a_name_that_is_not_utf8() {
    let mut bad = vault();
    bad.push(seg(SegmentKind::Name, b"bad\xff.md"));
    assert!(matches!(source_key_for(&vault(), &bad, "p", "r"), Err(IngestError::InvalidUtf8(_))));
}

#[test]
fn hidden_entries_start_with_a_dot_but_are_not_the_dot() {
    assert!(is_hidden(Some(".git")));
    assert!(is_hidden(Some(".obsidian")));
    assert!(!is_hidden(Some(".")));
    assert!(!is_hidden(Some("notes")));
    assert!(!is_hidden(None));
}

#[test]
fn markdown_is_recognized_by_extension_ignoring_case() {
    assert!(is_markdown_extension(Some("md")));
    assert!(is_markdown_extension(Some("MD")));
    assert!(is_markdown_extension(Some("Md")));
    assert!(!is_markdown_extension(Some("txt")));
    assert!(!is_markdown_extension(Some("mdx")));
    assert!(!is_markdown_extension(None));
}

#[test]
fn every_failure_has_its_sentence() {
    assert_eq!(IngestError::InvalidUtf8("a".to_owned()).describe(), "invalid utf-8 in a");
    assert_eq!(IngestError::OutsideVault("\"/x\"".to_owned()).describe(), "path \"/x\" is outside vault root");
    assert_eq!(IngestError::OutsideWorkspace("p".to_owned()).describe(), "path p is outside the workspace");
    assert_eq!(IngestError::InvalidSourceKey("k".to_owned()).describe(), "invalid source key for k");
    assert_eq!(IngestError::VaultMissing("/v".to_owned()).describe(), "vault root not found: /v");
    let io = IngestError::Io(std::io::Error::other("disk gone"));
    assert_eq!(io.describe(), "io error: disk gone");
}
