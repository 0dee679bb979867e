use momotaro::ingest::normalize::normalize_markdown;
use momotaro::ingest::IngestError;

#[test]
fn strips_leading_bom() {
    let bytes = [0xEF, 0xBB, 0xBF, b'#', b' ', b't'];
    assert_eq!(normalize_markdown(&bytes).unwrap(), "# t");
}

#[test]
fn normalizes_crlf_and_lone_cr() {
    assert_eq!(normalize_markdown(b"a\r\nb\rc\nd").unwrap(), "a\nb\nc\nd");
}

#[test]
fn plain_text_passes_through() {
    assert_eq!(
        normalize_markdown("abc\n\u{4f0d}".as_bytes()).unwrap(),
        "abc\n\u{4f0d}"
    );
}

#[test]
fn invalid_utf8_errors() {
    let bytes = [0xFF, 0xFE, 0x00];
    assert!(matches!(
        normalize_markdown(&bytes),
        Err(IngestError::InvalidUtf8(_))
    ));
}

#[test]
fn only_one_leading_bom_is_stripped() {
    let bytes = "\u{feff}\u{feff}x".as_bytes();
    assert_eq!(normalize_markdown(bytes).unwrap(), "\u{feff}x");
    assert_eq!(normalize_markdown(b"\r\r\n").unwrap(), "\n\n");
}
