use momotaro::contracts::{
    estimate_tokens, is_wal_reset_window, is_withdrawn_release, note_source_key, IndexFileErrorKind,
    IndexPolicy, OriginClass, SourceKeyError, SourceKind,
};

#[test]
fn estimate_tokens_counts_cjk_per_char() {
    assert_eq!(estimate_tokens("傅里叶变换"), 5);
    assert_eq!(estimate_tokens(""), 0);
    assert_eq!(estimate_tokens("。、"), 2);
}

#[test]
fn estimate_tokens_counts_latin_per_four_chars() {
    assert_eq!(estimate_tokens("abcd"), 1);
    assert_eq!(estimate_tokens("abcde"), 2);
    assert_eq!(estimate_tokens("hello world"), 3);
}

#[test]
fn estimate_tokens_handles_mixed_text() {
    // 3 CJK chars (3) + " bert" (5 latin chars -> 2) = 5.
    assert_eq!(estimate_tokens("谱定理 bert"), 5);
}

#[test]
fn wal_reset_window_boundaries() {
    assert!(!is_wal_reset_window(3_006_999));
    assert!(is_wal_reset_window(3_007_000));
    assert!(is_wal_reset_window(3_050_002));
    assert!(is_wal_reset_window(3_051_002), "3.51.2 is the last affected");
    assert!(!is_wal_reset_window(3_044_006));
    assert!(!is_wal_reset_window(3_050_007));
    assert!(
        !is_wal_reset_window(3_051_003),
        "3.51.3 is the first fixed release upstream names"
    );
    assert!(
        !is_wal_reset_window(3_052_000),
        "3.52.x is withdrawn, not inside the window"
    );
    assert!(!is_wal_reset_window(3_053_000));
    assert!(!is_wal_reset_window(3_053_002));
}

#[test]
fn the_withdrawn_3_52_series_is_refused_on_its_own_terms() {
    assert!(is_withdrawn_release(3_052_000));
    assert!(is_withdrawn_release(3_052_099));
    assert!(!is_withdrawn_release(3_051_003));
    assert!(!is_withdrawn_release(3_053_000));
    assert!(!is_withdrawn_release(3_053_002));
}

#[test]
fn index_policy_has_documented_default() {
    let policy = IndexPolicy::default();
    assert_eq!(policy.lexical, "tantivy_bm25");
    assert!(!policy.hybrid);
    assert_eq!(policy.cjk_tokenizer, "cjk");
    assert_eq!(policy.max_chunk_tokens, 512);
    assert_eq!(policy.chunk_overlap_tokens, 64);
}

#[test]
fn note_key_is_scheme_prefixed() {
    assert_eq!(
        note_source_key("ml/fourier.md").expect("valid tail"),
        "note:ml/fourier.md"
    );
}

#[test]
fn note_key_preserves_case_verbatim() {
    assert_eq!(note_source_key("A.md").unwrap(), "note:A.md");
    assert_ne!(
        note_source_key("A.md").unwrap(),
        note_source_key("a.md").unwrap(),
        "the key layer must never fold case"
    );
}

#[test]
fn note_key_is_nfc_normalized() {
    assert_eq!(
        note_source_key("cafe\u{0301}.md").unwrap(),
        note_source_key("caf\u{00e9}.md").unwrap()
    );
    assert_eq!(
        note_source_key("caf\u{00e9}.md").unwrap(),
        "note:caf\u{00e9}.md"
    );
}

#[test]
fn note_key_rejects_empty_and_parent_dir() {
    assert!(matches!(note_source_key(""), Err(SourceKeyError::Empty)));
    assert!(matches!(note_source_key("./"), Err(SourceKeyError::Empty)));
    assert!(matches!(
        note_source_key("ml/../secret.md"),
        Err(SourceKeyError::ParentDir)
    ));
}

#[test]
fn note_key_rejects_absolute_forms() {
    for bad in [
        "/etc/passwd",
        r"C:\ws\a.md",
        "C:/ws/a.md",
        r"\\server\share\a.md",
    ] {
        assert!(
            matches!(note_source_key(bad), Err(SourceKeyError::Absolute(_))),
            "{bad:?} must be rejected as an absolute form"
        );
    }
}

#[test]
fn note_key_rejects_nul() {
    assert!(matches!(
        note_source_key("a\0b.md"),
        Err(SourceKeyError::Nul)
    ));
}

#[test]
fn note_key_drops_dot_components() {
    assert_eq!(note_source_key("./a/./b.md").unwrap(), "note:a/b.md");
}

#[test]
fn note_key_rejects_parent_dir_in_every_position() {
    for bad in ["..", "../x.md", "a/..", "a/../b.md", "a/b/../.."] {
        assert!(
            matches!(note_source_key(bad), Err(SourceKeyError::ParentDir)),
            "{bad:?} must be rejected"
        );
    }
}

#[test]
fn note_key_keeps_backslashes_verbatim() {
    assert_eq!(note_source_key(r"a\b.md").unwrap(), r"note:a\b.md");
}

#[test]
fn note_key_keeps_backslash_names_distinct_from_nested_paths() {
    assert_ne!(
        note_source_key(r"docs\ml\a.md").unwrap(),
        note_source_key("docs/ml/a.md").unwrap(),
        "one file named `docs\\ml\\a.md` is not the nested path docs/ml/a.md"
    );
}

#[test]
fn note_key_keeps_leading_backslash_name_verbatim() {
    assert_eq!(
        note_source_key(r"\etc\passwd").unwrap(),
        r"note:\etc\passwd"
    );
}

#[test]
fn note_key_keeps_windows_relative_colon_forms_verbatim() {
    assert_eq!(note_source_key("C:a.md").unwrap(), "note:C:a.md");
}

#[test]
fn note_key_rejects_lowercase_drive_absolute_forms() {
    assert!(matches!(
        note_source_key("c:/ws/a.md"),
        Err(SourceKeyError::Absolute(_))
    ));
    assert!(matches!(
        note_source_key(r"c:\ws\a.md"),
        Err(SourceKeyError::Absolute(_))
    ));
}

#[test]
fn note_key_collapses_redundant_separators() {
    assert_eq!(note_source_key("a//b.md").unwrap(), "note:a/b.md");
    assert_eq!(note_source_key("a.md/").unwrap(), "note:a.md");
    assert_eq!(note_source_key("a.md").unwrap(), "note:a.md");
}

#[test]
fn note_key_keeps_windows_illegal_characters_verbatim() {
    assert_eq!(note_source_key("a:b.md").unwrap(), "note:a:b.md");
}

// --- beyond the original's cases ---

#[test]
fn the_spelling_round_trips_through_parse() {
    for class in [
        OriginClass::Owner,
        OriginClass::Paper,
        OriginClass::Web,
        OriginClass::Agent,
        OriginClass::System,
    ] {
        assert_eq!(class.as_str().parse::<OriginClass>(), Ok(class));
    }
    assert!("nope".parse::<OriginClass>().is_err());
    assert_eq!(OriginClass::Owner.as_str(), "owner");
}

#[test]
fn the_kind_spelling_round_trips_through_parse() {
    for kind in [SourceKind::Note, SourceKind::Paper, SourceKind::Web] {
        assert_eq!(kind.as_str().parse::<SourceKind>(), Ok(kind));
    }
    assert!("nope".parse::<SourceKind>().is_err());
    assert_eq!(SourceKind::Paper.as_str(), "paper");
}

#[test]
fn index_error_kinds_have_snake_case_spellings() {
    assert_eq!(IndexFileErrorKind::KeyCollision.as_str(), "key_collision");
    assert_eq!(IndexFileErrorKind::InvalidUtf8.as_str(), "invalid_utf8");
    assert_eq!(IndexFileErrorKind::OutsideVault.as_str(), "outside_vault");
    assert_eq!(IndexFileErrorKind::InvalidSourceKey.as_str(), "invalid_source_key");
    assert_eq!(IndexFileErrorKind::Other.as_str(), "other");
}

#[test]
fn key_errors_describe_themselves() {
    assert_eq!(SourceKeyError::Empty.describe(), "source key tail is empty");
    assert_eq!(
        SourceKeyError::Absolute("/x".to_owned()).describe(),
        "source key tail must be vault-relative, got an absolute form: \"/x\""
    );
    assert_eq!(SourceKeyError::Nul.describe(), "source key tail contains a NUL byte");
}

#[test]
fn windows_and_refusal_windows_never_overlap() {
    for v in [3_051_002, 3_052_000, 3_052_500, 3_044_006, 3_007_000] {
        assert!(!(is_wal_reset_window(v) && is_withdrawn_release(v)));
    }
}

#[test]
fn a_key_tail_gives_the_same_key_back() {
    for raw in ["./Notes//A.md", "Notes/./sub/B.md", "a.md", "caf\u{00e9}.md", "cafe\u{0301}.md"] {
        let key = note_source_key(raw).unwrap();
        let tail = &key["note:".len()..];
        assert_eq!(note_source_key(tail), Ok(key.clone()));
    }
}

#[test]
fn a_cleaned_tail_that_looks_absolute_is_refused_on_the_way_back() {
    let key = note_source_key("./C:/a.md").unwrap();
    assert_eq!(key, "note:C:/a.md");
    assert!(matches!(
        note_source_key(&key["note:".len()..]),
        Err(SourceKeyError::Absolute(_))
    ));
}

#[test]
fn a_tail_that_nfc_turns_into_a_drive_letter_is_refused_on_the_way_back() {
    let key = note_source_key("\u{212A}:/a.md").unwrap();
    assert_eq!(key, "note:K:/a.md");
    assert!(matches!(
        note_source_key(&key["note:".len()..]),
        Err(SourceKeyError::Absolute(_))
    ));
}

#[test]
fn every_class_is_either_retrievable_or_deliberately_excluded() {
    for class in [OriginClass::Owner, OriginClass::Paper, OriginClass::Web] {
        assert!(class.is_retrievable(), "{class:?} must be retrievable");
    }
    for class in [OriginClass::Agent, OriginClass::System] {
        assert!(!class.is_retrievable(), "{class:?} must never be evidence");
    }
}
