use momotaro::contracts::{
    HealthReport, IndexFileError, IndexFileErrorKind, IndexPolicy, IndexReport, SchemaVersion,
    SqliteFacts, WorkspaceStatus,
};
use momotaro::run::{
    doctor_next, engine_refusal_message, format_health, format_index_error, format_index_summary,
    format_rebuild, format_search_excerpt, is_healthy, is_unprintable, sanitize, validate_policy,
    DoctorEvent, DoctorStep, RebuildReport,
};

fn facts(version: &str, number: i32, window: bool, withdrawn: bool) -> SqliteFacts {
    SqliteFacts {
        version: version.to_owned(),
        version_number: number,
        source_id: "2026-01-01 00:00:00 test".to_owned(),
        compile_options: Vec::new(),
        wal_reset_window: window,
        withdrawn_release: withdrawn,
    }
}

#[test]
fn rebuild_lines_report_what_was_replaced() {
    let plain = RebuildReport {
        chunks: 18,
        duration_ms: 42,
        replaced_stale: None,
    };
    assert_eq!(format_rebuild(&plain), "rebuilt index over 18 chunks in 42 ms");

    let rebuilt = RebuildReport {
        chunks: 18,
        duration_ms: 42,
        replaced_stale: Some("missing field `origin_class`".to_owned()),
    };
    assert_eq!(
        format_rebuild(&rebuilt),
        "rebuilt index over 18 chunks in 42 ms (discarded an unusable index: missing field `origin_class`)"
    );

    let spoiled = RebuildReport {
        chunks: 1,
        duration_ms: 1,
        replaced_stale: Some("meta.json \u{1b}[31m\u{202e}".to_owned()),
    };
    let line = format_rebuild(&spoiled);
    assert!(!line.contains('\u{1b}'), "{line:?}");
    assert!(!line.contains('\u{202e}'), "{line:?}");
}

#[test]
fn index_summary_states_the_collision_count() {
    let report = IndexReport {
        files_scanned: 3,
        files_skipped: 0,
        files_indexed: 2,
        revisions_created: 2,
        chunks_written: 2,
        errors: vec![
            IndexFileError {
                source_key: Some("note:caf\u{00e9}.md".to_owned()),
                kind: IndexFileErrorKind::KeyCollision,
                message: "claimed by both".to_owned(),
            },
            IndexFileError {
                source_key: Some("note:\u{1f}.md".to_owned()),
                kind: IndexFileErrorKind::InvalidUtf8,
                message: "not utf-8".to_owned(),
            },
        ],
        duration_ms: 7,
    };
    let line = format_index_summary(&report);
    assert!(line.contains("2 errors (1 key collisions)"), "{line}");
    assert!(line.contains("in 7 ms"), "{line}");
}

#[test]
fn index_summary_is_one_exact_line() {
    let report = IndexReport {
        files_scanned: 5,
        files_skipped: 1,
        files_indexed: 4,
        revisions_created: 3,
        chunks_written: 9,
        errors: Vec::new(),
        duration_ms: 12,
    };
    assert_eq!(
        format_index_summary(&report),
        "indexed 4 of 5 files (3 new revisions, 1 unchanged), 9 chunks, 0 errors (0 key collisions) in 12 ms"
    );
}

#[test]
fn index_error_without_a_key_renders_a_placeholder() {
    let error = IndexFileError {
        source_key: None,
        kind: IndexFileErrorKind::Other,
        message: "io failure".to_owned(),
    };
    let line = format_index_error(&error);
    assert!(line.contains("<no key>"), "{line}");
    assert!(line.contains("other"), "{line}");
}

#[test]
fn search_excerpt_strips_control_characters() {
    let line = format_search_excerpt("body\u{1b}[2J and\u{7} more");
    assert!(!line.chars().any(is_unprintable), "{line:?}");
    assert!(line.contains("body"), "{line:?}");
}

#[test]
fn search_excerpt_strips_format_characters_that_could_spoof_the_line() {
    let line = format_search_excerpt("safe\u{202e}evil\u{200b}hidden");
    assert!(!line.chars().any(is_unprintable), "{line:?}");
    assert!(line.contains("safe"), "{line:?}");
}

#[test]
fn search_excerpt_is_cut_to_a_hundred_characters() {
    let long = "x".repeat(150);
    let line = format_search_excerpt(&long);
    assert_eq!(line, format!("{}...", "x".repeat(100)));
    assert_eq!(format_search_excerpt("a\nb"), "a b");
}

#[test]
fn index_error_lines_sanitize_the_message_too() {
    let error = IndexFileError {
        source_key: Some("note:a.md".to_owned()),
        kind: IndexFileErrorKind::Other,
        message: "io\u{1b}[2J failure".to_owned(),
    };
    let line = format_index_error(&error);
    assert!(!line.chars().any(is_unprintable), "{line:?}");
    assert!(line.contains("io[2J failure"), "{line:?}");
}

#[test]
fn index_error_lines_escape_the_key() {
    let error = IndexFileError {
        source_key: Some("note:caf\u{00e9}\u{1b}[2J.md".to_owned()),
        kind: IndexFileErrorKind::KeyCollision,
        message: format!("claimed by both {0:?} and {1:?}", "cafe\u{0301}.md", "caf\u{00e9}.md"),
    };
    let line = format_index_error(&error);
    assert!(!line.contains('\u{1b}'), "raw control character: {line}");
    assert!(line.contains(r"\u{1b}"), "escaped form expected: {line}");
    assert!(line.contains("key_collision"), "typed kind must be shown: {line}");
    assert!(line.contains(r#"cafe\u{301}.md"#), "both spellings stay distinguishable: {line}");
}

#[test]
fn an_unhealthy_report_is_not_rendered_as_ready() {
    let report = HealthReport {
        status: WorkspaceStatus::Invalid,
        schema_version: None,
        sqlite: None,
        message: Some("vault /x is outside workspace /y".to_owned()),
    };
    let line = format_health(&report);
    assert!(line.contains("Invalid"), "{line}");
    assert!(line.contains("outside workspace"), "{line}");
    assert!(!line.contains("is ready"), "{line}");

    let ready = HealthReport {
        status: WorkspaceStatus::Ready,
        schema_version: Some(SchemaVersion(3)),
        sqlite: None,
        message: None,
    };
    assert_eq!(format_health(&ready), "workspace is ready");
}

#[test]
fn health_lines_name_the_engine() {
    let report = HealthReport {
        status: WorkspaceStatus::Uninitialized,
        schema_version: None,
        sqlite: Some(facts("3.53.2", 3_053_002, false, false)),
        message: None,
    };
    assert_eq!(format_health(&report), "workspace Uninitialized (SQLite 3.53.2)");
    assert!(!is_healthy(&report));
}

#[test]
fn a_withdrawn_release_is_refused_with_its_own_reason() {
    let withdrawn = facts("3.52.0", 3_052_000, false, true);
    let message = engine_refusal_message(&withdrawn).expect("a withdrawn release is refused");
    assert!(message.contains("withdrawn"), "{message}");
    assert!(message.contains("3.52.0"), "{message}");
    assert!(message.contains("3.51.3"), "the way out is named: {message}");

    let fixed = SqliteFacts {
        withdrawn_release: false,
        ..withdrawn
    };
    assert!(engine_refusal_message(&fixed).is_none());
}

#[test]
fn an_engine_inside_the_wal_reset_window_is_refused_first() {
    let in_window = facts("3.50.2", 3_050_002, true, false);
    match doctor_next(&in_window, DoctorEvent::Start) {
        DoctorStep::Finish(report) => {
            assert_eq!(report.status, WorkspaceStatus::Invalid);
            assert!(!is_healthy(&report));
            let message = report.message.expect("a refusal says why");
            assert!(message.contains("3.50.2"), "{message}");
            assert!(message.contains("3.51.3"), "{message}");
            assert!(!message.contains("3.52"), "{message}");
            assert_eq!(report.sqlite.map(|f| f.version), Some("3.50.2".to_owned()));
        }
        other => panic!("expected a finished report, got {other:?}"),
    }
}

#[test]
fn doctor_walks_to_ready_only_through_a_usable_index() {
    let engine = facts("3.53.2", 3_053_002, false, false);
    assert_eq!(doctor_next(&engine, DoctorEvent::Start), DoctorStep::LoadConfig);
    assert_eq!(doctor_next(&engine, DoctorEvent::ConfigLoaded), DoctorStep::ResolveVault);
    assert_eq!(doctor_next(&engine, DoctorEvent::VaultResolved), DoctorStep::CheckVaultDir);
    assert_eq!(doctor_next(&engine, DoctorEvent::VaultDirPresent), DoctorStep::CheckDatabase);
    assert_eq!(doctor_next(&engine, DoctorEvent::DatabasePresent), DoctorStep::ReadStoreHealth);
    let ready = HealthReport {
        status: WorkspaceStatus::Ready,
        schema_version: Some(SchemaVersion(3)),
        sqlite: None,
        message: None,
    };
    assert_eq!(
        doctor_next(&engine, DoctorEvent::StoreHealth(ready.clone())),
        DoctorStep::CheckIndex(ready.clone())
    );
    match doctor_next(&engine, DoctorEvent::IndexChecked(ready.clone(), None)) {
        DoctorStep::Finish(report) => {
            assert!(is_healthy(&report));
            assert_eq!(report.sqlite.map(|f| f.version), Some("3.53.2".to_owned()));
        }
        other => panic!("{other:?}"),
    }
    match doctor_next(
        &engine,
        DoctorEvent::IndexChecked(ready, Some("index directory holds no index".to_owned())),
    ) {
        DoctorStep::Finish(report) => {
            assert_eq!(report.status, WorkspaceStatus::Invalid);
            assert_eq!(report.schema_version, Some(SchemaVersion(3)));
            assert_eq!(report.message.as_deref(), Some("index directory holds no index"));
        }
        other => panic!("{other:?}"),
    }
}

#[test]
fn doctor_reports_a_missing_configuration_and_database() {
    let engine = facts("3.53.2", 3_053_002, false, false);
    match doctor_next(&engine, DoctorEvent::ConfigMissing("/w/momotaro.toml".to_owned())) {
        DoctorStep::Finish(report) => {
            assert_eq!(report.status, WorkspaceStatus::Invalid);
            assert_eq!(
                report.message.as_deref(),
                Some("configuration file is missing: /w/momotaro.toml")
            );
        }
        other => panic!("{other:?}"),
    }
    match doctor_next(&engine, DoctorEvent::DatabaseMissing("/w/.momotaro/momotaro.db".to_owned())) {
        DoctorStep::Finish(report) => {
            assert_eq!(report.status, WorkspaceStatus::Uninitialized);
            assert!(report.sqlite.is_some());
            assert_eq!(
                report.message.as_deref(),
                Some("database is not initialized: /w/.momotaro/momotaro.db")
            );
        }
        other => panic!("{other:?}"),
    }
}

#[test]
fn sanitize_turns_line_breaks_into_spaces_and_drops_controls() {
    assert_eq!(sanitize("a\nb\u{7}c\u{feff}d"), "a bcd");
}

#[test]
fn validate_policy_accepts_the_defaults_and_rejects_the_rest() {
    assert!(validate_policy(&IndexPolicy::default()).is_ok());
    let lexical = IndexPolicy {
        lexical: "bm25".to_owned(),
        ..IndexPolicy::default()
    };
    let message = validate_policy(&lexical).expect_err("unknown lexical");
    assert!(message.contains("tantivy_bm25"), "{message}");
    let hybrid = IndexPolicy {
        hybrid: true,
        ..IndexPolicy::default()
    };
    assert!(validate_policy(&hybrid).is_err());
    let tokenizer = IndexPolicy {
        cjk_tokenizer: "jieba".to_owned(),
        ..IndexPolicy::default()
    };
    assert!(validate_policy(&tokenizer).is_err());
    let overlap = IndexPolicy {
        max_chunk_tokens: 100,
        chunk_overlap_tokens: 51,
        ..IndexPolicy::default()
    };
    assert!(validate_policy(&overlap).is_err());
    let exactly_half = IndexPolicy {
        max_chunk_tokens: 100,
        chunk_overlap_tokens: 50,
        ..IndexPolicy::default()
    };
    assert!(validate_policy(&exactly_half).is_ok());
}

#[test]
fn validate_policy_rejects_unknown_lexical() {
    let policy = IndexPolicy { lexical: "lunr".to_owned(), ..IndexPolicy::default() };
    assert!(validate_policy(&policy).is_err());
}

#[test]
fn validate_policy_rejects_hybrid() {
    let policy = IndexPolicy { hybrid: true, ..IndexPolicy::default() };
    assert_eq!(
        validate_policy(&policy),
        Err("index.hybrid must be false until a dense baseline exists".to_owned())
    );
}

#[test]
fn validate_policy_rejects_unknown_tokenizer() {
    let policy = IndexPolicy { cjk_tokenizer: "jieba".to_owned(), ..IndexPolicy::default() };
    assert_eq!(
        validate_policy(&policy),
        Err("index.cjk_tokenizer \"jieba\" is not supported; only \"cjk\"".to_owned())
    );
}

#[test]
fn validate_policy_rejects_overlap_at_or_above_half_budget() {
    let with = |max: u32, overlap: u32| IndexPolicy {
        max_chunk_tokens: max,
        chunk_overlap_tokens: overlap,
        ..IndexPolicy::default()
    };
    assert!(validate_policy(&with(128, 64)).is_ok());
    assert_eq!(
        validate_policy(&with(100, 64)),
        Err("index.max_chunk_tokens (100) must be at least twice index.chunk_overlap_tokens (64)".to_owned())
    );
    assert!(validate_policy(&with(129, 64)).is_ok());
}

#[test]
fn error_lines_escape_the_terminal() {
    let line = sanitize("no origin class for source a\u{1b}[31m\u{202e}b.md; rebuild the index");
    assert!(!line.contains('\u{1b}'), "{line:?}");
    assert!(!line.contains('\u{202e}'), "{line:?}");
    assert!(line.contains("a[31mb.md"), "still readable: {line:?}");
}

#[test]
fn sanitizing_twice_changes_nothing() {
    for raw in ["a\nb\u{7}c\u{feff}d", "safe\u{202e}evil\u{200b}hidden", "plain"] {
        let once = sanitize(raw);
        assert_eq!(sanitize(&once), once);
    }
}
