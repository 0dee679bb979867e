use momotaro::run::index_service::can_tally;
use momotaro::contracts::{
    HealthReport, IndexFileError, IndexFileErrorKind, OriginClass, SchemaVersion, SourceKind,
    SourceRevision, WorkspaceStatus,
};
use momotaro::run::index_service::{
    citation_refusal, discard_next, excerpt_of, fingerprint_json, fingerprint_matches, index_fault,
    index_unusable_message, refresh_only, search_refusal, skip_unchanged, start_report,
    store_chunk_count, store_fault, tally, DiscardStep, FileOutcome, KeyClaims, RemoveOutcome,
    SearchRefusal, StoreFile,
};

fn revision(metadata_json: &str, local_path: Option<&str>, raw_name: Option<&str>) -> SourceRevision {
    SourceRevision {
        source_key: "note:a.md".to_owned(),
        revision_hash: "rh1".to_owned(),
        kind: SourceKind::Note,
        title: Some("A".to_owned()),
        uri: None,
        local_path: local_path.map(str::to_owned),
        raw_name: raw_name.map(str::to_owned),
        origin_class: OriginClass::Owner,
        metadata_json: metadata_json.to_owned(),
        ingested_at: 0,
        is_current: true,
    }
}

#[test]
fn excerpt_keeps_short_text_and_cuts_long_text() {
    assert_eq!(excerpt_of("short"), "short");
    let exact = "字".repeat(200);
    assert_eq!(excerpt_of(&exact), exact);
    let long = "字".repeat(201);
    assert_eq!(excerpt_of(&long), format!("{}\u{2026}", "字".repeat(200)));
}

#[test]
fn unusable_index_messages_name_the_rebuild_command() {
    assert_eq!(
        index_unusable_message(Some("index directory holds no index".to_owned())).as_deref(),
        Some("index directory holds no index; run `momotaro rebuild-index` to rebuild it")
    );
    assert_eq!(index_unusable_message(None), None);
}

#[test]
fn a_missing_index_is_a_fault_only_when_the_store_holds_chunks() {
    assert_eq!(
        index_fault(false, false, Some(12), None).as_deref(),
        Some("the index is missing while the store holds 12 chunks")
    );
    assert_eq!(index_fault(false, false, Some(0), None), None);
    assert_eq!(index_fault(false, false, None, None), None);
    assert_eq!(
        index_fault(true, false, Some(1), None).as_deref(),
        Some("index directory holds no index")
    );
    assert_eq!(index_fault(true, false, Some(0), None), None);
    assert_eq!(
        index_fault(true, true, Some(5), Some("schema mismatch".to_owned())).as_deref(),
        Some("schema mismatch")
    );
    assert_eq!(index_fault(true, true, Some(5), None), None);
}

#[test]
fn store_faults_are_decided_without_opening_an_empty_file() {
    assert_eq!(StoreFile::from_len(None), StoreFile::Absent);
    assert_eq!(StoreFile::from_len(Some(0)), StoreFile::Empty);
    assert_eq!(StoreFile::from_len(Some(4096)), StoreFile::Present);
    assert_eq!(store_fault(StoreFile::Absent, None), None);
    assert_eq!(
        store_fault(StoreFile::Empty, None).as_deref(),
        Some("database has not been initialized")
    );
    let old = HealthReport {
        status: WorkspaceStatus::Invalid,
        schema_version: Some(SchemaVersion(2)),
        sqlite: None,
        message: Some("database schema version 2 requires migrations".to_owned()),
    };
    assert_eq!(
        store_fault(StoreFile::Present, Some(old)).as_deref(),
        Some("database schema version 2 requires migrations")
    );
    let silent = HealthReport {
        status: WorkspaceStatus::Uninitialized,
        schema_version: None,
        sqlite: None,
        message: None,
    };
    assert_eq!(store_fault(StoreFile::Present, Some(silent)).as_deref(), Some("Uninitialized"));
    let ready = HealthReport {
        status: WorkspaceStatus::Ready,
        schema_version: Some(SchemaVersion(3)),
        sqlite: None,
        message: None,
    };
    assert_eq!(store_fault(StoreFile::Present, Some(ready)), None);
}

#[test]
fn chunk_counts_come_only_from_a_ready_store() {
    assert_eq!(store_chunk_count(StoreFile::Present, Some(WorkspaceStatus::Ready), Some(4)), Some(4));
    assert_eq!(store_chunk_count(StoreFile::Present, Some(WorkspaceStatus::Invalid), Some(4)), None);
    assert_eq!(store_chunk_count(StoreFile::Empty, Some(WorkspaceStatus::Ready), Some(4)), None);
}

#[test]
fn a_draining_handle_is_waited_out() {
    assert_eq!(discard_next(0, RemoveOutcome::PermissionDenied), DiscardStep::Retry(1));
    assert_eq!(discard_next(1, RemoveOutcome::DirectoryNotEmpty), DiscardStep::Retry(2));
    assert_eq!(discard_next(2, RemoveOutcome::Removed), DiscardStep::Done);
}

#[test]
fn a_missing_directory_is_the_desired_state() {
    assert_eq!(discard_next(0, RemoveOutcome::NotFound), DiscardStep::Done);
}

#[test]
fn errors_that_waiting_cannot_fix_are_reported_at_once() {
    assert_eq!(discard_next(0, RemoveOutcome::Failed), DiscardStep::GiveUp);
}

#[test]
fn the_retry_budget_is_bounded() {
    // Replaying a refusal that never clears: exactly fifty attempts.
    let mut failed = 0u32;
    let mut calls = 0u32;
    loop {
        calls += 1;
        match discard_next(failed, RemoveOutcome::PermissionDenied) {
            DiscardStep::Retry(n) => failed = n,
            DiscardStep::GiveUp => break,
            DiscardStep::Done => panic!("a refusal never succeeds"),
        }
    }
    assert_eq!(calls, 50);
}

#[test]
fn colliding_keys_are_reported_and_never_overwritten() {
    let mut claims = KeyClaims::new();
    assert_eq!(claims.claim("note:caf\u{e9}.md", "caf\u{e9}.md"), None);
    let refused = claims
        .claim("note:caf\u{e9}.md", "cafe\u{301}.md")
        .expect("the second claimant is refused");
    assert_eq!(refused.kind, IndexFileErrorKind::KeyCollision);
    assert_eq!(refused.source_key.as_deref(), Some("note:caf\u{e9}.md"));
    assert_eq!(
        refused.message,
        format!("claimed by both {:?} and {:?}", "caf\u{e9}.md", "cafe\u{301}.md")
    );
    // The first claimant still stands for a third try.
    let again = claims.claim("note:caf\u{e9}.md", "other.md").expect("still refused");
    assert!(again.message.starts_with("claimed by both \"caf\u{e9}.md\""));
    assert_eq!(claims.claim("note:b.md", "b.md"), None);
}

#[test]
fn every_run_keeps_the_first_file_of_the_walk() {
    let walk = [
        ("note:caf\u{e9}.md", "cafe\u{301}.md"),
        ("note:b.md", "b.md"),
        ("note:caf\u{e9}.md", "caf\u{e9}.md"),
    ];
    for _run in 0..2 {
        let mut claims = KeyClaims::new();
        let outcomes: Vec<Option<String>> = walk
            .iter()
            .map(|(key, raw)| claims.claim(key, raw).map(|e| e.message))
            .collect();
        assert_eq!(outcomes[0], None);
        assert_eq!(outcomes[1], None);
        assert_eq!(
            outcomes[2],
            Some(format!("claimed by both {:?} and {:?}", "cafe\u{301}.md", "caf\u{e9}.md"))
        );
    }
}

#[test]
fn fingerprints_round_trip_through_json() {
    let json = fingerprint_json(1_700_000_000_123, 42);
    assert_eq!(
        json,
        "{\"mtime_ms\":1700000000123,\"size_bytes\":42,\"tool\":\"momotaro-index-v1\"}"
    );
    assert!(fingerprint_matches(&json, 1_700_000_000_123, 42));
    assert!(!fingerprint_matches(&json, 1_700_000_000_124, 42));
    assert!(!fingerprint_matches(&json, 1_700_000_000_123, 43));
    assert!(!fingerprint_matches("not json", 1, 1));
    assert!(!fingerprint_matches("{\"mtime_ms\":\"1\",\"size_bytes\":1}", 1, 1));
}

#[test]
fn unchanged_files_are_skipped_only_when_path_and_name_agree() {
    let json = fingerprint_json(10, 20);
    let current = Some(revision(&json, Some("vault/a.md"), Some("a.md")));
    assert!(skip_unchanged(&current, 10, 20, "vault/a.md", "a.md"));
    assert!(!skip_unchanged(&current, 11, 20, "vault/a.md", "a.md"));
    assert!(!skip_unchanged(&current, 10, 20, "moved/a.md", "a.md"));
    assert!(!skip_unchanged(&current, 10, 20, "vault/a.md", "A.md"));
    assert!(!skip_unchanged(&None, 10, 20, "vault/a.md", "a.md"));
    let legacy = Some(revision(&json, None, None));
    assert!(!skip_unchanged(&legacy, 10, 20, "vault/a.md", "a.md"));
}

#[test]
fn same_bytes_refresh_instead_of_appending() {
    let current = Some(revision("{}", None, None));
    assert!(refresh_only(&current, "rh1"));
    assert!(!refresh_only(&current, "rh2"));
    assert!(!refresh_only(&None, "rh1"));
}

#[test]
fn the_report_tallies_every_outcome() {
    let mut report = start_report(4);
    tally(&mut report, FileOutcome::Skipped);
    tally(&mut report, FileOutcome::Refreshed);
    tally(&mut report, FileOutcome::Appended(7));
    tally(
        &mut report,
        FileOutcome::Failed(IndexFileError {
            source_key: None,
            kind: IndexFileErrorKind::Other,
            message: "io".to_owned(),
        }),
    );
    assert_eq!(report.files_scanned, 4);
    assert_eq!(report.files_skipped, 1);
    assert_eq!(report.files_indexed, 2);
    assert_eq!(report.revisions_created, 1);
    assert_eq!(report.chunks_written, 7);
    assert_eq!(report.errors.len(), 1);
}

#[test]
fn a_search_is_refused_with_the_most_useful_reason() {
    assert_eq!(
        search_refusal(Some("x; run `momotaro rebuild-index` to rebuild it".to_owned()), false, Some("s".to_owned()), "/w/idx"),
        Some(SearchRefusal::IndexUnusable("x; run `momotaro rebuild-index` to rebuild it".to_owned()))
    );
    assert_eq!(
        search_refusal(None, false, Some("database has not been initialized".to_owned()), "/w/idx"),
        Some(SearchRefusal::StoreUnhealthy("database has not been initialized".to_owned()))
    );
    assert_eq!(
        search_refusal(None, false, None, "/w/idx"),
        Some(SearchRefusal::IndexNotBuilt("/w/idx".to_owned()))
    );
    assert_eq!(search_refusal(None, true, Some("s".to_owned()), "/w/idx"), None);
    assert_eq!(citation_refusal(StoreFile::Present), None);
    assert!(matches!(
        citation_refusal(StoreFile::Empty),
        Some(SearchRefusal::StoreUnhealthy(m)) if m.contains("run `momotaro index`")
    ));
}

#[test]
fn the_tally_refuses_to_overflow_a_counter() {
    let mut report = start_report(1);
    assert!(can_tally(&report, &FileOutcome::Appended(u64::MAX)));
    report.chunks_written = 1;
    assert!(!can_tally(&report, &FileOutcome::Appended(u64::MAX)));
    report.files_skipped = u64::MAX;
    assert!(!can_tally(&report, &FileOutcome::Skipped));
    assert!(can_tally(&report, &FileOutcome::Refreshed));
}

#[test]
fn a_directory_not_empty_is_a_drain_too() {
    let mut failed = 0u32;
    let mut calls = 0u32;
    // Two refusals, then the directory goes.
    for outcome in [RemoveOutcome::DirectoryNotEmpty, RemoveOutcome::DirectoryNotEmpty, RemoveOutcome::Removed] {
        calls += 1;
        match discard_next(failed, outcome) {
            DiscardStep::Retry(n) => failed = n,
            DiscardStep::Done => break,
            DiscardStep::GiveUp => panic!("a drain is waited out"),
        }
    }
    assert_eq!(calls, 3);
}

#[test]
fn a_rerun_over_unchanged_files_skips_them_and_writes_nothing() {
    let files = [(1_700_000_000_000u64, 10u64, "vault/a.md", "a.md"), (5, u64::MAX, "vault/b.md", "b.md")];
    let mut report = start_report(files.len() as u64);
    for (mtime, size, path, raw) in files {
        let stored = Some(revision(&fingerprint_json(mtime, size), Some(path), Some(raw)));
        assert!(skip_unchanged(&stored, mtime, size, path, raw));
        tally(&mut report, FileOutcome::Skipped);
    }
    assert_eq!(report.files_skipped, 2);
    assert_eq!(report.files_indexed, 0);
    assert_eq!(report.revisions_created, 0);
    assert_eq!(report.chunks_written, 0);
    assert!(report.errors.is_empty());
}

#[test]
fn a_quiet_run_counts_every_file_as_skipped_or_failed() {
    let mut report = start_report(3);
    tally(&mut report, FileOutcome::Skipped);
    tally(
        &mut report,
        FileOutcome::Failed(IndexFileError {
            source_key: None,
            kind: IndexFileErrorKind::KeyCollision,
            message: "claimed by both \"a.md\" and \"A.md\"".to_owned(),
        }),
    );
    tally(&mut report, FileOutcome::Skipped);
    assert_eq!(report.files_indexed, 0);
    assert_eq!(report.revisions_created, 0);
    assert_eq!(report.chunks_written, 0);
    assert_eq!(report.files_skipped, report.files_scanned - report.errors.len() as u64);
}
