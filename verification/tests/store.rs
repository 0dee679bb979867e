use momotaro::contracts::SourceKind;
use momotaro::store::backup_needed;
use momotaro::store::version_stamp_sql;
use momotaro::contracts::{HealthReport, SchemaVersion, WorkspaceStatus, CURRENT_SCHEMA_VERSION};
use momotaro::store::{
    health_from, migrations, numbered_placeholders, pending_migrations, schema_version_of,
    sqlite_facts_from, stats_from, uninitialized_stats, write_refusal, SourceCounts, WriteRefusal,
    APPLICATION_ID,
};

#[test]
fn every_step_is_ordered_and_unique() {
    let mut seen: Vec<u32> = Vec::new();
    for step in migrations() {
        let target = step.target;
        assert!(
            seen.last().is_none_or(|previous| previous < &target),
            "migration targets must strictly increase: {target}"
        );
        seen.push(target);
    }
    assert_eq!(seen.first(), Some(&1), "the chain starts at 1");
}

#[test]
fn the_chain_ends_at_the_current_schema() {
    let steps = migrations();
    assert_eq!(steps.last().map(|s| s.target), Some(CURRENT_SCHEMA_VERSION));
    assert_eq!(steps[0].sql, "");
    assert!(steps[1].sql.contains("CREATE TABLE IF NOT EXISTS chunks"));
    assert_eq!(steps[2].sql, "ALTER TABLE source_revisions ADD COLUMN raw_name TEXT;");
}

#[test]
fn pending_steps_are_the_newer_ones_in_order() {
    let targets = |v: u32| pending_migrations(v).iter().map(|s| s.target).collect::<Vec<_>>();
    assert_eq!(targets(0), vec![1, 2, 3]);
    assert_eq!(targets(1), vec![2, 3]);
    assert_eq!(targets(2), vec![3]);
    assert!(targets(3).is_empty());
    assert!(targets(9).is_empty());
}

#[test]
fn user_version_zero_means_no_schema() {
    assert_eq!(schema_version_of(0), None);
    assert_eq!(schema_version_of(3), Some(SchemaVersion(3)));
}

#[test]
fn health_follows_the_schema_version() {
    let ready = health_from(Some(SchemaVersion(3)), None);
    assert_eq!(ready.status, WorkspaceStatus::Ready);
    assert_eq!(ready.message, None);

    let newer = health_from(Some(SchemaVersion(7)), None);
    assert_eq!(newer.status, WorkspaceStatus::Invalid);
    assert_eq!(
        newer.message.as_deref(),
        Some("database schema version 7 is newer than supported 3")
    );

    let older = health_from(Some(SchemaVersion(2)), None);
    assert_eq!(older.message.as_deref(), Some("database schema version 2 requires migrations"));

    let fresh = health_from(None, None);
    assert_eq!(fresh.status, WorkspaceStatus::Uninitialized);
    assert_eq!(fresh.message.as_deref(), Some("database has not been initialized"));
}

#[test]
fn a_refused_file_is_never_ready() {
    let refused = health_from(
        Some(SchemaVersion(3)),
        Some("database application_id 5 is not a Momotaro store".to_owned()),
    );
    assert_eq!(refused.status, WorkspaceStatus::Invalid);
    assert_eq!(refused.schema_version, Some(SchemaVersion(3)));
    assert_eq!(
        refused.message.as_deref(),
        Some("database application_id 5 is not a Momotaro store")
    );
}

#[test]
fn write_refusals_come_in_their_order() {
    let none: Vec<String> = Vec::new();
    assert_eq!(write_refusal(APPLICATION_ID, 3, None, &none), None);
    assert_eq!(write_refusal(0, 0, None, &none), None);
    assert_eq!(
        write_refusal(305419896, 99, None, &none),
        Some(WriteRefusal::ForeignDatabase(305419896))
    );
    assert_eq!(write_refusal(APPLICATION_ID, 4, None, &none), Some(WriteRefusal::SchemaTooNew(4, 3)));
    assert_eq!(
        write_refusal(0, 0, Some("1".to_owned()), &vec!["t".to_owned()]),
        Some(WriteRefusal::LegacyStore("1".to_owned()))
    );
    assert_eq!(write_refusal(0, 2, None, &none), Some(WriteRefusal::NoIdentity(2)));
    assert_eq!(
        write_refusal(0, 0, None, &vec!["a".to_owned(), "b".to_owned()]),
        Some(WriteRefusal::ForeignObjects("a, b".to_owned()))
    );
    // An identity of ours adopts nothing foreign but needs no object check.
    assert_eq!(write_refusal(APPLICATION_ID, 0, None, &vec!["t".to_owned()]), None);
}

#[test]
fn refusal_messages_are_exact() {
    assert_eq!(
        WriteRefusal::ForeignDatabase(-7).message(),
        "database application_id -7 is not a Momotaro store"
    );
    assert_eq!(
        WriteRefusal::SchemaTooNew(9, 3).message(),
        "database schema version 9 is newer than supported 3"
    );
    assert_eq!(
        WriteRefusal::LegacyStore("1".to_owned()).message(),
        "store predates the user_version carrier (recorded schema version 1); delete the workspace data directory and re-index"
    );
    assert_eq!(
        WriteRefusal::NoIdentity(2).message(),
        "database has no Momotaro identity but claims schema version 2; refusing to write"
    );
    assert_eq!(
        WriteRefusal::ForeignObjects("a, b".to_owned()).message(),
        "database holds objects this build did not create (a, b); refusing to write"
    );
}

#[test]
fn stats_read_counts_only_when_ready() {
    let counts = SourceCounts { sources: 2, revisions: 3, chunks: 5 };
    let ready = HealthReport {
        status: WorkspaceStatus::Ready,
        schema_version: Some(SchemaVersion(3)),
        sqlite: None,
        message: None,
    };
    let stats = stats_from(&ready, "/w/db".to_owned(), Some(counts));
    assert!(stats.initialized);
    assert_eq!(stats.sources, Some(2));
    assert_eq!(stats.chunks, Some(5));

    let old = HealthReport {
        status: WorkspaceStatus::Invalid,
        schema_version: Some(SchemaVersion(2)),
        sqlite: None,
        message: None,
    };
    let stats = stats_from(&old, "/w/db".to_owned(), Some(counts));
    assert!(!stats.initialized);
    assert_eq!(stats.status, WorkspaceStatus::Invalid);
    assert_eq!(stats.sources, None);

    let missing = uninitialized_stats("/w/.momotaro/momotaro.db".to_owned());
    assert_eq!(missing.status, WorkspaceStatus::Uninitialized);
    assert!(!missing.initialized);
    assert_eq!(missing.database_path, "/w/.momotaro/momotaro.db");
}

#[test]
fn engine_facts_decide_both_windows() {
    let facts = sqlite_facts_from("3.50.2".to_owned(), 3_050_002, "id".to_owned(), Vec::new());
    assert!(facts.wal_reset_window);
    assert!(!facts.withdrawn_release);
    let facts = sqlite_facts_from("3.52.0".to_owned(), 3_052_000, "id".to_owned(), Vec::new());
    assert!(!facts.wal_reset_window);
    assert!(facts.withdrawn_release);
    let facts = sqlite_facts_from("3.53.2".to_owned(), 3_053_002, "id".to_owned(), vec!["X".to_owned()]);
    assert!(!facts.wal_reset_window && !facts.withdrawn_release);
    assert_eq!(facts.compile_options, vec!["X".to_owned()]);
}

#[test]
fn placeholders_number_every_value() {
    assert_eq!(numbered_placeholders(0), "");
    assert_eq!(numbered_placeholders(1), "?1");
    assert_eq!(numbered_placeholders(3), "?1, ?2, ?3");
    assert!(numbered_placeholders(12).ends_with("?11, ?12"));
}

#[test]
fn the_application_id_spells_mmot() {
    assert_eq!(APPLICATION_ID.to_be_bytes(), *b"MMOT");
}

#[test]
fn only_an_existing_older_store_is_backed_up() {
    assert!(!backup_needed(0));
    assert!(backup_needed(1));
    assert!(backup_needed(2));
    assert!(!backup_needed(3));
    assert!(!backup_needed(4));
}

#[test]
fn each_step_stamps_its_own_version() {
    assert_eq!(version_stamp_sql(3), "PRAGMA user_version = 3;");
}

#[test]
fn future_schema_is_rejected() {
    // A file with no identity that claims version 999.
    assert_eq!(write_refusal(0, 999, None, &Vec::new()), Some(WriteRefusal::SchemaTooNew(999, 3)));
}

#[test]
fn foreign_database_is_rejected_without_touching_it() {
    let objects = vec!["t".to_owned()];
    assert_eq!(
        write_refusal(305419896, 0, None, &objects),
        Some(WriteRefusal::ForeignDatabase(305419896))
    );
}

#[test]
fn a_file_with_foreign_objects_and_no_identity_is_not_adopted() {
    let objects = vec!["notes".to_owned()];
    let refusal = write_refusal(0, 0, None, &objects).expect("a foreign object set must not be adopted");
    assert_eq!(refusal, WriteRefusal::ForeignObjects("notes".to_owned()));
    assert!(refusal.message().contains("(notes)"), "{}", refusal.message());
}

#[test]
fn a_legacy_store_is_refused_with_a_clear_message() {
    let objects = vec!["chunks".to_owned(), "schema_meta".to_owned(), "source_revisions".to_owned()];
    let refusal = write_refusal(0, 0, Some("2".to_owned()), &objects)
        .expect("a pre-user_version store must be refused");
    assert_eq!(refusal, WriteRefusal::LegacyStore("2".to_owned()));
    assert!(
        refusal.message().contains("delete the workspace data directory"),
        "the message must be actionable: {}",
        refusal.message()
    );
}

#[test]
fn health_reports_uninitialized_store() {
    let report = health_from(schema_version_of(0), None);
    assert_eq!(report.status, WorkspaceStatus::Uninitialized);
    assert_eq!(report.schema_version, None);
}

#[test]
fn stats_reports_zeroes_when_initialized_empty() {
    let health = health_from(schema_version_of(3), None);
    let report = stats_from(&health, "db".to_owned(), Some(SourceCounts { sources: 0, revisions: 0, chunks: 0 }));
    assert!(report.initialized);
    assert_eq!(report.sources, Some(0));
    assert_eq!(report.chunks, Some(0));
}

#[test]
fn stats_reports_future_schema_as_invalid() {
    let refusal = write_refusal(0, 999, None, &Vec::new()).map(|r| r.message());
    let health = health_from(schema_version_of(999), refusal);
    let report = stats_from(&health, "db".to_owned(), None);
    assert_eq!(report.status, WorkspaceStatus::Invalid);
    assert!(!report.initialized);
    assert_eq!(report.sources, None);
    assert_eq!(report.schema_version, Some(SchemaVersion(999)), "version must be surfaced, not collapsed");
}

#[test]
fn stats_reports_old_schema_as_invalid_not_uninitialized() {
    let objects = vec!["schema_meta".to_owned()];
    let refusal = write_refusal(APPLICATION_ID, 1, None, &objects).map(|r| r.message());
    assert_eq!(refusal, None);
    let health = health_from(schema_version_of(1), refusal);
    let report = stats_from(&health, "db".to_owned(), None);
    assert_eq!(report.status, WorkspaceStatus::Invalid);
    assert!(!report.initialized);
    assert_eq!(report.schema_version, Some(SchemaVersion(1)));
}

#[test]
fn health_and_stats_never_call_a_file_ready_that_the_writers_refuse() {
    // A current version carried by a file that is not ours.
    let refusal = write_refusal(0, 3, None, &Vec::new()).map(|r| r.message());
    assert!(refusal.is_some());
    let health = health_from(schema_version_of(3), refusal);
    assert_eq!(health.status, WorkspaceStatus::Invalid);
    let report = stats_from(&health, "db".to_owned(), Some(SourceCounts { sources: 1, revisions: 1, chunks: 1 }));
    assert!(!report.initialized);
    assert_eq!(report.chunks, None);
}

#[test]
fn a_store_that_needs_no_migration_is_not_backed_up() {
    assert!(!backup_needed(CURRENT_SCHEMA_VERSION));
    assert!(pending_migrations(CURRENT_SCHEMA_VERSION).is_empty());
}

#[test]
fn pending_migration_writes_a_verified_backup_first() {
    assert!(backup_needed(2));
    assert_eq!(pending_migrations(2).iter().map(|s| s.target).collect::<Vec<_>>(), vec![3]);
}

#[test]
fn unknown_kind_string_is_rejected() {
    assert!(SourceKind::parse_wire("poem").is_err());
    assert_eq!(SourceKind::parse_wire("note").ok(), Some(SourceKind::Note));
}
