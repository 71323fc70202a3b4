use agent_graph_mcp::migrations::{
    migration_digest, migration_plan, owner_for_new_run, MigrationStep, SchemaFacts, ADD_OWNER_SQL,
    ADD_SUPERSEDED_SQL, INSTANCE_TABLES_SQL, RETENTION_TABLES_SQL,
};

fn fresh() -> SchemaFacts {
    SchemaFacts {
        version_recorded: false,
        executions_table: false,
        owner_column: false,
        terminal_receipts_table: false,
        bundle_digest_column: false,
        superseded_column: false,
    }
}

#[test]
fn recorded_version_needs_nothing() {
    let facts = SchemaFacts { version_recorded: true, ..fresh() };
    assert!(migration_plan(&facts, "bin").is_empty());
}

#[test]
fn legacy_executions_get_owner_quarantine_and_superseded_column() {
    let facts = SchemaFacts { executions_table: true, ..fresh() };
    let plan = migration_plan(&facts, "bin");
    assert_eq!(plan.len(), 6);
    assert!(matches!(plan[0], MigrationStep::Batch(s) if s == INSTANCE_TABLES_SQL));
    assert!(matches!(plan[1], MigrationStep::Batch(s) if s == ADD_OWNER_SQL));
    assert!(matches!(plan[2], MigrationStep::QuarantineLegacyRuns));
    assert!(matches!(plan[3], MigrationStep::Batch(s) if s == ADD_SUPERSEDED_SQL));
    assert!(matches!(plan[4], MigrationStep::Batch(s) if s == RETENTION_TABLES_SQL));
    match &plan[5] {
        MigrationStep::RecordVersion(d) => assert_eq!(d, &migration_digest("bin")),
        _ => panic!("expected the version record last"),
    }
}

#[test]
fn fresh_database_gets_tables_and_record() {
    let plan = migration_plan(&fresh(), "bin");
    assert_eq!(plan.len(), 3);
}

#[test]
fn migration_digest_is_hex_sha256() {
    let d = migration_digest("bin");
    assert_eq!(d.len(), 64);
    assert!(d.chars().all(|c| c.is_ascii_hexdigit() && !c.is_ascii_uppercase()));
    assert_ne!(d, migration_digest("other"));
    assert!(owner_for_new_run("").is_err());
    assert_eq!(owner_for_new_run("daemon-1").unwrap(), "daemon-1");
}
