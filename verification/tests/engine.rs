use migrator::cell::{CellValue, VariantTag};
use migrator::executor::{migrate_down, migrate_up, migrate_up_to, EngineError};
use migrator::registry::{Registry, RegistryError};
use migrator::seen::normalize_seen_unit;
use migrator::store::{Statement, Store, StoreError};
use migrator::unit::{Condition, MigrationUnit, Reversibility};

fn seen_store_with_legacy_column() -> Store {
    let mut store = Store::new();
    store
        .create_table(
            "seen".to_string(),
            vec!["id".to_string(), "extra_information".to_string()],
        )
        .unwrap();
    store
        .insert_row(
            &"seen".to_string(),
            vec![
                CellValue::Doc("1".to_string()),
                CellValue::Tagged(VariantTag::Show, "{\"season\":2}".to_string()),
            ],
        )
        .unwrap();
    store
        .insert_row(
            &"seen".to_string(),
            vec![
                CellValue::Doc("2".to_string()),
                CellValue::Tagged(VariantTag::Podcast, "{\"episode\":7}".to_string()),
            ],
        )
        .unwrap();
    // an empty legacy cell, and a malformed value with no known tag: the
    // backfill leaves every variant column null and drops no row
    store
        .insert_row(
            &"seen".to_string(),
            vec![CellValue::Doc("3".to_string()), CellValue::Null],
        )
        .unwrap();
    store
        .insert_row(
            &"seen".to_string(),
            vec![
                CellValue::Doc("4".to_string()),
                CellValue::Doc("{\"Movie\":{}}".to_string()),
            ],
        )
        .unwrap();
    store
}

fn seen_registry() -> Registry {
    let mut registry = Registry::new();
    registry.register(normalize_seen_unit()).unwrap();
    registry
}

#[test]
fn normalize_seen_splits_rows_and_drops_legacy_column() {
    let mut store = seen_store_with_legacy_column();
    let registry = seen_registry();

    let applied = migrate_up(&mut store, &registry, 1706832000).unwrap();
    assert_eq!(applied, 1);

    let seen = "seen".to_string();
    assert!(!store.has_column(&seen, &"extra_information".to_string()));
    assert_eq!(
        store.tables[0].columns,
        vec![
            "id".to_string(),
            "show_extra_information".to_string(),
            "podcast_extra_information".to_string(),
            "anime_extra_information".to_string(),
            "manga_extra_information".to_string(),
        ]
    );
    assert_eq!(
        store.tables[0].rows[0],
        vec![
            CellValue::Doc("1".to_string()),
            CellValue::Doc("{\"season\":2}".to_string()),
            CellValue::Null,
            CellValue::Null,
            CellValue::Null,
        ]
    );
    assert_eq!(
        store.tables[0].rows[1],
        vec![
            CellValue::Doc("2".to_string()),
            CellValue::Null,
            CellValue::Doc("{\"episode\":7}".to_string()),
            CellValue::Null,
            CellValue::Null,
        ]
    );
    assert_eq!(
        store.tables[0].rows[2],
        vec![
            CellValue::Doc("3".to_string()),
            CellValue::Null,
            CellValue::Null,
            CellValue::Null,
            CellValue::Null,
        ]
    );
    assert_eq!(
        store.tables[0].rows[3],
        vec![
            CellValue::Doc("4".to_string()),
            CellValue::Null,
            CellValue::Null,
            CellValue::Null,
            CellValue::Null,
        ]
    );
    assert_eq!(store.ledger.entries.len(), 1);
    assert_eq!(store.ledger.entries[0].name, "m20240202_0_normalize_seen_data");
    assert_eq!(store.ledger.entries[0].applied_at, 1706832000);
}

#[test]
fn rerunning_up_on_migrated_table_executes_zero_statements() {
    // the table was already migrated out of band: no legacy column, ledger empty
    let mut store = Store::new();
    store
        .create_table(
            "seen".to_string(),
            vec![
                "id".to_string(),
                "show_extra_information".to_string(),
                "podcast_extra_information".to_string(),
                "anime_extra_information".to_string(),
                "manga_extra_information".to_string(),
            ],
        )
        .unwrap();
    let columns_before = store.tables[0].columns.clone();

    let unit = normalize_seen_unit();
    let executed = unit.run_up(&mut store).unwrap();
    assert_eq!(executed, 0);
    assert_eq!(store.tables[0].columns, columns_before);
    assert_eq!(store.tables[0].rows.len(), 0);
}

#[test]
fn precondition_guards_against_half_applied_store() {
    // simulate a crash after the DDL ran but before the ledger write:
    // the unit's effect is present, the ledger knows nothing
    let mut store = Store::new();
    store
        .create_table(
            "seen".to_string(),
            vec![
                "id".to_string(),
                "show_extra_information".to_string(),
                "podcast_extra_information".to_string(),
                "anime_extra_information".to_string(),
                "manga_extra_information".to_string(),
            ],
        )
        .unwrap();
    let registry = seen_registry();

    // the re-run must not error and must not attempt the destructive step
    let applied = migrate_up(&mut store, &registry, 42).unwrap();
    assert_eq!(applied, 1);
    assert_eq!(store.tables[0].columns.len(), 5);
    assert!(store.ledger.contains(&"m20240202_0_normalize_seen_data".to_string()));
}

#[test]
fn migrate_up_twice_is_idempotent() {
    let mut store = seen_store_with_legacy_column();
    let registry = seen_registry();

    let first = migrate_up(&mut store, &registry, 10).unwrap();
    assert_eq!(first, 1);
    let rows_after_first = store.tables[0].rows.clone();
    let columns_after_first = store.tables[0].columns.clone();

    let second = migrate_up(&mut store, &registry, 20).unwrap();
    assert_eq!(second, 0);
    assert_eq!(store.tables[0].rows, rows_after_first);
    assert_eq!(store.tables[0].columns, columns_after_first);
    assert_eq!(store.ledger.entries.len(), 1);
}

fn add_column_unit(name: &str, table: &str, column: &str) -> MigrationUnit {
    MigrationUnit {
        name: name.to_string(),
        precondition: Condition::Always,
        up_steps: vec![Statement::AddColumn {
            table: table.to_string(),
            column: column.to_string(),
        }],
        down_steps: vec![Statement::DropColumn {
            table: table.to_string(),
            column: column.to_string(),
        }],
        reversibility: Reversibility::Lossless,
    }
}

#[test]
fn partial_failure_keeps_earlier_units_and_never_reaches_later_ones() {
    let mut store = Store::new();
    store
        .create_table("seen".to_string(), vec!["id".to_string()])
        .unwrap();

    let mut registry = Registry::new();
    registry
        .register(add_column_unit("m20240101_0_add_rating", "seen", "rating"))
        .unwrap();
    // this unit fails: the table it names does not exist
    registry
        .register(add_column_unit("m20240102_0_add_notes", "review", "notes"))
        .unwrap();
    registry
        .register(add_column_unit("m20240103_0_add_source", "seen", "source"))
        .unwrap();

    let err = migrate_up(&mut store, &registry, 7).unwrap_err();
    assert_eq!(
        err,
        EngineError::UnitFailed {
            name: "m20240102_0_add_notes".to_string(),
            error: StoreError::MissingTable,
        }
    );
    // the unit before the failure stays committed
    assert_eq!(store.ledger.entries.len(), 1);
    assert_eq!(store.ledger.entries[0].name, "m20240101_0_add_rating");
    assert!(store.has_column(&"seen".to_string(), &"rating".to_string()));
    // the unit after the failure was never attempted
    assert!(!store.has_column(&"seen".to_string(), &"source".to_string()));
    assert!(!store.ledger.contains(&"m20240103_0_add_source".to_string()));
}

#[test]
fn entries_of_one_run_share_its_timestamp_in_registry_order() {
    let mut store = Store::new();
    store
        .create_table("seen".to_string(), vec!["id".to_string()])
        .unwrap();

    let mut registry = Registry::new();
    registry
        .register(add_column_unit("m20240101_0_add_rating", "seen", "rating"))
        .unwrap();
    registry
        .register(add_column_unit("m20240103_0_add_source", "seen", "source"))
        .unwrap();

    let applied = migrate_up(&mut store, &registry, 99).unwrap();
    assert_eq!(applied, 2);
    assert_eq!(store.ledger.entries[0].name, "m20240101_0_add_rating");
    assert_eq!(store.ledger.entries[1].name, "m20240103_0_add_source");
    assert!(store.ledger.entries[0].applied_at <= store.ledger.entries[1].applied_at);
}

#[test]
fn migrate_down_reverts_newest_first_and_removes_ledger_rows() {
    let mut store = Store::new();
    store
        .create_table("seen".to_string(), vec!["id".to_string()])
        .unwrap();
    let mut registry = Registry::new();
    registry
        .register(add_column_unit("m20240101_0_add_rating", "seen", "rating"))
        .unwrap();
    registry
        .register(add_column_unit("m20240103_0_add_source", "seen", "source"))
        .unwrap();
    migrate_up(&mut store, &registry, 5).unwrap();
    assert_eq!(store.ledger.entries.len(), 2);

    let reverted = migrate_down(&mut store, &registry, 1).unwrap();
    assert_eq!(reverted, 1);
    assert_eq!(store.ledger.entries.len(), 1);
    assert!(store.has_column(&"seen".to_string(), &"rating".to_string()));
    assert!(!store.has_column(&"seen".to_string(), &"source".to_string()));

    // asking for more steps than are applied reverts what there is
    let reverted = migrate_down(&mut store, &registry, 10).unwrap();
    assert_eq!(reverted, 1);
    assert_eq!(store.ledger.entries.len(), 0);
    assert!(!store.has_column(&"seen".to_string(), &"rating".to_string()));
}

#[test]
fn migrate_down_of_irreversible_unit_removes_row_and_restores_nothing() {
    let mut store = seen_store_with_legacy_column();
    let registry = seen_registry();
    migrate_up(&mut store, &registry, 1).unwrap();
    let columns_after_up = store.tables[0].columns.clone();

    let reverted = migrate_down(&mut store, &registry, 1).unwrap();
    assert_eq!(reverted, 1);
    assert_eq!(store.ledger.entries.len(), 0);
    // the reverse direction is a documented no-op: the schema keeps its
    // migrated shape and the discarded column does not come back
    assert_eq!(store.tables[0].columns, columns_after_up);
}

#[test]
fn migrate_down_reports_a_ledger_entry_the_registry_does_not_know() {
    let mut store = Store::new();
    store
        .ledger
        .record("m20230101_0_retired_unit".to_string(), 3)
        .unwrap();
    let registry = Registry::new();

    let err = migrate_down(&mut store, &registry, 1).unwrap_err();
    assert_eq!(
        err,
        EngineError::UnknownUnit {
            name: "m20230101_0_retired_unit".to_string(),
        }
    );
    assert_eq!(store.ledger.entries.len(), 1);
}

#[test]
fn registry_rejects_name_that_does_not_sort_after_the_last() {
    let mut registry = Registry::new();
    registry
        .register(add_column_unit("m20240102_0_b", "seen", "b"))
        .unwrap();
    let err = registry
        .register(add_column_unit("m20240101_0_a", "seen", "a"))
        .unwrap_err();
    assert_eq!(err, RegistryError::NameNotIncreasing);
    // a repeated name is refused the same way
    let err = registry
        .register(add_column_unit("m20240102_0_b", "seen", "c"))
        .unwrap_err();
    assert_eq!(err, RegistryError::NameNotIncreasing);
    assert_eq!(registry.len(), 1);
}

#[test]
fn migrate_up_to_stops_at_the_target_unit() {
    let mut store = Store::new();
    store
        .create_table("seen".to_string(), vec!["id".to_string()])
        .unwrap();
    let mut registry = Registry::new();
    registry
        .register(add_column_unit("m20240101_0_add_rating", "seen", "rating"))
        .unwrap();
    registry
        .register(add_column_unit("m20240103_0_add_source", "seen", "source"))
        .unwrap();

    let applied =
        migrate_up_to(&mut store, &registry, &"m20240101_0_add_rating".to_string(), 4).unwrap();
    assert_eq!(applied, 1);
    assert!(store.has_column(&"seen".to_string(), &"rating".to_string()));
    assert!(!store.has_column(&"seen".to_string(), &"source".to_string()));
    assert_eq!(store.ledger.entries.len(), 1);

    // a later run without a bound picks up the rest
    let applied = migrate_up(&mut store, &registry, 5).unwrap();
    assert_eq!(applied, 1);
    assert!(store.has_column(&"seen".to_string(), &"source".to_string()));
}

#[test]
fn rerun_completes_after_crash_between_add_and_drop() {
    // the legacy column and show_extra_information coexist: exactly the
    // state a crash after the first add statement leaves behind
    let mut store = Store::new();
    store
        .create_table(
            "seen".to_string(),
            vec![
                "id".to_string(),
                "extra_information".to_string(),
                "show_extra_information".to_string(),
            ],
        )
        .unwrap();
    store
        .insert_row(
            &"seen".to_string(),
            vec![
                CellValue::Doc("1".to_string()),
                CellValue::Tagged(VariantTag::Show, "{\"season\":2}".to_string()),
                CellValue::Null,
            ],
        )
        .unwrap();

    let unit = normalize_seen_unit();
    // no duplicate-column error, and the transformation completes
    let executed = unit.run_up(&mut store).unwrap();
    assert_eq!(executed, 6);
    assert_eq!(
        store.tables[0].columns,
        vec![
            "id".to_string(),
            "show_extra_information".to_string(),
            "podcast_extra_information".to_string(),
            "anime_extra_information".to_string(),
            "manga_extra_information".to_string(),
        ]
    );
    assert_eq!(
        store.tables[0].rows[0],
        vec![
            CellValue::Doc("1".to_string()),
            CellValue::Doc("{\"season\":2}".to_string()),
            CellValue::Null,
            CellValue::Null,
            CellValue::Null,
        ]
    );
}

#[test]
fn rerun_completes_after_crash_between_backfill_and_drop() {
    // all variant columns added and backfilled, the legacy column not yet
    // dropped: the state a crash just before the last statement leaves
    let mut store = Store::new();
    store
        .create_table(
            "seen".to_string(),
            vec![
                "id".to_string(),
                "extra_information".to_string(),
                "show_extra_information".to_string(),
                "podcast_extra_information".to_string(),
                "anime_extra_information".to_string(),
                "manga_extra_information".to_string(),
            ],
        )
        .unwrap();
    store
        .insert_row(
            &"seen".to_string(),
            vec![
                CellValue::Doc("1".to_string()),
                CellValue::Tagged(VariantTag::Show, "{\"season\":2}".to_string()),
                CellValue::Doc("{\"season\":2}".to_string()),
                CellValue::Null,
                CellValue::Null,
                CellValue::Null,
            ],
        )
        .unwrap();

    let unit = normalize_seen_unit();
    let executed = unit.run_up(&mut store).unwrap();
    assert_eq!(executed, 6);
    // the backfilled payload survives the re-run and the legacy column is gone
    assert!(!store.has_column(&"seen".to_string(), &"extra_information".to_string()));
    assert_eq!(
        store.tables[0].rows[0],
        vec![
            CellValue::Doc("1".to_string()),
            CellValue::Doc("{\"season\":2}".to_string()),
            CellValue::Null,
            CellValue::Null,
            CellValue::Null,
        ]
    );
}
