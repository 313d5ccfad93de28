use migrator::cell::{split_cell, CellValue, VariantTag};
use migrator::ledger::{Ledger, LedgerError};
use migrator::name::str_lex_lt;
use migrator::seen::split_unit;
use migrator::store::{Statement, Store, StoreError};

#[test]
fn split_cell_projects_each_known_tag_onto_its_own_column() {
    let r = split_cell(&CellValue::Tagged(VariantTag::Show, "{\"s\":1}".to_string()));
    assert_eq!(r.show, Some("{\"s\":1}".to_string()));
    assert_eq!(r.podcast, None);
    assert_eq!(r.anime, None);
    assert_eq!(r.manga, None);

    let r = split_cell(&CellValue::Tagged(VariantTag::Podcast, "p".to_string()));
    assert_eq!(r.podcast, Some("p".to_string()));
    assert_eq!((r.show, r.anime, r.manga), (None, None, None));

    let r = split_cell(&CellValue::Tagged(VariantTag::Anime, "a".to_string()));
    assert_eq!(r.anime, Some("a".to_string()));
    assert_eq!((r.show, r.podcast, r.manga), (None, None, None));

    let r = split_cell(&CellValue::Tagged(VariantTag::Manga, "m".to_string()));
    assert_eq!(r.manga, Some("m".to_string()));
    assert_eq!((r.show, r.podcast, r.anime), (None, None, None));
}

#[test]
fn split_cell_leaves_every_column_empty_for_null_or_malformed_values() {
    let r = split_cell(&CellValue::Null);
    assert_eq!((r.show, r.podcast, r.anime, r.manga), (None, None, None, None));

    // a document from which no known tag can be read: backfill writes nothing
    let r = split_cell(&CellValue::Doc("{\"Movie\":{}}".to_string()));
    assert_eq!((r.show, r.podcast, r.anime, r.manga), (None, None, None, None));
}

#[test]
fn add_column_errors_exactly_on_missing_table_or_duplicate() {
    let mut store = Store::new();
    store
        .create_table("seen".to_string(), vec!["id".to_string()])
        .unwrap();

    let missing = Statement::AddColumn {
        table: "absent".to_string(),
        column: "x".to_string(),
    };
    assert_eq!(store.apply(&missing), Err(StoreError::MissingTable));

    let add = Statement::AddColumn {
        table: "seen".to_string(),
        column: "rating".to_string(),
    };
    assert_eq!(store.apply(&add), Ok(()));
    assert_eq!(store.apply(&add), Err(StoreError::DuplicateColumn));
}

#[test]
fn drop_column_errors_exactly_on_missing_table_or_column() {
    let mut store = Store::new();
    store
        .create_table("seen".to_string(), vec!["id".to_string()])
        .unwrap();

    let drop = Statement::DropColumn {
        table: "seen".to_string(),
        column: "id".to_string(),
    };
    assert_eq!(store.apply(&drop), Ok(()));
    assert_eq!(store.apply(&drop), Err(StoreError::MissingColumn));
    let other = Statement::DropColumn {
        table: "absent".to_string(),
        column: "id".to_string(),
    };
    assert_eq!(store.apply(&other), Err(StoreError::MissingTable));
}

#[test]
fn index_statements_error_on_duplicates_and_absences() {
    let mut store = Store::new();
    store
        .create_table("seen".to_string(), vec!["id".to_string()])
        .unwrap();

    let add = Statement::AddIndex {
        table: "seen".to_string(),
        index: "seen_id_idx".to_string(),
    };
    assert_eq!(store.apply(&add), Ok(()));
    assert!(store.has_index(&"seen".to_string(), &"seen_id_idx".to_string()));
    assert_eq!(store.apply(&add), Err(StoreError::DuplicateIndex));

    let drop = Statement::DropIndex {
        table: "seen".to_string(),
        index: "seen_id_idx".to_string(),
    };
    assert_eq!(store.apply(&drop), Ok(()));
    assert_eq!(store.apply(&drop), Err(StoreError::MissingIndex));
}

#[test]
fn split_statement_requires_all_named_columns() {
    let mut store = Store::new();
    store
        .create_table("seen".to_string(), vec!["id".to_string(), "extra".to_string()])
        .unwrap();
    let split = Statement::SplitColumn {
        table: "seen".to_string(),
        source: "extra".to_string(),
        show: "show_extra".to_string(),
        podcast: "podcast_extra".to_string(),
        anime: "anime_extra".to_string(),
        manga: "manga_extra".to_string(),
    };
    // the variant columns have not been added yet
    assert_eq!(store.apply(&split), Err(StoreError::MissingColumn));
}

#[test]
fn create_table_and_insert_row_reject_bad_fixtures() {
    let mut store = Store::new();
    store
        .create_table("seen".to_string(), vec!["id".to_string()])
        .unwrap();
    assert_eq!(
        store.create_table("seen".to_string(), vec![]),
        Err(StoreError::DuplicateTable)
    );
    assert_eq!(
        store.create_table("metadata".to_string(), vec!["id".to_string(), "id".to_string()]),
        Err(StoreError::DuplicateColumn)
    );
    assert_eq!(
        store.insert_row(&"absent".to_string(), vec![]),
        Err(StoreError::MissingTable)
    );
    assert_eq!(
        store.insert_row(&"seen".to_string(), vec![]),
        Err(StoreError::RowArity)
    );
}

#[test]
fn introspection_reflects_live_state_only() {
    let mut store = Store::new();
    let seen = "seen".to_string();
    assert!(!store.has_table(&seen));
    store
        .create_table(seen.clone(), vec!["id".to_string()])
        .unwrap();
    assert!(store.has_table(&seen));
    assert!(store.has_column(&seen, &"id".to_string()));
    assert!(!store.has_column(&seen, &"rating".to_string()));
    store
        .apply(&Statement::DropColumn {
            table: seen.clone(),
            column: "id".to_string(),
        })
        .unwrap();
    assert!(!store.has_column(&seen, &"id".to_string()));
}

#[test]
fn ledger_refuses_duplicate_names_and_keeps_order() {
    let mut ledger = Ledger::new();
    ledger.record("m20240101_0_a".to_string(), 1).unwrap();
    ledger.record("m20240102_0_b".to_string(), 2).unwrap();
    assert_eq!(
        ledger.record("m20240101_0_a".to_string(), 3),
        Err(LedgerError::DuplicateName)
    );
    assert_eq!(ledger.len(), 2);
    let names = ledger.applied_names();
    assert_eq!(names, vec!["m20240101_0_a".to_string(), "m20240102_0_b".to_string()]);
    let last = ledger.remove_last().unwrap();
    assert_eq!(last.name, "m20240102_0_b");
    assert_eq!(ledger.len(), 1);
}

#[test]
fn unit_names_order_lexicographically() {
    assert!(str_lex_lt("m20240101_0_a", "m20240202_0_b"));
    assert!(str_lex_lt("m20240202_0", "m20240202_0_normalize_seen_data"));
    assert!(!str_lex_lt("m20240202_0_normalize_seen_data", "m20240202_0_normalize_seen_data"));
    assert!(!str_lex_lt("m20240202_1", "m20240202_0"));
    assert!(str_lex_lt("", "m"));
}

#[test]
fn generic_split_unit_backfills_another_table() {
    let mut store = Store::new();
    store
        .create_table(
            "watched".to_string(),
            vec!["id".to_string(), "details".to_string()],
        )
        .unwrap();
    store
        .insert_row(
            &"watched".to_string(),
            vec![
                CellValue::Doc("9".to_string()),
                CellValue::Tagged(VariantTag::Anime, "{\"ep\":12}".to_string()),
            ],
        )
        .unwrap();
    let unit = split_unit(
        "m20240301_0_split_watched".to_string(),
        "watched".to_string(),
        "details".to_string(),
        "show_details".to_string(),
        "podcast_details".to_string(),
        "anime_details".to_string(),
        "manga_details".to_string(),
    );
    let executed = unit.run_up(&mut store).unwrap();
    assert_eq!(executed, 6);
    assert_eq!(
        store.tables[0].rows[0],
        vec![
            CellValue::Doc("9".to_string()),
            CellValue::Null,
            CellValue::Null,
            CellValue::Doc("{\"ep\":12}".to_string()),
            CellValue::Null,
        ]
    );
    assert!(!store.has_column(&"watched".to_string(), &"details".to_string()));
}

#[test]
fn guarded_column_statements_skip_work_already_done() {
    let mut store = Store::new();
    store
        .create_table("seen".to_string(), vec!["id".to_string()])
        .unwrap();

    let add = Statement::AddColumnIfAbsent {
        table: "seen".to_string(),
        column: "rating".to_string(),
    };
    assert_eq!(store.apply(&add), Ok(()));
    // re-applying is a no-op success, not a duplicate-column error
    assert_eq!(store.apply(&add), Ok(()));
    assert_eq!(store.tables[0].columns.len(), 2);

    let drop = Statement::DropColumnIfPresent {
        table: "seen".to_string(),
        column: "rating".to_string(),
    };
    assert_eq!(store.apply(&drop), Ok(()));
    // re-applying is a no-op success, not a missing-column error
    assert_eq!(store.apply(&drop), Ok(()));
    assert_eq!(store.tables[0].columns.len(), 1);

    // only a missing table is still an error
    let absent = Statement::AddColumnIfAbsent {
        table: "absent".to_string(),
        column: "x".to_string(),
    };
    assert_eq!(store.apply(&absent), Err(StoreError::MissingTable));
}
