use std::collections::HashMap;

use lakehouse::error::LakehouseError;
use lakehouse::log::AddFile;
use lakehouse::query::{effective_query, plan_sql};
use lakehouse::snapshot::Snapshot;
use lakehouse::writer::{data_file_path, new_data_file_path};

fn file(path: &str) -> AddFile {
    AddFile {
        path: path.to_string(),
        size: 1,
        row_count: 1,
        partition_values: HashMap::new(),
    }
}

#[test]
fn plan_sql_lists_files_and_statement() {
    let snap = Snapshot {
        version: 3,
        files: vec![file("data/a.parquet"), file("data/b.parquet")],
    };
    let plan = plan_sql(&snap, "SELECT COUNT(*) AS n FROM t", false).expect("plan");
    assert_eq!(plan.file_paths, vec!["data/a.parquet", "data/b.parquet"]);
    assert_eq!(plan.statement, "SELECT COUNT(*) AS n FROM t");

    let explained = plan_sql(&snap, "SELECT * FROM t", true).expect("plan");
    assert_eq!(explained.statement, "EXPLAIN SELECT * FROM t");
}

#[test]
fn plan_sql_refuses_empty_snapshot() {
    let snap = Snapshot { version: 2, files: Vec::new() };
    assert!(matches!(
        plan_sql(&snap, "SELECT 1", false),
        Err(LakehouseError::EmptySnapshot { version: 2 })
    ));
}

#[test]
fn effective_query_prefixes_explain() {
    assert_eq!(effective_query("SELECT 1", true), "EXPLAIN SELECT 1");
    assert_eq!(effective_query("SELECT 1", false), "SELECT 1");
}

#[test]
fn data_file_paths_are_fresh_ulids() {
    let a = new_data_file_path();
    let b = new_data_file_path();
    assert_eq!(a.len(), 39);
    assert!(a.starts_with("data/"));
    assert!(a.ends_with(".parquet"));
    assert!(ulid::Ulid::from_string(&a[5..31]).is_ok());
    assert_ne!(a, b);
}

#[test]
fn data_file_path_wraps_the_id() {
    assert_eq!(
        data_file_path("01ARZ3NDEKTSV4RRFFQ69G5FAV"),
        "data/01ARZ3NDEKTSV4RRFFQ69G5FAV.parquet"
    );
}
