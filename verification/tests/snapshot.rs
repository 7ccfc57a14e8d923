use std::collections::HashMap;

use lakehouse::error::LakehouseError;
use lakehouse::log::{commit, commit_at, Action, AddFile, CommitOptions, RemoveFile};
use lakehouse::snapshot::{
    apply_action, check_log_file, latest_committed_version, latest_version, next_version,
    read, read_commit_timestamp, replay, resolve_version, version_at_timestamp, Snapshot,
    VersionChoice,
};

fn make_add(path: &str) -> Action {
    Action::Add(AddFile {
        path: path.to_string(),
        size: 1024,
        row_count: 10,
        partition_values: HashMap::new(),
    })
}

fn make_remove(path: &str) -> Action {
    Action::Remove(RemoveFile {
        path: path.to_string(),
        partition_values: HashMap::new(),
    })
}

/// The actions of the log file of `version` holding `actions`.
fn committed(version: u64, actions: Vec<Action>) -> Vec<Action> {
    commit(version, actions, CommitOptions::default(), &Vec::new())
        .expect("commit")
        .actions
}

/// A log whose every file was read and whose every line is a valid action.
fn read_log(version: u64, commits: Vec<Vec<Action>>) -> Snapshot {
    let log = commits
        .into_iter()
        .map(|c| Some(c.into_iter().map(Some).collect()))
        .collect();
    read(version, log).expect("read snapshot")
}

fn timestamp_of(version: u64, actions: &[Action]) -> String {
    let lines: Vec<Option<Action>> = actions.iter().cloned().map(Some).collect();
    read_commit_timestamp(version, lines).expect("commit timestamp")
}

#[test]
fn snapshot_collects_all_add_files() {
    let log = vec![
        committed(0, vec![make_add("data/file0.parquet")]),
        committed(1, vec![make_add("data/file1.parquet")]),
    ];

    let snap = read_log(1, log);

    assert_eq!(snap.version, 1);
    assert_eq!(snap.files.len(), 2);
    assert_eq!(snap.files[0].path, "data/file0.parquet");
    assert_eq!(snap.files[1].path, "data/file1.parquet");
}

#[test]
fn snapshot_at_version_0_has_only_first_file() {
    let log = vec![committed(0, vec![make_add("data/file0.parquet")])];
    let _later = committed(1, vec![make_add("data/file1.parquet")]);

    let snap = read_log(0, log);

    assert_eq!(snap.files.len(), 1);
    assert_eq!(snap.files[0].path, "data/file0.parquet");
}

#[test]
fn next_version_is_zero_for_empty_table() {
    let names: Vec<String> = Vec::new();
    assert_eq!(next_version(&names), 0);
}

#[test]
fn next_version_increments_after_commit() {
    let mut names: Vec<String> = Vec::new();

    let plan0 = commit(0, vec![make_add("data/file0.parquet")], CommitOptions::default(), &names)
        .expect("commit v0");
    names.push(plan0.log_file_name);
    assert_eq!(next_version(&names), 1);

    let plan1 = commit(1, vec![make_add("data/file1.parquet")], CommitOptions::default(), &names)
        .expect("commit v1");
    names.push(plan1.log_file_name);
    assert_eq!(next_version(&names), 2);
}

#[test]
fn remove_file_evicts_from_snapshot() {
    let log = vec![
        committed(0, vec![make_add("data/a.parquet")]),
        committed(1, vec![make_remove("data/a.parquet")]),
    ];

    let snap = read_log(1, log);
    assert!(snap.files.is_empty(), "file A should no longer appear after RemoveFile");
}

#[test]
fn snapshot_before_remove_still_has_file() {
    let first = committed(0, vec![make_add("data/a.parquet")]);
    let _second = committed(1, vec![make_remove("data/a.parquet")]);

    let snap = read_log(0, vec![first]);
    assert_eq!(snap.files.len(), 1, "file A must still be visible at version 0");
}

#[test]
fn version_at_timestamp_after_all_commits_gives_latest() {
    let v0 = committed(0, vec![make_add("data/v0.parquet")]);
    let v1 = committed(1, vec![make_add("data/v1.parquet")]);
    let stamps = vec![timestamp_of(0, &v0), timestamp_of(1, &v1)];

    let future = "9999-12-31T23:59:59Z";
    let resolved = version_at_timestamp(future, &stamps).expect("resolve future timestamp");
    assert_eq!(resolved, 1);
}

#[test]
fn remove_keeps_other_files_in_order() {
    let files = vec![
        match make_add("data/a.parquet") { Action::Add(f) => f, _ => unreachable!() },
        match make_add("data/b.parquet") { Action::Add(f) => f, _ => unreachable!() },
        match make_add("data/a.parquet") { Action::Add(f) => f, _ => unreachable!() },
        match make_add("data/c.parquet") { Action::Add(f) => f, _ => unreachable!() },
    ];
    let kept = apply_action(files, make_remove("data/a.parquet"));
    let paths: Vec<&str> = kept.iter().map(|f| f.path.as_str()).collect();
    assert_eq!(paths, vec!["data/b.parquet", "data/c.parquet"]);
}

#[test]
fn file_added_again_after_remove_is_back() {
    let log = vec![
        committed(0, vec![make_add("data/a.parquet")]),
        committed(1, vec![make_remove("data/a.parquet"), make_add("data/a.parquet")]),
    ];
    let snap = read_log(1, log);
    assert_eq!(snap.files.len(), 1);
    assert_eq!(snap.files[0].path, "data/a.parquet");
}

#[test]
fn appending_commit_extends_snapshot() {
    let log0 = vec![committed(0, vec![make_add("data/a.parquet")])];
    let before = read_log(0, log0.clone());
    let mut log1 = log0;
    log1.push(committed(1, vec![make_add("data/b.parquet"), make_add("data/c.parquet")]));
    let after = read_log(1, log1);
    assert_eq!(after.files.len(), before.files.len() + 2);
    assert_eq!(after.files[0].path, before.files[0].path);
    assert_eq!(after.files[1].path, "data/b.parquet");
    assert_eq!(after.files[2].path, "data/c.parquet");
}

#[test]
fn latest_version_is_max_of_committed_names() {
    let names: Vec<String> = vec![
        "00000000000000000002.json".to_string(),
        "00000000000000000000.json".to_string(),
        "00000000000000000007.json.tmp".to_string(),
        "00000000000000000005.json".to_string(),
        "README".to_string(),
    ];
    assert_eq!(latest_version(&names), Some(5));
    assert_eq!(next_version(&names), 6);
    assert_eq!(latest_committed_version(&names), Ok(5));
}

#[test]
fn interrupted_commit_leaves_latest_version_unchanged() {
    let names = vec![
        "00000000000000000000.json".to_string(),
        "00000000000000000001.json.tmp".to_string(),
    ];
    assert_eq!(latest_version(&names), Some(0));
    let empty: Vec<String> = vec!["00000000000000000000.json.tmp".to_string()];
    assert_eq!(latest_version(&empty), None);
    assert_eq!(latest_committed_version(&empty), Err(LakehouseError::NoCommittedVersions));
}

#[test]
fn version_at_timestamp_between_commits_gives_earlier() {
    let stamps = vec![
        "2026-03-01T12:00:00Z".to_string(),
        "2026-03-01T13:00:00+00:00".to_string(),
        "2026-03-01T15:00:00+02:00".to_string(),
    ];
    assert_eq!(version_at_timestamp("2026-03-01T12:30:00Z", &stamps), Ok(0));
    assert_eq!(version_at_timestamp("2026-03-01T13:00:00Z", &stamps), Ok(2));
    assert_eq!(version_at_timestamp("2026-03-01T13:59:59.999+01:00", &stamps), Ok(0));
    assert_eq!(
        version_at_timestamp("2026-03-01T11:00:00Z", &stamps),
        Err(LakehouseError::NoVersionAtOrBefore)
    );
}

#[test]
fn version_at_timestamp_errors() {
    let stamps = vec!["2026-03-01T12:00:00Z".to_string(), "yesterday".to_string()];
    assert_eq!(
        version_at_timestamp("not a time", &stamps),
        Err(LakehouseError::InvalidTimestamp)
    );
    assert_eq!(
        version_at_timestamp("2026-03-02T00:00:00Z", &stamps),
        Err(LakehouseError::MalformedCommitTimestamp { version: 1 })
    );
    assert_eq!(
        version_at_timestamp("2026-03-02T00:00:00Z", &Vec::new()),
        Err(LakehouseError::NoCommittedVersions)
    );
}

#[test]
fn commit_timestamp_is_read_from_first_commit_info() {
    let mut lines: Vec<Option<Action>> = committed(4, vec![make_add("data/x.parquet")])
        .into_iter()
        .map(Some)
        .collect();
    lines.push(None);
    let ts = read_commit_timestamp(4, lines).expect("timestamp before the bad line");
    assert!(!ts.is_empty());

    let bad_first = vec![None, Some(make_add("data/x.parquet"))];
    assert_eq!(
        read_commit_timestamp(4, bad_first),
        Err(LakehouseError::InvalidLogLine { version: 4, line: 0 })
    );
    let no_info = vec![Some(make_add("data/x.parquet"))];
    assert_eq!(
        read_commit_timestamp(4, no_info),
        Err(LakehouseError::MissingCommitInfo { version: 4 })
    );
}

#[test]
fn resolve_version_rules() {
    assert!(matches!(resolve_version(Some(3), None), Ok(VersionChoice::Exact(3))));
    assert!(matches!(
        resolve_version(None, Some("2026-03-01T12:00:00Z".to_string())),
        Ok(VersionChoice::AtTimestamp(ref t)) if t == "2026-03-01T12:00:00Z"
    ));
    assert!(matches!(resolve_version(None, None), Ok(VersionChoice::Latest)));
    assert!(matches!(
        resolve_version(Some(1), Some("2026-03-01T12:00:00Z".to_string())),
        Err(LakehouseError::VersionAndTimestampBothSet)
    ));
}

#[test]
fn commit_refuses_committed_version() {
    let names = vec!["00000000000000000000.json".to_string()];
    assert!(matches!(
        commit(0, vec![make_add("data/x.parquet")], CommitOptions::default(), &names),
        Err(LakehouseError::VersionAlreadyCommitted { version: 0 })
    ));
    let tmp_only = vec!["00000000000000000000.json.tmp".to_string()];
    assert!(commit(0, vec![make_add("data/x.parquet")], CommitOptions::default(), &tmp_only).is_ok());
}

#[test]
fn commit_at_stamps_given_timestamp() {
    let plan = commit_at(3, vec![make_add("data/x.parquet")], CommitOptions::default(), "2026-03-01T12:00:00Z".to_string());
    assert_eq!(timestamp_of(3, &plan.actions), "2026-03-01T12:00:00Z");
}

#[test]
fn committed_timestamp_resolves_to_its_version() {
    let v0 = committed(0, vec![make_add("data/a.parquet")]);
    let ts = timestamp_of(0, &v0);
    assert_eq!(version_at_timestamp(&ts, &vec![ts.clone()]), Ok(0));
}

#[test]
fn read_reports_first_fault_in_order() {
    let good: Vec<Option<Action>> = committed(0, vec![make_add("data/a.parquet")])
        .into_iter()
        .map(Some)
        .collect();
    let mut bad = good.clone();
    bad.push(None);
    let log = vec![Some(good.clone()), Some(bad), None];
    assert!(matches!(
        read(2, log),
        Err(LakehouseError::InvalidLogLine { version: 1, line: 2 })
    ));
    let log = vec![Some(good.clone()), None, Some(vec![None])];
    assert!(matches!(read(2, log), Err(LakehouseError::MissingLogFile { version: 1 })));
    assert_eq!(
        check_log_file(5, vec![None]).err(),
        Some(LakehouseError::InvalidLogLine { version: 5, line: 0 })
    );
}

#[test]
fn replay_applies_commits_in_order() {
    let files = replay(vec![
        vec![make_add("data/a.parquet"), make_add("data/b.parquet")],
        vec![make_remove("data/a.parquet")],
    ]);
    assert_eq!(files.len(), 1);
    assert_eq!(files[0].path, "data/b.parquet");
}
