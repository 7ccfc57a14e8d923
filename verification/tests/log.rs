use std::collections::HashMap;

use lakehouse::log::{
    commit, log_file_contents, split_lines, Action, AddFile, CommitOptions,
};

#[test]
fn commit_options_default_is_write() {
    let opts = CommitOptions::default();
    assert_eq!(opts.operation, "write");
    assert_eq!(opts.txn_id, None);
    assert_eq!(opts.app_id, None);
}

#[test]
fn commit_puts_commit_info_first() {
    let add = Action::Add(AddFile {
        path: "data/f.parquet".to_string(),
        size: 8192,
        row_count: 100,
        partition_values: HashMap::new(),
    });
    let plan = commit(
        0,
        vec![add],
        CommitOptions {
            operation: "test-op".to_string(),
            txn_id: Some("txn-123".to_string()),
            app_id: Some("test-app".to_string()),
        },
        &Vec::new(),
    )
    .expect("commit");
    assert_eq!(plan.log_file_name, "00000000000000000000.json");
    assert_eq!(plan.tmp_file_name, "00000000000000000000.json.tmp");
    assert_eq!(plan.actions.len(), 2);
    match &plan.actions[0] {
        Action::CommitInfo(ci) => {
            assert_eq!(ci.operation, "test-op");
            assert_eq!(ci.txn_id.as_deref(), Some("txn-123"));
            assert_eq!(ci.app_id.as_deref(), Some("test-app"));
            assert!(chrono::DateTime::parse_from_rfc3339(&ci.timestamp).is_ok());
        }
        other => panic!("first action must be commitInfo, got {other:?}"),
    }
    match &plan.actions[1] {
        Action::Add(f) => {
            assert_eq!(f.path, "data/f.parquet");
            assert_eq!(f.size, 8192);
            assert_eq!(f.row_count, 100);
        }
        other => panic!("second action must be add, got {other:?}"),
    }
}

#[test]
fn log_file_contents_ends_each_line() {
    let lines = vec!["{\"a\":1}".to_string(), "{\"b\":2}".to_string()];
    assert_eq!(log_file_contents(&lines), "{\"a\":1}\n{\"b\":2}\n");
    assert_eq!(log_file_contents(&Vec::new()), "");
}

#[test]
fn split_lines_follows_str_lines() {
    for text in ["", "a", "a\n", "a\nb", "a\r\nb\r\n", "\n", "\n\n", "a\r", "a\rb\n", "x\n\ny"] {
        let expected: Vec<String> = text.lines().map(|l| l.to_string()).collect();
        assert_eq!(split_lines(text), expected, "text {text:?}");
    }
}

#[test]
fn log_file_read_back_gives_its_lines() {
    let lines = vec![
        "{\"commitInfo\":{}}".to_string(),
        String::new(),
        "{\"add\":{\"path\":\"data/a\\nb\"}}".to_string(),
    ];
    assert_eq!(split_lines(&log_file_contents(&lines)), lines);
}
