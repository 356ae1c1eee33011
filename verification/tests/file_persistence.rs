use xiaolin_agent::file_persistence::{extract_file_path_from_args, extract_file_paths_from_args, FileArtifact, FileChange, FileOp, SessionFileTracker};

#[test]
fn record_and_list_files() {
    let mut tracker = SessionFileTracker::new();
    tracker.record(String::from("src/main.rs"), FileOp::Modified, "edit_file");
    tracker.record(String::from("src/lib.rs"), FileOp::Created, "write_file");
    tracker.record(String::from("old.txt"), FileOp::Deleted, "shell");

    let files = tracker.list_session_files();
    assert_eq!(files.len(), 3);
    assert_eq!(tracker.file_count(), 3);
    assert_eq!(tracker.operation_count(), 3);
}

#[test]
fn latest_op_wins_for_same_file() {
    let mut tracker = SessionFileTracker::new();
    tracker.record(String::from("file.rs"), FileOp::Created, "write_file");
    tracker.record(String::from("file.rs"), FileOp::Modified, "edit_file");

    assert_eq!(tracker.file_count(), 1);
    assert_eq!(tracker.operation_count(), 2);

    let files = tracker.list_session_files();
    assert_eq!(*files[0].1, FileOp::Modified);
}

#[test]
fn change_summary_format() {
    let mut tracker = SessionFileTracker::new();
    tracker.record(String::from("a.rs"), FileOp::Created, "write_file");
    tracker.record(String::from("b.rs"), FileOp::Modified, "edit_file");
    tracker.record(String::from("c.rs"), FileOp::Deleted, "shell");

    let summary = tracker.change_summary();
    assert!(summary.contains("1 created"));
    assert!(summary.contains("1 modified"));
    assert!(summary.contains("1 deleted"));
    assert!(summary.contains("+ a.rs"));
    assert!(summary.contains("~ b.rs"));
    assert!(summary.contains("- c.rs"));
}

#[test]
fn empty_tracker_summary() {
    let tracker = SessionFileTracker::new();
    assert_eq!(tracker.change_summary(), "No file changes in this session.");
    assert_eq!(tracker.file_count(), 0);
    assert!(tracker.list_session_files().is_empty());
}

#[test]
fn summary_is_sorted_by_path_components() {
    let mut tracker = SessionFileTracker::new();
    tracker.record(String::from("src.rs"), FileOp::Created, "write_file");
    tracker.record(String::from("src/lib.rs"), FileOp::Modified, "edit_file");
    tracker.record(String::from("a.rs"), FileOp::Created, "write_file");
    let summary = tracker.change_summary();
    assert_eq!(
        summary,
        "Session file changes: 2 created, 1 modified, 0 deleted\n  + a.rs\n  ~ src/lib.rs\n  + src.rs"
    );
    let files = tracker.list_session_files();
    let names: Vec<&str> = files.iter().map(|(p, _)| p.as_str()).collect();
    assert_eq!(names, vec!["a.rs", "src/lib.rs", "src.rs"]);
}

#[test]
fn same_path_written_differently_is_one_file() {
    let mut tracker = SessionFileTracker::new();
    tracker.record(String::from("dir/file.rs"), FileOp::Created, "write_file");
    tracker.record(String::from("dir//file.rs"), FileOp::Deleted, "shell");
    assert_eq!(tracker.file_count(), 1);
    let files = tracker.list_session_files();
    assert_eq!(files[0].0, "dir/file.rs");
    assert_eq!(*files[0].1, FileOp::Deleted);
}

#[test]
fn changes_keep_order_and_rebuild() {
    let mut tracker = SessionFileTracker::new();
    tracker.record(String::from("x.rs"), FileOp::Created, "write_file");
    tracker.record(String::from("y.rs"), FileOp::Created, "write_file");
    tracker.record(String::from("x.rs"), FileOp::Deleted, "shell");
    let changes: Vec<FileChange> = tracker.all_changes().to_vec();
    assert_eq!(changes.len(), 3);
    assert_eq!(changes[2].path, "x.rs");
    assert_eq!(changes[2].tool_name, "shell");
    let rebuilt = SessionFileTracker::from_changes(changes);
    assert_eq!(rebuilt.file_count(), 2);
    assert_eq!(rebuilt.operation_count(), 3);
    assert_eq!(rebuilt.change_summary(), tracker.change_summary());
}

#[test]
fn artifact_operation_names() {
    let a = FileArtifact::new("s1".into(), "f.rs".into(), FileOp::Deleted, "call-1".into(), 42);
    assert_eq!(a.operation_str(), "deleted");
    assert_eq!(a.bytes, 42);
    assert_eq!(a.session_id, "s1");
    assert_eq!(FileOp::Created.as_str(), "created");
    assert_eq!(FileOp::Modified.as_str(), "modified");
}

#[test]
fn file_path_is_read_from_the_first_known_member() {
    assert_eq!(extract_file_path_from_args(r#"{"file_path":"/a","path":"/b"}"#), Some("/b".to_string()));
    assert_eq!(extract_file_path_from_args(r#"{"filename":"x.txt"}"#), Some("x.txt".to_string()));
    assert_eq!(extract_file_path_from_args(r#"{"path":1,"target_path":"/t"}"#), Some("/t".to_string()));
    assert_eq!(extract_file_path_from_args(r#"{"content":"x"}"#), None);
    assert_eq!(extract_file_path_from_args("not json"), None);
}

#[test]
fn multi_edit_paths_come_from_each_entry() {
    let args = r#"{"edits":[{"path":"a.rs","old":"x"},{"old":"y"},{"file_path":"b.rs"},7]}"#;
    assert_eq!(extract_file_paths_from_args("multi_edit", args), vec!["a.rs".to_string(), "b.rs".to_string()]);
    assert!(extract_file_paths_from_args("multi_edit", r#"{"path":"c.rs"}"#).is_empty());
    assert!(extract_file_paths_from_args("multi_edit", "not json").is_empty());
}

#[test]
fn other_tools_name_one_path() {
    assert_eq!(extract_file_paths_from_args("write_file", r#"{"filename":"d.txt"}"#), vec!["d.txt".to_string()]);
    assert!(extract_file_paths_from_args("write_file", r#"{"content":"x"}"#).is_empty());
    assert!(extract_file_paths_from_args("edit_file", "{").is_empty());
}
