use xiaolin_agent::dispatcher::{
    build_dedup_map, dedup_sources, duplicate_read_notice, extract_command_from_args,
    extract_path_from_args, extract_target_key, partition_by_concurrency, plan_write_target_of,
    pre_execution_checks, validate_tool_arguments, ModeFacts, ToolCall,
};

fn make_tool_call(id: &str, name: &str, arguments: &str) -> ToolCall {
    ToolCall { id: id.into(), name: name.into(), arguments: arguments.into() }
}

#[test]
fn extract_command_from_args_works() {
    let args = r#"{"command":"ls -la","cwd":"/tmp"}"#;
    assert_eq!(extract_command_from_args(args), Some("ls -la".into()));
    assert_eq!(extract_command_from_args("{}"), None);
}

#[test]
fn dedup_map_detects_duplicates() {
    let calls = vec![
        make_tool_call("1", "read_file", r#"{"path":"/tmp/a.txt"}"#),
        make_tool_call("2", "read_file", r#"{"path":"/tmp/a.txt"}"#),
        make_tool_call("3", "read_file", r#"{"path":"/tmp/b.txt"}"#),
    ];
    let dedup = build_dedup_map(&calls);
    assert_eq!(dedup[0], None);
    assert_eq!(dedup[1], Some(0));
    assert_eq!(dedup[2], None);
}

#[test]
fn only_read_file_calls_are_deduplicated() {
    let calls = vec![
        make_tool_call("1", "write_file", r#"{"path":"/tmp/a.txt"}"#),
        make_tool_call("2", "write_file", r#"{"path":"/tmp/a.txt"}"#),
        make_tool_call("3", "read_file", "not json"),
        make_tool_call("4", "read_file", "not json"),
    ];
    let dedup = build_dedup_map(&calls);
    assert_eq!(dedup, vec![None, None, None, None]);
}

#[test]
fn extract_target_key_reads_path_of_read_file() {
    assert_eq!(extract_target_key("read_file", r#"{"path":"/x"}"#), Some("/x".to_string()));
    assert_eq!(extract_target_key("read_file", r#"{"path":7}"#), None);
    assert_eq!(extract_target_key("list_dir", r#"{"path":"/x"}"#), None);
}

#[test]
fn later_duplicates_point_at_the_first_occurrence() {
    let targets = vec![
        Some("a".to_string()),
        None,
        Some("a".to_string()),
        Some("b".to_string()),
        Some("a".to_string()),
        Some("b".to_string()),
    ];
    assert_eq!(dedup_sources(&targets), vec![None, None, Some(0), None, Some(0), Some(3)]);
}

#[test]
fn partition_separates_parallel_safe_from_sequential() {
    let dedup = vec![None, Some(0), None, None, None];
    let guarded = vec![false, false, true, false, true];
    let parallel = vec![true, true, true, false, false];
    let (concurrent, sequential) = partition_by_concurrency(&dedup, &guarded, &parallel);
    assert_eq!(concurrent, vec![0]);
    assert_eq!(sequential, vec![2, 3, 4]);
}

#[test]
fn duplicate_notice_names_the_original_call() {
    assert_eq!(
        duplicate_read_notice("call_7"),
        "[duplicate read_file in same batch — identical to call_id call_7]"
    );
}

#[test]
fn plan_write_target_names_the_written_file() {
    assert_eq!(plan_write_target_of("write_file", r#"{"file_path":"/p/plan.md","path":"/x"}"#), Some("/p/plan.md".to_string()));
    assert_eq!(plan_write_target_of("edit_file", r#"{"path":"/p/plan.md"}"#), Some("/p/plan.md".to_string()));
    assert_eq!(plan_write_target_of("edit_file", r#"{"file_path":7,"path":"/p/plan.md"}"#), None);
    assert_eq!(plan_write_target_of("shell_exec", r#"{"path":"/p/plan.md"}"#), None);
    assert_eq!(extract_path_from_args("{}"), None);
}

#[test]
fn arguments_are_validated_against_required_parameters() {
    let req = vec!["a".to_string(), "b".to_string(), "c".to_string()];
    assert_eq!(validate_tool_arguments("t", &[], "not json"), None);
    assert_eq!(validate_tool_arguments("t", &req, r#"{"a":1,"b":2,"c":3}"#), None);
    assert_eq!(
        validate_tool_arguments("t", &req, r#"{"a":1}"#),
        Some("Missing required parameter(s) for tool 't': b, c".to_string())
    );
    assert_eq!(
        validate_tool_arguments("t", &req, "[1,2]"),
        Some("Arguments for tool 't' must be a JSON object, got: [1,2]".to_string())
    );
    let invalid = validate_tool_arguments("t", &req, "nope").unwrap();
    assert!(invalid.starts_with("Invalid JSON arguments for tool 't': "));
    assert!(invalid.ends_with(". Please provide valid JSON."));
}

#[test]
fn pre_execution_checks_in_order() {
    let blocked = ModeFacts {
        blocks_tool: true,
        blocked_message: "blocked in plan mode".to_string(),
        writes_plan_file: Some(false),
        plan_mode: true,
        readonly_violation: None,
    };
    let r = pre_execution_checks("shell_exec", "{}", false, Some(&blocked), None).unwrap();
    assert_eq!(r.message, "Tool 'shell_exec' is not in the allowed tool list.");
    assert!(!r.execution_denied);
    let r = pre_execution_checks("write_file", "{}", true, Some(&blocked), None).unwrap();
    assert_eq!(r.message, "blocked in plan mode");
    assert!(r.execution_denied);
    let plan_write = ModeFacts { writes_plan_file: Some(true), ..blocked.clone() };
    assert!(pre_execution_checks("write_file", "{}", true, Some(&plan_write), None).is_none());
    let shell = ModeFacts {
        blocks_tool: false,
        readonly_violation: Some("rm is not read-only".to_string()),
        ..blocked.clone()
    };
    let r = pre_execution_checks("shell_exec", r#"{"command":"rm -rf x"}"#, true, Some(&shell), None).unwrap();
    assert!(r.message.starts_with("Plan mode (read-only) blocks this command: rm is not read-only. Only read-only"));
    let req = vec!["path".to_string()];
    let r = pre_execution_checks("read_file", "{}", true, None, Some(&req)).unwrap();
    assert_eq!(r.message, "Missing required parameter(s) for tool 'read_file': path");
    assert!(pre_execution_checks("read_file", r#"{"path":"/x"}"#, true, None, Some(&req)).is_none());
}
