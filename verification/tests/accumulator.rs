use xiaolin_agent::accumulator::{
    accumulate_tool_call, ensure_json_arguments, repair_json, try_merge_json_objects,
    try_split_concatenated_json, FunctionCallDelta, MergeResult, StreamToolCallDelta,
    ToolCallAccumulator,
};

#[test]
fn valid_json_passes_through() {
    let input = r#"{"path": "/tmp/test.rs"}"#;
    assert_eq!(ensure_json_arguments(input), input);
}

#[test]
fn empty_becomes_empty_object() {
    assert_eq!(ensure_json_arguments(""), "{}");
    assert_eq!(ensure_json_arguments("   "), "{}");
}

#[test]
fn truncated_json_gets_repaired() {
    let input = r#"{"path": "/tmp/test.rs", "content": "hello"#;
    let repaired = ensure_json_arguments(input);
    assert!(
        serde_json::from_str::<serde_json::Value>(&repaired).is_ok(),
        "repaired JSON should be valid: {repaired}"
    );
}

#[test]
fn unclosed_brace_gets_closed() {
    let input = r#"{"key": "value""#;
    let repaired = ensure_json_arguments(input);
    assert!(
        serde_json::from_str::<serde_json::Value>(&repaired).is_ok(),
        "repaired JSON should be valid: {repaired}"
    );
}

#[test]
fn totally_invalid_falls_back() {
    let input = "not json at all";
    let repaired = ensure_json_arguments(input);
    assert!(
        serde_json::from_str::<serde_json::Value>(&repaired).is_ok(),
        "fallback JSON should be valid: {repaired}"
    );
}

#[test]
fn split_concatenated_json_objects() {
    let input = r#"{"command": "ls", "description": "list"}{"command": "pwd", "description": "show cwd"}"#;
    let result = try_split_concatenated_json(input);
    assert!(result.is_some());
    let parts = result.unwrap();
    assert_eq!(parts.len(), 2);
    assert!(parts[0].contains("\"ls\""));
    assert!(parts[1].contains("\"pwd\""));
}

#[test]
fn split_three_concatenated_objects() {
    let input = r#"{"command": "a"}{"command": "b"}{"command": "c"}"#;
    let result = try_split_concatenated_json(input);
    assert!(result.is_some());
    assert_eq!(result.unwrap().len(), 3);
}

#[test]
fn single_valid_json_not_split() {
    let input = r#"{"command": "ls -la", "description": "list all"}"#;
    let result = try_split_concatenated_json(input);
    assert!(result.is_none());
}

#[test]
fn to_tool_calls_splits_on_key_conflict() {
    let acc = ToolCallAccumulator {
        id: "call_123".to_string(),
        name: "shell_exec".to_string(),
        arguments: r#"{"command": "ls"}{"command": "pwd"}"#.to_string(),
    };
    let calls = acc.to_tool_calls();
    assert_eq!(calls.len(), 2, "key conflict → split into separate calls");
    assert_eq!(calls[0].id, "call_123");
    assert_eq!(calls[1].id, "call_123_split_1");
    assert!(calls[0].arguments.contains("\"ls\""));
    assert!(calls[1].arguments.contains("\"pwd\""));
}

#[test]
fn to_tool_calls_merges_fragmented_args() {
    let acc = ToolCallAccumulator {
        id: "call_789".to_string(),
        name: "write_file".to_string(),
        arguments: r##"{"file_path": "/tmp/test.md"}{"content": "# Hello"}"##.to_string(),
    };
    let calls = acc.to_tool_calls();
    assert_eq!(calls.len(), 1, "distinct keys → merge into single call");
    assert_eq!(calls[0].id, "call_789");
    let args: serde_json::Value = serde_json::from_str(&calls[0].arguments).unwrap();
    assert_eq!(args["file_path"], "/tmp/test.md");
    assert_eq!(args["content"].as_str().unwrap(), "# Hello");
}

#[test]
fn to_tool_calls_merges_three_fragments() {
    let acc = ToolCallAccumulator {
        id: "call_abc".to_string(),
        name: "write_file".to_string(),
        arguments: r#"{"file_path": "/tmp/x"}{"content": "data"}{"description": "test"}"#.to_string(),
    };
    let calls = acc.to_tool_calls();
    assert_eq!(calls.len(), 1, "three distinct-key fragments → merge");
    let args: serde_json::Value = serde_json::from_str(&calls[0].arguments).unwrap();
    assert_eq!(args["file_path"], "/tmp/x");
    assert_eq!(args["content"], "data");
    assert_eq!(args["description"], "test");
}

#[test]
fn to_tool_calls_single_normal_call() {
    let acc = ToolCallAccumulator {
        id: "call_456".to_string(),
        name: "shell_exec".to_string(),
        arguments: r#"{"command": "echo hello"}"#.to_string(),
    };
    let calls = acc.to_tool_calls();
    assert_eq!(calls.len(), 1);
    assert_eq!(calls[0].id, "call_456");
}

#[test]
fn split_handles_nested_braces_in_strings() {
    let input = r#"{"command": "echo '{hello}'"} {"command": "cat /tmp/x"}"#;
    let result = try_split_concatenated_json(input);
    assert!(result.is_some());
    let parts = result.unwrap();
    assert_eq!(parts.len(), 2);
}

#[test]
fn merge_result_with_partial_key_overlap() {
    let acc = ToolCallAccumulator {
        id: "call_overlap".to_string(),
        name: "test_tool".to_string(),
        arguments: r#"{"a": 1, "b": 2}{"b": 3, "c": 4}"#.to_string(),
    };
    let calls = acc.to_tool_calls();
    assert_eq!(calls.len(), 2, "partial key overlap → split");
}

#[test]
fn repair_closes_strings_and_brackets_in_order() {
    assert_eq!(repair_json(r#"{"a": [1, {"b": "x"#), r#"{"a": [1, {"b": "x"}]}"#);
    assert_eq!(repair_json(r#"{"q": "a \" b"#), r#"{"q": "a \" b"}"#);
}

#[test]
fn repair_falls_back_to_raw_member() {
    assert_eq!(repair_json("not json"), r#"{"_raw":"not json"}"#);
}

#[test]
fn split_stops_at_trailing_text_and_fails_on_open_object() {
    let parts = try_split_concatenated_json(r#"{"a":1} {"b":2} trailing"#).unwrap();
    assert_eq!(parts, vec![r#"{"a":1}"#.to_string(), r#"{"b":2}"#.to_string()]);
    assert!(try_split_concatenated_json(r#"{"a":1}{"b":"#).is_none());
    assert!(try_split_concatenated_json(r#"{"a":1} x"#).is_none());
    assert!(try_split_concatenated_json(r#"[1]{"a":1}"#).is_none());
}

#[test]
fn merge_keeps_apart_non_objects() {
    let objs = vec![r#"{"a":1}"#.to_string(), "[2]".to_string()];
    match try_merge_json_objects(&objs) {
        MergeResult::Split(v) => assert_eq!(v, objs),
        MergeResult::Merged(m) => panic!("unexpected merge {m}"),
    }
    match try_merge_json_objects(&[r#"{"b":1}"#.to_string(), r#"{"a":2}"#.to_string()]) {
        MergeResult::Merged(m) => assert_eq!(m, r#"{"a":2,"b":1}"#),
        MergeResult::Split(_) => panic!("expected a merge"),
    }
}

#[test]
fn deltas_accumulate_by_index() {
    let mut accum: Vec<ToolCallAccumulator> = Vec::new();
    let delta = |index: u32, id: Option<&str>, name: Option<&str>, args: Option<&str>| StreamToolCallDelta {
        index,
        id: id.map(String::from),
        call_type: Some("function".to_string()),
        function: Some(FunctionCallDelta { name: name.map(String::from), arguments: args.map(String::from) }),
    };
    accumulate_tool_call(&mut accum, &delta(1, Some("c1"), Some("read_file"), Some("{\"pa")));
    accumulate_tool_call(&mut accum, &delta(1, Some(""), None, Some("th\":\"/x\"}")));
    accumulate_tool_call(&mut accum, &StreamToolCallDelta { index: 0, id: None, call_type: None, function: None });
    assert_eq!(accum.len(), 2);
    assert_eq!(accum[0].id, "");
    assert_eq!(accum[1].id, "c1");
    assert_eq!(accum[1].name, "read_file");
    assert_eq!(accum[1].arguments, "{\"path\":\"/x\"}");
    let calls = accum[1].to_tool_calls();
    assert_eq!(calls.len(), 1);
    assert_eq!(calls[0].arguments, "{\"path\":\"/x\"}");
}
