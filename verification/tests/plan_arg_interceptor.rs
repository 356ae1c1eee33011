use xiaolin_agent::plan_arg_interceptor::{unescape_char, unicode_unescape, JsonEvent, JsonStreamParser, PlanArgInterceptor};


fn make_interceptor(path: &str) -> PlanArgInterceptor {
    PlanArgInterceptor::new(String::from(path))
}

#[test]
fn basic_write_file_extraction() {
    let mut interceptor = make_interceptor("/tmp/plan.md");
    interceptor.on_tool_start("write_file");

    let json = r##"{"file_path": "/tmp/plan.md", "content": "# Plan\n\nStep 1"}"##;
    let deltas = interceptor.feed(json);

    let combined: String = deltas.into_iter().collect();
    assert_eq!(combined, "# Plan\n\nStep 1");
}

#[test]
fn chunked_input() {
    let mut interceptor = make_interceptor("/tmp/plan.md");
    interceptor.on_tool_start("write_file");

    let mut all_deltas = Vec::new();
    // Simulate chunks arriving
    all_deltas.extend(interceptor.feed(r#"{"file_pa"#));
    all_deltas.extend(interceptor.feed(r#"th": "/tmp/plan.md", "#));
    all_deltas.extend(interceptor.feed(r#""conte"#));
    all_deltas.extend(interceptor.feed(r#"nt": "Hello"#));
    all_deltas.extend(interceptor.feed(r#" World"}"#));

    let combined: String = all_deltas.into_iter().collect();
    assert_eq!(combined, "Hello World");
}

#[test]
fn escape_sequences() {
    let mut interceptor = make_interceptor("/tmp/plan.md");
    interceptor.on_tool_start("write_file");

    let json = r#"{"file_path": "/tmp/plan.md", "content": "line1\nline2\ttab\""}"#;
    let deltas = interceptor.feed(json);

    let combined: String = deltas.into_iter().collect();
    assert_eq!(combined, "line1\nline2\ttab\"");
}

#[test]
fn unicode_escape() {
    let mut interceptor = make_interceptor("/tmp/plan.md");
    interceptor.on_tool_start("write_file");

    let json = r#"{"file_path": "/tmp/plan.md", "content": "\u4e2d\u6587"}"#;
    let deltas = interceptor.feed(json);

    let combined: String = deltas.into_iter().collect();
    assert_eq!(combined, "中文");
}

#[test]
fn content_before_path() {
    let mut interceptor = make_interceptor("/tmp/plan.md");
    interceptor.on_tool_start("write_file");

    // Content arrives first, then path
    let json = r#"{"content": "buffered text", "file_path": "/tmp/plan.md"}"#;
    let deltas = interceptor.feed(json);

    let combined: String = deltas.into_iter().collect();
    assert_eq!(combined, "buffered text");
}

#[test]
fn content_before_path_mismatch() {
    let mut interceptor = make_interceptor("/tmp/plan.md");
    interceptor.on_tool_start("write_file");

    let json = r#"{"content": "should be discarded", "file_path": "/tmp/other.md"}"#;
    let deltas = interceptor.feed(json);

    assert!(deltas.is_empty(), "non-matching path should discard buffered content");
}

#[test]
fn non_plan_file_ignored() {
    let mut interceptor = make_interceptor("/tmp/plan.md");
    interceptor.on_tool_start("write_file");

    let json = r#"{"file_path": "/tmp/other.rs", "content": "fn main() {}"}"#;
    let deltas = interceptor.feed(json);

    assert!(deltas.is_empty());
}

#[test]
fn wrong_tool_ignored() {
    let mut interceptor = make_interceptor("/tmp/plan.md");
    interceptor.on_tool_start("shell_exec");

    let json = r#"{"command": "echo hello"}"#;
    let deltas = interceptor.feed(json);

    assert!(deltas.is_empty());
}

#[test]
fn escape_across_chunks() {
    let mut interceptor = make_interceptor("/tmp/plan.md");
    interceptor.on_tool_start("write_file");

    let mut all_deltas = Vec::new();
    all_deltas.extend(interceptor.feed(r#"{"file_path": "/tmp/plan.md", "content": "a\"#));
    // The backslash came at end of chunk, 'n' comes in next chunk
    all_deltas.extend(interceptor.feed(r#"nb"}"#));

    let combined: String = all_deltas.into_iter().collect();
    assert_eq!(combined, "a\nb");
}

#[test]
fn unicode_across_chunks() {
    let mut interceptor = make_interceptor("/tmp/plan.md");
    interceptor.on_tool_start("write_file");

    let mut all_deltas = Vec::new();
    all_deltas.extend(interceptor.feed(r#"{"file_path": "/tmp/plan.md", "content": "\u4e"#));
    all_deltas.extend(interceptor.feed(r#"2d"}"#));

    let combined: String = all_deltas.into_iter().collect();
    assert_eq!(combined, "中");
}

#[test]
fn relative_path_tail_match() {
    let mut interceptor = make_interceptor("/home/user/project/.xiaolin/sessions/abc/plan.md");
    interceptor.on_tool_start("write_file");

    let json = r#"{"file_path": ".xiaolin/sessions/abc/plan.md", "content": "works"}"#;
    let deltas = interceptor.feed(json);

    let combined: String = deltas.into_iter().collect();
    assert_eq!(combined, "works");
}

#[test]
fn reset_allows_reuse() {
    let mut interceptor = make_interceptor("/tmp/plan.md");

    // First tool call — non-matching
    interceptor.on_tool_start("write_file");
    interceptor.feed(r#"{"file_path": "/tmp/other.md", "content": "x"}"#);

    // Second tool call — matching
    interceptor.on_tool_start("write_file");
    let deltas = interceptor.feed(r#"{"file_path": "/tmp/plan.md", "content": "y"}"#);

    let combined: String = deltas.into_iter().collect();
    assert_eq!(combined, "y");
}

#[test]
fn unescape_table() {
    assert_eq!(unescape_char('n'), '\n');
    assert_eq!(unescape_char('t'), '\t');
    assert_eq!(unescape_char('r'), '\r');
    assert_eq!(unescape_char('"'), '"');
    assert_eq!(unescape_char('\\'), '\\');
    assert_eq!(unescape_char('/'), '/');
    assert_eq!(unicode_unescape(&['4', 'e', '2', 'd']), vec!['\u{4e2d}']);
}

#[test]
fn chunking_does_not_change_output() {
    let json = r#"{"file_path": "/tmp/plan.md", "content": "a\"b\\c\u00e9d"}"#;
    let mut whole = make_interceptor("/tmp/plan.md");
    whole.on_tool_start("write_file");
    let expected: String = whole.feed(json).into_iter().collect();
    assert_eq!(expected, "a\"b\\c\u{e9}d");
    for split in 1..json.len() {
        if !json.is_char_boundary(split) {
            continue;
        }
        let mut it = make_interceptor("/tmp/plan.md");
        it.on_tool_start("write_file");
        let mut got: String = it.feed(&json[..split]).into_iter().collect();
        got.extend(it.feed(&json[split..]));
        assert_eq!(got, expected, "split at {split}");
    }
}

#[test]
fn edit_file_is_also_tracked() {
    let mut it = make_interceptor("/tmp/plan.md");
    assert!(it.on_tool_start("edit_file"));
    assert!(!it.on_tool_start("read_file"));
    assert!(it.on_tool_start("create_file"));
}

#[test]
fn nested_object_keys_are_skipped() {
    let mut p = JsonStreamParser::new();
    let events = p.feed(r#"{"meta": {"a": 1, "file_path": "/x", "deep": [1, {"k": "v"}]}, "file_path": "/real"}"#);
    let pairs: Vec<(String, String)> = events
        .into_iter()
        .filter_map(|e| match e {
            JsonEvent::KeyValue { key, value } => Some((key, value)),
            _ => None,
        })
        .collect();
    assert_eq!(pairs, vec![("file_path".to_string(), "/real".to_string())]);
}
