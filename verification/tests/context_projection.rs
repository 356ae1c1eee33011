use xiaolin_agent::context_projection::{
    build_handle_only, build_metadata_projection, build_minimal_projection, classify_relevance, tail_excerpt,
    ProjectionProvenance, classify_type_label, extract_handle_from_message,
    safe_truncate_line, ContextProjectionPipeline, OutputRelevance, OutputSizeClass, ProjectionBudget,
    ProjectionPlan,
};

fn repeat_char(c: char, n: usize) -> String {
    std::iter::repeat(c).take(n).collect()
}

#[test]
fn test_extract_handle_from_legacy_format() {
    let text = "Result: <output-handle>out_abc_def</output-handle>\nPreview: ...";
    assert_eq!(
        extract_handle_from_message(text),
        Some("out_abc_def".to_string())
    );
}

#[test]
fn test_extract_handle_from_projection_format() {
    let text = "[shell/test output \u{2014} handle: out_sess123_456]\n- Tool: Bash\n- Size: 5 bytes\n";
    assert_eq!(
        extract_handle_from_message(text),
        Some("out_sess123_456".to_string())
    );
}

#[test]
fn test_extract_handle_from_handle_only_format() {
    let text = "[output stored \u{2014} handle: out_handle_only_999]\nUse output_read...\n";
    assert_eq!(
        extract_handle_from_message(text),
        Some("out_handle_only_999".to_string())
    );
}

#[test]
fn test_extract_handle_no_handle_returns_none() {
    let text = "plain text output with no handle";
    assert_eq!(extract_handle_from_message(text), None);
}

#[test]
fn test_classify_relevance_errors_are_high() {
    assert_eq!(
        classify_relevance(0, 10, "Bash", "error: compilation failed", &[]),
        OutputRelevance::High
    );
    assert_eq!(
        classify_relevance(0, 10, "unknown", "FAILED: test_foo", &[]),
        OutputRelevance::High
    );
}

#[test]
fn test_classify_relevance_recent_messages_high() {
    assert_eq!(
        classify_relevance(9, 10, "unknown", "some output", &[]),
        OutputRelevance::High
    );
}

#[test]
fn test_classify_relevance_old_unknown_low() {
    assert_eq!(
        classify_relevance(0, 10, "web_search", "some results", &[]),
        OutputRelevance::Low
    );
}

#[test]
fn test_safe_truncate_line_cjk_and_emoji() {
    let cjk_line = repeat_char('\u{4f60}', 250);
    let result = safe_truncate_line(&cjk_line, 500);
    assert!(result.len() <= 500);
    assert!(result.ends_with("..."));
    assert!(!result.contains('\u{fffd}'));

    let emoji_line = repeat_char('\u{1f389}', 200);
    let result2 = safe_truncate_line(&emoji_line, 500);
    assert!(result2.len() <= 500);
    assert!(result2.ends_with("..."));

    let short = "hello world";
    let result3 = safe_truncate_line(short, 500);
    assert_eq!(result3, short);

    let ascii_500 = "x".repeat(500);
    let result4 = safe_truncate_line(&ascii_500, 500);
    assert_eq!(result4, ascii_500);

    let ascii_501 = "x".repeat(501);
    let result5 = safe_truncate_line(&ascii_501, 500);
    assert_eq!(result5.len(), 500);
    assert!(result5.ends_with("..."));
}

#[test]
fn handle_needs_out_prefix_and_tag_wins() {
    assert_eq!(extract_handle_from_message("[x \u{2014} handle: abc]"), None);
    assert_eq!(extract_handle_from_message("[x \u{2014} handle: out_1"), None);
    assert_eq!(
        extract_handle_from_message("<output-handle>tagged</output-handle> [y \u{2014} handle: out_2]"),
        Some("tagged".to_string())
    );
    assert_eq!(
        extract_handle_from_message("<output-handle>open only [y \u{2014} handle: out_2]"),
        Some("out_2".to_string())
    );
}

#[test]
fn relevance_boundary_and_references() {
    assert_eq!(classify_relevance(8, 10, "unknown", "plain", &[]), OutputRelevance::Low);
    assert_eq!(classify_relevance(9, 10, "unknown", "plain", &[]), OutputRelevance::High);
    assert_eq!(classify_relevance(0, 0, "unknown", "plain", &[]), OutputRelevance::Low);
    assert_eq!(classify_relevance(0, 10, "Grep", "plain", &[]), OutputRelevance::High);
    let content = "short\nthis line is definitely long enough to be probed by the check\nmore";
    let asst = vec![String::from("I saw `this line is definitely long enough to be` in the output")];
    assert_eq!(classify_relevance(0, 10, "unknown", content, &asst), OutputRelevance::High);
    let other = vec![String::from("nothing related")];
    assert_eq!(classify_relevance(0, 10, "unknown", content, &other), OutputRelevance::Low);
}

#[test]
fn type_labels_and_stub() {
    assert_eq!(classify_type_label("shell_exec"), "shell/test output");
    assert_eq!(classify_type_label("read_file"), "file read output");
    assert_eq!(classify_type_label("rg"), "search/grep output");
    assert_eq!(classify_type_label("list_dir"), "directory listing");
    assert_eq!(classify_type_label("TakeSnapshot"), "browser snapshot");
    assert_eq!(classify_type_label("mcp__github"), "JSON/structured output");
    assert_eq!(classify_type_label("other"), "text output");
    let stub = build_handle_only("Bash", "out_7");
    assert_eq!(
        stub,
        "[output stored \u{2014} handle: out_7]\nType: shell/test output\nUse output_read, output_search, or output_summary to recall content.\n"
    );
    assert_eq!(extract_handle_from_message(&stub), Some("out_7".to_string()));
}

#[test]
fn projection_budget_accounting() {
    let mut b = ProjectionBudget::default();
    b.record_inline(400);
    assert_eq!((b.raw_bytes, b.raw_tokens_estimate, b.inline_count), (400, 100, 1));
    b.record_handle_only_fallback(4000);
    assert_eq!(b.raw_bytes, 4400);
    assert_eq!(b.raw_tokens_estimate, 1100);
    assert_eq!(b.tokens_saved, 970);
    assert_eq!(b.handle_only_count, 1);
    b.record_handle_only_fallback(40);
    assert_eq!(b.tokens_saved, 970);
    assert_eq!(b.projected_count, 0);
}

#[test]
fn pipeline_plans_by_size_and_relevance() {
    let mut p = ContextProjectionPipeline::new();
    assert_eq!(p.plan_output(Some("h1"), OutputSizeClass::Small, OutputRelevance::Low, 100), ProjectionPlan::KeepInline);
    assert_eq!(p.plan_output(Some("h2"), OutputSizeClass::Medium, OutputRelevance::High, 100), ProjectionPlan::KeepInline);
    assert_eq!(p.plan_output(Some("h3"), OutputSizeClass::Medium, OutputRelevance::Low, 100), ProjectionPlan::Build { minimal: false });
    assert_eq!(p.plan_output(Some("h4"), OutputSizeClass::Large, OutputRelevance::High, 100), ProjectionPlan::Build { minimal: false });
    assert_eq!(p.plan_output(None, OutputSizeClass::Large, OutputRelevance::Low, 100), ProjectionPlan::Build { minimal: true });
    // The same handle is projected once per pass.
    assert_eq!(p.plan_output(Some("h3"), OutputSizeClass::Large, OutputRelevance::Low, 100), ProjectionPlan::Skip);
    assert_eq!(p.budget().inline_count, 2);
    assert_eq!(p.budget().raw_bytes, 200);
    p.reset();
    assert_eq!(p.plan_output(Some("h3"), OutputSizeClass::Small, OutputRelevance::Low, 8), ProjectionPlan::KeepInline);
    assert_eq!(p.budget().inline_count, 1);
}

#[test]
fn pipeline_falls_back_to_handles_when_budget_runs_out() {
    let mut p = ContextProjectionPipeline::default();
    p.set_projection_budget(100);
    assert!(p.settle_projection(OutputSizeClass::Medium, 4000, 240, 60));
    assert_eq!(p.budget().projected_count, 1);
    assert_eq!(p.budget().tokens_saved, 940);
    // 60 + 50 > 100: a medium output falls back to a handle-only stub.
    assert!(!p.settle_projection(OutputSizeClass::Medium, 400, 200, 50));
    assert_eq!(p.budget().handle_only_count, 1);
    assert_eq!(p.budget().tokens_saved, 940 + 70);
    // A large output that does not fit gets a handle-only stub too.
    assert!(!p.settle_projection(OutputSizeClass::Large, 8000, 200, 50));
    assert_eq!(p.budget().handle_only_count, 2);
    assert_eq!(p.budget().inline_count, 0);
    assert!(p.settle_projection(OutputSizeClass::Large, 8000, 160, 40));
    assert_eq!(p.budget().projected_tokens_estimate, 100);
}

#[test]
fn test_projection_budget_accounting() {
    let mut budget = ProjectionBudget::default();
    let proj = build_metadata_projection("Bash", "out_test", "some error output\n", 1000, 20);
    let projected_bytes: usize = proj.summary_lines.iter().map(|l| l.len()).sum::<usize>()
        + proj.excerpt.as_ref().map(|e| e.len()).unwrap_or(0);
    budget.record_projection(1000, projected_bytes, projected_bytes / 4);
    budget.record_inline(500);

    assert_eq!(budget.raw_bytes, 1500);
    assert_eq!(budget.projected_count, 1);
    assert_eq!(budget.inline_count, 1);
}

#[test]
fn metadata_projection_summarises_a_failed_output() {
    let p = build_metadata_projection("Bash", "out_test", "some error output\n", 1000, 20);
    assert_eq!(p.type_label, "shell/test output");
    assert_eq!(
        p.summary_lines,
        vec![
            "Tool: Bash".to_string(),
            "Size: 1000 bytes, 20 lines, ~250 tokens".to_string(),
            "Status: FAILED".to_string()
        ]
    );
    assert_eq!(p.excerpt.as_deref(), Some("some error output"));
    assert_eq!(p.handle, "out_test");
    assert_eq!(p.provenance, ProjectionProvenance::TypedSummary);
    assert_eq!(
        p.recall_guidance,
        vec![
            "output_read handle=out_test start_line=1 end_line=500".to_string(),
            "output_search handle=out_test pattern=<keyword>".to_string(),
            "output_tail handle=out_test lines=50".to_string()
        ]
    );
    assert!(p.is_failure);
}

#[test]
fn metadata_projection_of_a_clean_output_keeps_the_last_five_lines() {
    let long = "x".repeat(600);
    let content = format!("1\n2\n3\n4\n5\n{long}\n7");
    let p = build_metadata_projection("notes", "h", &content, 9, 7);
    assert!(!p.is_failure);
    assert_eq!(p.summary_lines.len(), 2);
    assert_eq!(p.type_label, "text output");
    let expected = format!("3\n4\n5\n{}...\n7", "x".repeat(497));
    assert_eq!(p.excerpt.as_deref(), Some(expected.as_str()));
    assert_eq!(tail_excerpt(""), None);
}

#[test]
fn minimal_projection_lists_size_and_handle() {
    let p = build_minimal_projection("Read", "out_9", 4001, 3);
    assert_eq!(p.type_label, "file read output");
    assert_eq!(
        p.summary_lines,
        vec!["Tool: Read".to_string(), "Size: 4001 bytes, 3 lines, ~1000 tokens".to_string()]
    );
    assert_eq!(p.excerpt, None);
    assert_eq!(p.provenance, ProjectionProvenance::AssetManifest);
    assert_eq!(
        p.recall_guidance,
        vec![
            "output_read handle=out_9 start_line=1 end_line=500".to_string(),
            "output_summary handle=out_9 \u{2014} get typed summary".to_string()
        ]
    );
    assert!(!p.is_failure);
}

#[test]
fn settled_projection_adds_its_statistics() {
    let mut p = ContextProjectionPipeline::default();
    assert!(p.settle_projection(OutputSizeClass::Large, 4000, 300, 70));
    let b = p.budget();
    assert_eq!((b.raw_bytes, b.raw_tokens_estimate, b.projected_bytes, b.projected_tokens_estimate), (4000, 1000, 300, 70));
    assert_eq!((b.tokens_saved, b.projected_count, b.inline_count, b.handle_only_count), (930, 1, 0, 0));
}

#[test]
fn truncation_accepts_any_budget() {
    assert_eq!(safe_truncate_line("short", usize::MAX), "short");
    assert_eq!(safe_truncate_line("abcdef", 5), "ab...");
}
